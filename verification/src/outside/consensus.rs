//! Monero's consensus encoding, read by `monero`.
use vstd::prelude::*;

verus! {

/// Calls `monero::consensus::deserialize` for a `monero::Hash`, which takes
/// exactly 32 bytes as they are.
#[verifier::external_body]
pub(crate) fn deserialize_hash(bytes: &[u8]) -> (res: Result<
    [u8; 32],
    monero::consensus::encode::Error,
>)
    ensures
        res is Ok <==> bytes@.len() == 32,
        res matches Ok(hash) ==> hash@ == bytes@,
{
    monero::consensus::deserialize::<monero::Hash>(bytes).map(|hash| hash.to_fixed_bytes())
}

} // verus!
