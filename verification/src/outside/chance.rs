//! Random values from `rand`. No two calls need agree.
use rand::{Rng, RngCore};

use vstd::prelude::*;

verus! {

/// Calls `fill_bytes` on `rand::thread_rng` for 32 bytes; any bytes may come.
#[verifier::external_body]
pub(crate) fn random_bytes() -> (bytes: [u8; 32]) {
    let mut bytes = [0u8; 32];
    rand::thread_rng().fill_bytes(&mut bytes);
    bytes
}

/// Whether `c` is one of the letters and digits of ASCII.
pub open spec fn ascii_alphanumeric(c: char) -> bool {
    '0' <= c <= '9' || 'A' <= c <= 'Z' || 'a' <= c <= 'z'
}

/// Draws one character from `rand::distributions::Alphanumeric` with
/// `rand::thread_rng`; any ASCII letter or digit may come.
#[verifier::external_body]
pub(crate) fn random_alphanumeric() -> (c: char)
    ensures
        ascii_alphanumeric(c),
{
    char::from(rand::thread_rng().sample(rand::distributions::Alphanumeric))
}

} // verus!
