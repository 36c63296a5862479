//! Recognising files by their first bytes with `infer`.
use vstd::prelude::*;

verus! {

/// Whether `bytes` begin with the magic number of a Zstandard frame.
pub open spec fn zstd_magic(bytes: Seq<u8>) -> bool {
    bytes.len() > 3 && bytes[0] == 0x28 && bytes[1] == 0xB5 && bytes[2] == 0x2F && bytes[3] == 0xFD
}

/// Calls `infer::is`. For the extension `zst` it tests the magic number of a
/// Zstandard frame and nothing else.
#[verifier::external_body]
pub(crate) fn is_file_type(bytes: &[u8], extension: &str) -> (res: bool)
    requires
        extension@ == "zst"@,
    ensures
        res == zstd_magic(bytes@),
{
    infer::is(bytes, extension)
}

} // verus!
