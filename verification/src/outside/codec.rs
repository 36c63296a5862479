//! The bytes that `bincode` writes for the keys of the database.
use vstd::bytes::*;
use vstd::prelude::*;
use vstd::utf8::*;

verus! {

/// A string as its length in eight little-endian bytes and its UTF-8 bytes.
pub open spec fn text_record(text: Seq<char>) -> Seq<u8> {
    spec_u64_to_le_bytes(encode_utf8(text).len() as u64) + encode_utf8(text)
}

/// Calls `bincode::serialize` on a string.
#[verifier::external_body]
pub(crate) fn serialize_text(text: &String) -> (bytes: Vec<u8>)
    ensures
        bytes@ == text_record(text@),
{
    bincode::serialize(text).unwrap()
}

/// The length that the first eight bytes of a string's record state.
pub open spec fn record_len(bytes: Seq<u8>) -> int {
    spec_u64_from_le_bytes(bytes.subrange(0, 8)) as int
}

/// Whether `bytes` begin with the record of a string.
pub open spec fn starts_with_text(bytes: Seq<u8>) -> bool {
    &&& bytes.len() >= 8
    &&& record_len(bytes) <= bytes.len() - 8
    &&& valid_utf8(bytes.subrange(8, 8 + record_len(bytes)))
}

/// Calls `bincode::deserialize` for a string, which ignores what follows it.
#[verifier::external_body]
pub(crate) fn deserialize_text(bytes: &[u8]) -> (res: Option<String>)
    ensures
        res is Some <==> starts_with_text(bytes@),
        res matches Some(text) ==> text@ == decode_utf8(
            bytes@.subrange(8, 8 + record_len(bytes@)),
        ),
{
    bincode::deserialize(bytes).ok()
}

/// Calls `bincode::serialize` on a number: eight little-endian bytes.
#[verifier::external_body]
pub(crate) fn serialize_number(n: u64) -> (bytes: Vec<u8>)
    ensures
        bytes@ == spec_u64_to_le_bytes(n),
{
    bincode::serialize(&n).unwrap()
}

/// Calls `bincode::deserialize` for a number, which ignores what follows it.
#[verifier::external_body]
pub(crate) fn deserialize_number(bytes: &[u8]) -> (res: Option<u64>)
    ensures
        res is Some <==> bytes@.len() >= 8,
        res matches Some(n) ==> n == spec_u64_from_le_bytes(bytes@.subrange(0, 8)),
{
    bincode::deserialize(bytes).ok()
}

/// Calls `bincode::serialize` on a digest: its bytes and nothing else.
#[verifier::external_body]
pub(crate) fn serialize_digest(digest: &[u8; 32]) -> (bytes: Vec<u8>)
    ensures
        bytes@ == digest@,
{
    bincode::serialize(digest).unwrap()
}

/// Calls `bincode::deserialize` for a digest, which ignores what follows it.
#[verifier::external_body]
pub(crate) fn deserialize_digest(bytes: &[u8]) -> (res: Option<[u8; 32]>)
    ensures
        res is Some <==> bytes@.len() >= 32,
        res matches Some(digest) ==> digest@ == bytes@.subrange(0, 32),
{
    bincode::deserialize(bytes).ok()
}

/// Whether every character of `text` is a lower-case letter or a digit of
/// ASCII, so that JSON writes it as it is.
pub open spec fn plain_in_json(text: Seq<char>) -> bool {
    forall|i: int|
        0 <= i < text.len() ==> ('0' <= #[trigger] text[i] <= '9' || 'a' <= text[i] <= 'z')
}

/// The strings in quotes with commas between them.
pub open spec fn quoted_list(list: Seq<Seq<char>>) -> Seq<char>
    decreases list.len(),
{
    if list.len() == 0 {
        seq![]
    } else if list.len() == 1 {
        seq!['"'] + list[0] + seq!['"']
    } else {
        quoted_list(list.drop_last()) + seq![',', '"'] + list.last() + seq!['"']
    }
}

/// Calls `simd_json::to_string` on strings that need no escapes: a JSON array
/// without blanks.
#[verifier::external_body]
pub(crate) fn json_array(list: &Vec<String>) -> (text: String)
    requires
        list@.len() > 0,
        forall|i: int| 0 <= i < list@.len() ==> plain_in_json(#[trigger] list@[i]@),
    ensures
        text@ == seq!['['] + quoted_list(list@.map_values(|s: String| s@)) + seq![']'],
{
    simd_json::to_string(list).unwrap()
}

} // verus!
