//! Hexadecimal text, written and read by `hex_simd` and `blake3`.
use vstd::prelude::*;

verus! {

/// The lower-case hexadecimal digit of a value below sixteen.
pub open spec fn hex_digit(v: int) -> char {
    if v < 10 {
        (v + 48) as char
    } else {
        (v + 87) as char
    }
}

/// Two lower-case hexadecimal digits for each byte, the high one first.
pub open spec fn lower_hex(bytes: Seq<u8>) -> Seq<char> {
    Seq::new(
        2 * bytes.len(),
        |i: int|
            if i % 2 == 0 {
                hex_digit(bytes[i / 2] as int / 16)
            } else {
                hex_digit(bytes[i / 2] as int % 16)
            },
    )
}

/// Whether `b` is the ASCII code of a hexadecimal digit in either case.
pub open spec fn is_hex_digit(b: u8) -> bool {
    48 <= b <= 57 || 65 <= b <= 70 || 97 <= b <= 102
}

/// The value of an ASCII hexadecimal digit.
pub open spec fn hex_value(b: u8) -> int {
    if b <= 57 {
        b - 48
    } else if b <= 70 {
        b - 55
    } else {
        b - 87
    }
}

/// Whether `text` is an even number of hexadecimal digits.
pub open spec fn is_hex(text: Seq<u8>) -> bool {
    &&& text.len() % 2 == 0
    &&& forall|i: int| 0 <= i < text.len() ==> is_hex_digit(#[trigger] text[i])
}

/// The bytes that hexadecimal `text` stands for.
pub open spec fn hex_bytes(text: Seq<u8>) -> Seq<u8> {
    Seq::new(
        text.len() / 2,
        |i: int| (16 * hex_value(text[2 * i]) + hex_value(text[2 * i + 1])) as u8,
    )
}

/// What is left in a buffer of hexadecimal `text` that was decoded in place:
/// the decoded bytes, and behind them the untouched second half of the text.
pub open spec fn hex_in_place(text: Seq<u8>) -> Seq<u8> {
    hex_bytes(text) + text.subrange(text.len() as int / 2, text.len() as int)
}

/// Calls `hex_simd::decode_to_boxed_bytes`, which decodes case-insensitively
/// and fails exactly where the text is not an even number of digits.
#[verifier::external_body]
pub(crate) fn decode_hex(text: &[u8]) -> (res: Result<Vec<u8>, hex_simd::Error>)
    ensures
        res is Ok <==> is_hex(text@),
        res matches Ok(bytes) ==> bytes@ == hex_bytes(text@),
{
    hex_simd::decode_to_boxed_bytes(text).map(|bytes| bytes.into_vec())
}

/// Calls `hex_simd::decode_inplace`, which writes the decoded bytes over the
/// first half of the buffer and leaves the second half as it was. After a
/// failure only the length of the buffer is known.
#[verifier::external_body]
pub(crate) fn decode_hex_in_place(buffer: &mut Vec<u8>) -> (res: Result<(), hex_simd::Error>)
    ensures
        res is Ok <==> is_hex(old(buffer)@),
        res is Ok ==> final(buffer)@ == hex_in_place(old(buffer)@),
        final(buffer)@.len() == old(buffer)@.len(),
{
    hex_simd::decode_inplace(buffer).map(|_| ())
}

/// Calls `hex_simd::encode_to_boxed_str` with lower-case digits.
#[verifier::external_body]
pub(crate) fn encode_hex(bytes: &[u8]) -> (text: String)
    requires
        bytes@.len() <= usize::MAX / 4,
    ensures
        text@ == lower_hex(bytes@),
{
    hex_simd::encode_to_boxed_str(bytes, hex_simd::AsciiCase::Lower).into_string()
}

/// Calls `blake3::Hash::to_hex`, which writes a digest in lower-case digits.
#[verifier::external_body]
pub(crate) fn digest_hex(digest: [u8; 32]) -> (text: String)
    ensures
        text@ == lower_hex(digest@),
{
    blake3::Hash::from_bytes(digest).to_hex().to_string()
}

} // verus!
