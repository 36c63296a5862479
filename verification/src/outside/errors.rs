//! Types of outside crates that the library carries without looking inside.
use vstd::prelude::*;

verus! {

/// `hex_simd::Error`: the text was not hexadecimal.
#[verifier::external_type_specification]
#[verifier::external_body]
pub struct ExHexError(hex_simd::Error);

/// `monero::util::address::Error`: the text was not an address.
#[verifier::external_type_specification]
#[verifier::external_body]
pub struct ExAddressError(monero::util::address::Error);

/// `monero::consensus::encode::Error`: the bytes were not what was expected.
#[verifier::external_type_specification]
#[verifier::external_body]
pub struct ExEncodingError(monero::consensus::encode::Error);

/// `reqwest::Error`: a request over HTTP failed.
#[verifier::external_type_specification]
#[verifier::external_body]
pub struct ExRequestError(reqwest::Error);

/// `rust_decimal::Decimal`: an amount of money in a fiat currency.
#[verifier::external_type_specification]
#[verifier::external_body]
pub struct ExDecimal(rust_decimal::Decimal);

} // verus!
