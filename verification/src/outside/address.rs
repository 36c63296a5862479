//! Monero addresses, read and written by `monero` and `base58_monero`.
use core::str::FromStr;

use vstd::prelude::*;

verus! {

/// The bytes that `text` stands for in Monero's base58, if it is base58.
pub uninterp spec fn base58_bytes(text: Seq<char>) -> Option<Seq<u8>>;

/// Calls `base58_monero::decode`.
#[verifier::external_body]
pub(crate) fn decode_base58(text: &str) -> (res: Option<Vec<u8>>)
    ensures
        res is Some <==> base58_bytes(text@) is Some,
        res matches Some(bytes) ==> base58_bytes(text@) == Some(bytes@),
{
    base58_monero::decode(text).ok()
}

/// Whether `tag` is the first byte of an address that holds a payment id, on
/// any of the three networks.
pub open spec fn integrated_tag(tag: u8) -> bool {
    tag == 19 || tag == 54 || tag == 25
}

/// Whether `tag` is the first byte of an address on any of the three networks.
pub open spec fn address_tag(tag: u8) -> bool {
    integrated_tag(tag) || tag == 18 || tag == 42 || tag == 53 || tag == 63 || tag == 24 || tag
        == 36
}

/// Whether 32 bytes are a point of the curve, as public keys are.
pub uninterp spec fn public_key(bytes: Seq<u8>) -> bool;

/// Calls `monero::PublicKey::from_slice` and says whether it took the bytes.
#[verifier::external_body]
pub(crate) fn is_public_key(bytes: &[u8]) -> (res: bool)
    ensures
        res == public_key(bytes@),
{
    monero::PublicKey::from_slice(bytes).is_ok()
}

/// Whether `bytes` reach as far as they are read. An address is read from its
/// first byte on, and what comes first decides: bytes that begin with no known
/// tag are refused at once, a payment id is read before the keys, and what
/// follows a key that is none is not read any more.
pub open spec fn address_complete(bytes: Seq<u8>) -> bool {
    &&& bytes.len() >= 1
    &&& address_tag(bytes[0]) ==> {
        let checksum_end: int = if integrated_tag(bytes[0]) {
            77
        } else {
            69
        };
        &&& integrated_tag(bytes[0]) ==> bytes.len() >= 73
        &&& bytes.len() >= 33
        &&& public_key(bytes.subrange(1, 33)) ==> {
            &&& bytes.len() >= 65
            &&& public_key(bytes.subrange(33, 65)) ==> bytes.len() >= checksum_end
        }
    }
}

/// Whether `text` is base58 for bytes that reach as far as they are read.
pub open spec fn complete_text(text: Seq<char>) -> bool {
    base58_bytes(text) matches Some(bytes) && address_complete(bytes)
}

/// The canonical text of the address that `text` stands for, if it is one.
pub uninterp spec fn address_text(text: Seq<char>) -> Option<Seq<char>>;

/// Calls `monero::Address::from_str` and writes what it read as text again. A
/// canonical text is read as itself.
#[verifier::external_body]
pub(crate) fn parse_address(text: &str) -> (res: Result<String, monero::util::address::Error>)
    requires
        base58_bytes(text@) matches Some(bytes) ==> address_complete(bytes),
    ensures
        res is Ok <==> address_text(text@) is Some,
        res matches Ok(canonical) ==> {
            &&& address_text(text@) == Some(canonical@)
            &&& address_text(canonical@) == Some(canonical@)
            &&& complete_text(canonical@)
        },
{
    monero::Address::from_str(text).map(|address| address.to_string())
}

/// The networks of Monero.
#[derive(Clone, Copy, Debug, PartialEq, Eq, Structural)]
pub enum Network {
    Mainnet,
    Testnet,
    Stagenet,
}

impl Network {
    /// The first byte of an address on this network that holds a payment id.
    pub open spec fn integrated_tag(self) -> u8 {
        match self {
            Network::Mainnet => 19,
            Network::Testnet => 54,
            Network::Stagenet => 25,
        }
    }
}

/// The text of the address that begins with `tag` and has the keys of the
/// address `text` and the payment id `id`.
pub uninterp spec fn integrated_text(text: Seq<char>, tag: u8, id: Seq<u8>) -> Seq<char>;

/// Whether `res` is base58 for the tag, the two keys of the address `text`,
/// the payment id and four more bytes.
pub open spec fn carries(res: Seq<char>, text: Seq<char>, tag: u8, id: Seq<u8>) -> bool {
    &&& base58_bytes(res) matches Some(bytes)
    &&& bytes.len() == 77
    &&& bytes[0] == tag
    &&& base58_bytes(text) matches Some(base)
    &&& bytes.subrange(1, 65) == base.subrange(1, 65)
    &&& bytes.subrange(65, 73) == id
}

/// Calls `monero::Address::integrated` with the keys of the address `text` and
/// writes the address as text. The text is base58 for the tag of integrated
/// addresses on the network, the keys as they stand in `text`, the id and a
/// checksum.
#[verifier::external_body]
pub(crate) fn integrated_address(text: &str, network: Network, id: [u8; 8]) -> (res: String)
    requires
        complete_text(text@),
        address_text(text@) is Some,
    ensures
        res@ == integrated_text(text@, network.integrated_tag(), id@),
        carries(res@, text@, network.integrated_tag(), id@),
        address_text(res@) == Some(res@),
        complete_text(res@),
{
    let base = monero::Address::from_str(text).unwrap();
    let id = monero::util::address::PaymentId(id);
    let network = match network {
        Network::Mainnet => monero::Network::Mainnet,
        Network::Testnet => monero::Network::Testnet,
        Network::Stagenet => monero::Network::Stagenet,
    };
    monero::Address::integrated(network, base.public_spend, base.public_view, id).to_string()
}

} // verus!
