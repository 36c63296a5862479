//! Monero addresses.
use vstd::prelude::*;
use vstd::slice::slice_subrange;

use crate::outside::address::{
    decode_base58, integrated_address, is_public_key, parse_address, Network,
};
use crate::outside::address as outside;

verus! {

/// Whether `text` can be read as an address or refused: it is no base58, or
/// the bytes reach as far as they are read.
pub open spec fn address_readable(text: Seq<char>) -> bool {
    outside::base58_bytes(text) matches Some(bytes) ==> outside::address_complete(bytes)
}

/// Decides whether bytes reach as far as they are read.
fn is_complete(bytes: &Vec<u8>) -> (res: bool)
    ensures
        res == outside::address_complete(bytes@),
{
    let len: usize = bytes.len();
    if len == 0 {
        return false;
    }
    let tag: u8 = bytes[0];
    let with_id: bool = tag == 19 || tag == 54 || tag == 25;
    let known: bool = with_id || tag == 18 || tag == 42 || tag == 53 || tag == 63 || tag == 24
        || tag == 36;
    if !known {
        return true;
    }
    if len < 33 || with_id && len < 73 {
        return false;
    }
    if !is_public_key(slice_subrange(bytes.as_slice(), 1, 33)) {
        return true;
    }
    if len < 65 {
        return false;
    }
    if !is_public_key(slice_subrange(bytes.as_slice(), 33, 65)) {
        return true;
    }
    len >= if with_id {
        77
    } else {
        69
    }
}

/// A Monero address, held as its canonical text.
pub struct Address {
    text: String,
}

impl View for Address {
    type V = Seq<char>;

    closed spec fn view(&self) -> Seq<char> {
        self.text@
    }
}

/// What came of reading an address.
pub enum AddressReading {
    /// The address that the text stands for.
    Found(Address),
    /// The text stands for no address.
    Invalid(monero::util::address::Error),
    /// The text is base58 for bytes that end too early to be read or refused.
    Incomplete,
}

impl Address {
    #[verifier::type_invariant]
    spec fn canonical(self) -> bool {
        &&& outside::address_text(self.text@) == Some(self.text@)
        &&& outside::complete_text(self.text@)
    }

    /// Reads an address from text.
    pub fn read(text: &str) -> (res: AddressReading)
        ensures
            res is Incomplete <==> !address_readable(text@),
            res is Found <==> address_readable(text@) && outside::address_text(text@) is Some,
            res matches AddressReading::Found(address) ==> outside::address_text(text@) == Some(address@),
    {
        if let Some(bytes) = decode_base58(text) {
            if !is_complete(&bytes) {
                return AddressReading::Incomplete;
            }
        }
        match parse_address(text) {
            Ok(canonical) => AddressReading::Found(Address { text: canonical }),
            Err(err) => AddressReading::Invalid(err),
        }
    }

    /// The address as text. Reading that text gives the same address again.
    pub fn to_text(&self) -> (res: String)
        ensures
            res@ == self@,
            address_readable(res@),
            outside::address_text(res@) == Some(self@),
    {
        proof {
            use_type_invariant(self);
        }
        self.text.clone()
    }

    /// The address on the network with the keys of this one and a payment id.
    pub fn integrated(&self, network: Network, id: [u8; 8]) -> (res: Address)
        ensures
            is_integrated(res@, self@, network, id@),
    {
        proof {
            use_type_invariant(self);
        }
        Address { text: integrated_address(self.text.as_str(), network, id) }
    }
}

/// Whether `res` is the address on the network with the keys of the address
/// `base` and the payment id.
pub open spec fn is_integrated(
    res: Seq<char>,
    base: Seq<char>,
    network: Network,
    id: Seq<u8>,
) -> bool {
    &&& res == outside::integrated_text(base, network.integrated_tag(), id)
    &&& outside::carries(res, base, network.integrated_tag(), id)
}

/// Two addresses with payment ids of one address, on one network, are the same
/// exactly if their ids are.
pub proof fn integrated_addresses_differ(
    a: Seq<char>,
    b: Seq<char>,
    base: Seq<char>,
    network: Network,
    id_a: Seq<u8>,
    id_b: Seq<u8>,
)
    ensures
        is_integrated(a, base, network, id_a) && is_integrated(b, base, network, id_b) ==> (a == b
            <==> id_a == id_b),
{
}

impl Clone for Address {
    fn clone(&self) -> (res: Self)
        ensures
            res@ == self@,
    {
        proof {
            use_type_invariant(self);
        }
        Address { text: self.text.clone() }
    }
}

/// Text can be read as an address or refused where it is no base58, or base58
/// for bytes that reach as far as they are read; nothing else is asked of it.
pub proof fn texts_that_can_be_read(text: Seq<char>)
    ensures
        outside::base58_bytes(text) is None ==> address_readable(text),
        outside::base58_bytes(text) matches Some(bytes) ==> (address_readable(text)
            <==> outside::address_complete(bytes)),
{
}

/// A payment address of a wallet on the main network begins with the byte 19,
/// holds the keys of the wallet's address and ends with the payment id and a
/// checksum of four bytes.
pub proof fn integrated_addresses_hold(
    res: Seq<char>,
    base: Seq<char>,
    network: Network,
    id: Seq<u8>,
)
    ensures
        is_integrated(res, base, network, id) ==> {
            &&& outside::base58_bytes(res) matches Some(bytes)
            &&& outside::base58_bytes(base) matches Some(base_bytes)
            &&& bytes.len() == 77
            &&& bytes[0] == if network is Mainnet {
                19u8
            } else if network is Testnet {
                54u8
            } else {
                25u8
            }
            &&& bytes.subrange(1, 65) == base_bytes.subrange(1, 65)
            &&& bytes.subrange(65, 73) == id
        },
{
}

} // verus!
