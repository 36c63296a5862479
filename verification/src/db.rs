//! The keys of the database.
use vstd::bytes::*;
use vstd::prelude::*;
use vstd::utf8::*;

use crate::outside;
use crate::outside::codec::{
    deserialize_digest, deserialize_number, deserialize_text, serialize_digest, serialize_number,
    serialize_text,
};

verus! {

/// A value that entries of the database are stored under.
pub trait Key: Sized {
    /// The bytes that an entry with this key is stored under.
    spec fn stored(&self) -> Seq<u8>;

    /// Whether the bytes begin with those of a key.
    spec fn readable(bytes: Seq<u8>) -> bool;

    /// Whether two keys are the same.
    spec fn same(&self, other: &Self) -> bool;

    /// Whether the key is no longer than a length can tell.
    spec fn storable(&self) -> bool;

    /// Different keys are stored under different bytes.
    proof fn stored_apart(&self, other: &Self)
        ensures
            self.stored() == other.stored() <==> self.same(other),
    ;

    /// The bytes of a key can be read.
    proof fn stored_is_readable(&self)
        requires
            self.storable(),
        ensures
            Self::readable(self.stored()),
    ;

    /// A key that is read from the bytes of this one is this one.
    proof fn stored_is_read_back(&self, read: &Self)
        requires
            self.storable(),
            read.storable(),
            read.stored().is_prefix_of(self.stored()),
        ensures
            self.same(read),
    ;

    /// Writes the bytes that an entry with this key is stored under.
    fn to_bytes(&self) -> (bytes: Vec<u8>)
        ensures
            bytes@ == self.stored(),
    ;

    /// Reads a key from bytes; what follows it is ignored.
    fn from_bytes(bytes: &[u8]) -> (res: Option<Self>)
        ensures
            res is Some <==> Self::readable(bytes@),
            res matches Some(key) ==> key.stored().is_prefix_of(bytes@),
    ;
}

impl Key for String {
    open spec fn stored(&self) -> Seq<u8> {
        outside::codec::text_record(self@)
    }

    open spec fn readable(bytes: Seq<u8>) -> bool {
        outside::codec::starts_with_text(bytes)
    }

    open spec fn same(&self, other: &Self) -> bool {
        self@ == other@
    }

    open spec fn storable(&self) -> bool {
        encode_utf8(self@).len() <= u64::MAX
    }

    proof fn stored_apart(&self, other: &Self) {
        lemma_auto_spec_u64_to_from_le_bytes();
        let a = encode_utf8(self@);
        let b = encode_utf8(other@);
        encode_utf8_decode_utf8(self@);
        encode_utf8_decode_utf8(other@);
        assert(self.stored().skip(8) =~= a);
        assert(other.stored().skip(8) =~= b);
    }

    proof fn stored_is_readable(&self) {
        lemma_auto_spec_u64_to_from_le_bytes();
        encode_utf8_valid_utf8(self@);
        let bytes = self.stored();
        let text = encode_utf8(self@);
        assert(bytes.subrange(0, 8) =~= spec_u64_to_le_bytes(text.len() as u64));
        assert(bytes.subrange(8, 8 + text.len() as int) =~= text);
    }

    proof fn stored_is_read_back(&self, read: &Self) {
        lemma_auto_spec_u64_to_from_le_bytes();
        let a = encode_utf8(self@);
        let b = encode_utf8(read@);
        assert(self.stored().take(8) =~= spec_u64_to_le_bytes(a.len() as u64));
        assert(read.stored().take(8) =~= spec_u64_to_le_bytes(b.len() as u64));
        assert(read.stored().take(8) =~= self.stored().take(8));
        assert(read.stored() =~= self.stored());
        self.stored_apart(read);
    }

    fn to_bytes(&self) -> (bytes: Vec<u8>) {
        serialize_text(self)
    }

    fn from_bytes(bytes: &[u8]) -> (res: Option<Self>) {
        let res = deserialize_text(bytes);
        proof {
            if res is Some {
                let key = res->0;
                lemma_auto_spec_u64_to_from_le_bytes();
                let len = outside::codec::record_len(bytes@);
                let text = bytes@.subrange(8, 8 + len);
                decode_utf8_encode_utf8(text);
                assert(encode_utf8(key@) == text);
                assert(spec_u64_to_le_bytes(text.len() as u64) =~= bytes@.subrange(0, 8));
                assert(key.stored() =~= bytes@.take(8 + len));
            }
        }
        res
    }
}

impl Key for u64 {
    open spec fn stored(&self) -> Seq<u8> {
        spec_u64_to_le_bytes(*self)
    }

    open spec fn readable(bytes: Seq<u8>) -> bool {
        bytes.len() >= 8
    }

    open spec fn same(&self, other: &Self) -> bool {
        *self == *other
    }

    open spec fn storable(&self) -> bool {
        true
    }

    proof fn stored_apart(&self, other: &Self) {
        lemma_auto_spec_u64_to_from_le_bytes();
    }

    proof fn stored_is_readable(&self) {
        lemma_auto_spec_u64_to_from_le_bytes();
    }

    proof fn stored_is_read_back(&self, read: &Self) {
        lemma_auto_spec_u64_to_from_le_bytes();
        assert(read.stored() =~= self.stored());
        self.stored_apart(read);
    }

    fn to_bytes(&self) -> (bytes: Vec<u8>) {
        serialize_number(*self)
    }

    fn from_bytes(bytes: &[u8]) -> (res: Option<Self>) {
        let res = deserialize_number(bytes);
        proof {
            if res is Some {
                let key = res->0;
                lemma_auto_spec_u64_to_from_le_bytes();
                assert(key.stored() =~= bytes@.take(8));
            }
        }
        res
    }
}

impl Key for [u8; 32] {
    open spec fn stored(&self) -> Seq<u8> {
        self@
    }

    open spec fn readable(bytes: Seq<u8>) -> bool {
        bytes.len() >= 32
    }

    open spec fn same(&self, other: &Self) -> bool {
        self@ == other@
    }

    open spec fn storable(&self) -> bool {
        true
    }

    proof fn stored_apart(&self, other: &Self) {
    }

    proof fn stored_is_readable(&self) {
    }

    proof fn stored_is_read_back(&self, read: &Self) {
        assert(read.stored() =~= self.stored());
    }

    fn to_bytes(&self) -> (bytes: Vec<u8>) {
        serialize_digest(self)
    }

    fn from_bytes(bytes: &[u8]) -> (res: Option<Self>) {
        deserialize_digest(bytes)
    }
}

} // verus!
