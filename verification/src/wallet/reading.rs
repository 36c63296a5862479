//! Reading the fields of an answer.
use vstd::prelude::*;

use crate::outside;
use crate::wallet::address::{Address, AddressReading};
use crate::wallet::json::JsonValue;

verus! {

/// What came of reading a field.
pub enum Reading<T> {
    /// The field is there and of the kind that was asked for.
    Found(T),
    /// There is no such field.
    Missing,
    /// The field is of another kind, which the protocol rules out.
    Malformed,
}

impl<T> Reading<T> {
    /// Why nothing was found, as a reading of something else.
    pub open spec fn gap<U>(self) -> Reading<U> {
        match self {
            Reading::Missing => Reading::Missing,
            _ => Reading::Malformed,
        }
    }
}

/// The number in the field `name`.
pub open spec fn number_in(value: JsonValue, name: Seq<char>) -> Reading<u64> {
    match value.member(name) {
        Some(field) => match field.number() {
            Some(n) => Reading::Found(n),
            None => Reading::Malformed,
        },
        None => Reading::Missing,
    }
}

/// Reads the number in the field `name`.
pub fn read_number(value: &JsonValue, name: &str) -> (res: Reading<u64>)
    ensures
        res == number_in(*value, name@),
{
    match value.get(name) {
        Some(field) => match field.as_u64() {
            Some(n) => Reading::Found(n),
            None => Reading::Malformed,
        },
        None => Reading::Missing,
    }
}

/// The truth value in the field `name`.
pub open spec fn truth_in(value: JsonValue, name: Seq<char>) -> Reading<bool> {
    match value.member(name) {
        Some(field) => match field.truth() {
            Some(b) => Reading::Found(b),
            None => Reading::Malformed,
        },
        None => Reading::Missing,
    }
}

/// Reads the truth value in the field `name`.
pub fn read_truth(value: &JsonValue, name: &str) -> (res: Reading<bool>)
    ensures
        res == truth_in(*value, name@),
{
    match value.get(name) {
        Some(field) => match field.as_bool() {
            Some(b) => Reading::Found(b),
            None => Reading::Malformed,
        },
        None => Reading::Missing,
    }
}

/// The text in the field `name`.
pub open spec fn text_in(value: JsonValue, name: Seq<char>) -> Reading<Seq<char>> {
    match value.member(name) {
        Some(field) => match field.text() {
            Some(s) => Reading::Found(s),
            None => Reading::Malformed,
        },
        None => Reading::Missing,
    }
}

/// Reads the text in the field `name`.
pub fn read_text(value: &JsonValue, name: &str) -> (res: Reading<String>)
    ensures
        res is Missing <==> text_in(*value, name@) is Missing,
        res is Malformed <==> text_in(*value, name@) is Malformed,
        res matches Reading::Found(s) ==> text_in(*value, name@) == Reading::Found(s@),
{
    match value.get(name) {
        Some(field) => match field.as_str() {
            Some(s) => Reading::Found(s.clone()),
            None => Reading::Malformed,
        },
        None => Reading::Missing,
    }
}

/// The list in the field `name`.
pub open spec fn list_in(value: JsonValue, name: Seq<char>) -> Reading<Seq<JsonValue>> {
    match value.member(name) {
        Some(field) => match field.items() {
            Some(list) => Reading::Found(list),
            None => Reading::Malformed,
        },
        None => Reading::Missing,
    }
}

/// The address in the field `name`, as its canonical text.
pub open spec fn address_in(value: JsonValue, name: Seq<char>) -> Reading<Seq<char>> {
    match text_in(value, name) {
        Reading::Found(text) => if crate::wallet::address::address_readable(text) && outside::address::address_text(text) is Some {
            Reading::Found(outside::address::address_text(text)->0)
        } else {
            Reading::Malformed
        },
        Reading::Missing => Reading::Missing,
        Reading::Malformed => Reading::Malformed,
    }
}

/// Reads the address in the field `name`.
pub fn read_address(value: &JsonValue, name: &str) -> (res: Reading<Address>)
    ensures
        res is Missing <==> address_in(*value, name@) is Missing,
        res is Malformed <==> address_in(*value, name@) is Malformed,
        res matches Reading::Found(a) ==> address_in(*value, name@) == Reading::Found(a@),
{
    match read_text(value, name) {
        Reading::Found(text) => match Address::read(text.as_str()) {
            AddressReading::Found(address) => Reading::Found(address),
            _ => Reading::Malformed,
        },
        Reading::Missing => Reading::Missing,
        Reading::Malformed => Reading::Malformed,
    }
}

/// A field is missing exactly where the value has no member of that name. One
/// that is there is found where it is of the kind that was asked for, with just
/// what it holds, and malformed where it is not.
pub proof fn fields_are_read(value: JsonValue, name: Seq<char>)
    ensures
        value.member(name) is None ==> {
            &&& number_in(value, name) is Missing
            &&& truth_in(value, name) is Missing
            &&& text_in(value, name) is Missing
            &&& list_in(value, name) is Missing
            &&& address_in(value, name) is Missing
        },
        value.member(name) matches Some(field) ==> {
            &&& number_in(value, name) == match field.number() {
                Some(n) => Reading::Found(n),
                None => Reading::Malformed,
            }
            &&& truth_in(value, name) == match field.truth() {
                Some(b) => Reading::Found(b),
                None => Reading::Malformed,
            }
            &&& text_in(value, name) == match field.text() {
                Some(s) => Reading::Found(s),
                None => Reading::Malformed,
            }
            &&& list_in(value, name) == match field.items() {
                Some(list) => Reading::Found(list),
                None => Reading::Malformed,
            }
        },
{
}

/// An address is found where the field is text that stands for one, as its
/// canonical text; any other field is malformed.
pub proof fn addresses_are_read(value: JsonValue, name: Seq<char>)
    ensures
        value.member(name) matches Some(field) ==> match field.text() {
            None => address_in(value, name) is Malformed,
            Some(text) => {
                &&& !crate::wallet::address::address_readable(text) ==> address_in(
                    value,
                    name,
                ) is Malformed
                &&& crate::wallet::address::address_readable(text) ==> address_in(value, name)
                    == match outside::address::address_text(text) {
                    Some(addr) => Reading::Found(addr),
                    None => Reading::Malformed,
                }
            },
        },
{
}

} // verus!
