//! JSON documents as the wallet and the daemon answer with them.
use vstd::prelude::*;

verus! {

/// A JSON value. Numbers that are no 64-bit integers are told apart from the
/// others but not kept: nothing here reads them.
pub enum JsonValue {
    Null,
    Bool(bool),
    Signed(i64),
    Unsigned(u64),
    OtherNumber,
    Text(String),
    Array(Vec<JsonValue>),
    Object(Vec<Member>),
}

/// A named value of an object. An object holds at most one member per name.
pub struct Member {
    pub name: String,
    pub value: JsonValue,
}

/// The value of the first member called `name`.
pub open spec fn lookup(members: Seq<Member>, name: Seq<char>) -> Option<JsonValue>
    decreases members.len(),
{
    if members.len() == 0 {
        None
    } else if members[0].name@ == name {
        Some(members[0].value)
    } else {
        lookup(members.drop_first(), name)
    }
}

impl JsonValue {
    /// The member called `name`, if this is an object that has one.
    pub open spec fn member(self, name: Seq<char>) -> Option<JsonValue> {
        match self {
            JsonValue::Object(members) => lookup(members@, name),
            _ => None,
        }
    }

    /// This value as a number that fits 64 unsigned bits.
    pub open spec fn number(self) -> Option<u64> {
        match self {
            JsonValue::Unsigned(n) => Some(n),
            JsonValue::Signed(n) => if n >= 0 {
                Some(n as u64)
            } else {
                None
            },
            _ => None,
        }
    }

    /// This value as text.
    pub open spec fn text(self) -> Option<Seq<char>> {
        match self {
            JsonValue::Text(s) => Some(s@),
            _ => None,
        }
    }

    /// This value as a list.
    pub open spec fn items(self) -> Option<Seq<JsonValue>> {
        match self {
            JsonValue::Array(list) => Some(list@),
            _ => None,
        }
    }

    /// This value as a truth value.
    pub open spec fn truth(self) -> Option<bool> {
        match self {
            JsonValue::Bool(b) => Some(b),
            _ => None,
        }
    }

    /// Looks a member up by its name.
    pub fn get(&self, name: &str) -> (res: Option<&JsonValue>)
        ensures
            res is Some <==> self.member(name@) is Some,
            res matches Some(value) ==> self.member(name@) == Some(*value),
    {
        match self {
            JsonValue::Object(members) => {
                let wanted: String = name.to_owned();
                let mut i: usize = 0;
                proof {
                    assert(members@.skip(0) =~= members@);
                }
                while i < members.len()
                    invariant
                        i <= members@.len(),
                        wanted@ == name@,
                        self.member(name@) == lookup(members@, name@),
                        lookup(members@, name@) == lookup(members@.skip(i as int), name@),
                    decreases members@.len() - i,
                {
                    proof {
                        assert(members@.skip(i as int)[0] == members@[i as int]);
                        assert(members@.skip(i as int).drop_first() =~= members@.skip(i + 1));
                    }
                    if members[i].name == wanted {
                        return Some(&members[i].value);
                    }
                    i += 1;
                }
                None
            },
            _ => None,
        }
    }

    /// Whether this is an object with a member called `name`.
    pub fn contains_key(&self, name: &str) -> (res: bool)
        ensures
            res == (self.member(name@) is Some),
    {
        self.get(name).is_some()
    }

    /// Reads this value as a number that fits 64 unsigned bits.
    pub fn as_u64(&self) -> (res: Option<u64>)
        ensures
            res == self.number(),
    {
        match self {
            JsonValue::Unsigned(n) => Some(*n),
            JsonValue::Signed(n) => if *n >= 0 {
                Some(*n as u64)
            } else {
                None
            },
            _ => None,
        }
    }

    /// Reads this value as text.
    pub fn as_str(&self) -> (res: Option<&String>)
        ensures
            res is Some <==> self.text() is Some,
            res matches Some(s) ==> self.text() == Some(s@),
    {
        match self {
            JsonValue::Text(s) => Some(s),
            _ => None,
        }
    }

    /// Reads this value as a list.
    pub fn as_array(&self) -> (res: Option<&Vec<JsonValue>>)
        ensures
            res is Some <==> self.items() is Some,
            res matches Some(list) ==> self.items() == Some(list@),
    {
        match self {
            JsonValue::Array(list) => Some(list),
            _ => None,
        }
    }

    /// Reads this value as a truth value.
    pub fn as_bool(&self) -> (res: Option<bool>)
        ensures
            res == self.truth(),
    {
        match self {
            JsonValue::Bool(b) => Some(*b),
            _ => None,
        }
    }
}

/// A member is looked up by its name: the first with that name counts, and
/// where there is none, or the value is no object, nothing is found.
pub proof fn first_members_count(members: Seq<Member>, name: Seq<char>, k: int)
    ensures
        0 <= k < members.len() && members[k].name@ == name && (forall|j: int|
            0 <= j < k ==> (#[trigger] members[j]).name@ != name) ==> lookup(members, name) == Some(
            members[k].value,
        ),
        (forall|j: int| 0 <= j < members.len() ==> (#[trigger] members[j]).name@ != name)
            ==> lookup(members, name) is None,
    decreases members.len(),
{
    if members.len() > 0 {
        let rest = members.drop_first();
        first_members_count(rest, name, k - 1);
        assert forall|j: int| 0 <= j < rest.len() implies #[trigger] rest[j] == members[j + 1] by {}
        if 0 < k < members.len() {
            assert(rest[k - 1] == members[k]);
        }
    }
}

/// Each kind of value is read as what it holds, and as nothing else. A number
/// is read whatever it is, unless it is below zero or no integer.
pub proof fn values_are_what_they_hold(
    n: u64,
    signed: i64,
    text: String,
    list: Vec<JsonValue>,
    members: Vec<Member>,
    b: bool,
    name: Seq<char>,
)
    ensures
        JsonValue::Unsigned(n).number() == Some(n),
        signed >= 0 ==> JsonValue::Signed(signed).number() is Some && JsonValue::Signed(
            signed,
        ).number()->0 == signed,
        signed < 0 ==> JsonValue::Signed(signed).number() is None,
        JsonValue::OtherNumber.number() is None,
        JsonValue::Text(text).text() == Some(text@),
        JsonValue::Array(list).items() == Some(list@),
        JsonValue::Bool(b).truth() == Some(b),
        JsonValue::Object(members).member(name) == lookup(members@, name),
{
}

/// Nothing is read from a value of another kind.
pub proof fn kinds_are_told_apart(value: JsonValue, name: Seq<char>)
    ensures
        value.number() is Some ==> value is Unsigned || value is Signed,
        value.text() is Some ==> value is Text,
        value.items() is Some ==> value is Array,
        value.truth() is Some ==> value is Bool,
        value.member(name) is Some ==> value is Object,
{
}

} // verus!
