//! JSON trees as the library reads and writes them. Text is turned into these
//! trees, and trees into text, outside the library; the library reads values
//! the way the usage records are laid out and builds the trees of its own
//! sample stores.

use vstd::prelude::*;

verus! {

/// A JSON number, held as what the two readings of it give.
#[derive(Clone, Copy, Debug, PartialEq, Eq, Structural)]
pub struct JsonNumber {
    /// The number as a 64-bit signed integer, where it is one.
    pub integer: Option<i64>,
    /// Bit pattern of the number as a double, where it was read as one.
    pub float_bits: Option<u64>,
}

/// A JSON value. An object lists its members in order, each key once.
#[derive(Debug)]
pub enum Json {
    Null,
    Bool(bool),
    Number(JsonNumber),
    String(String),
    Array(Vec<Json>),
    Object(Vec<(String, Json)>),
}

/// The value of the first member of `members` named `key`.
pub open spec fn member_value(members: Seq<(String, Json)>, key: Seq<char>) -> Option<Json>
    decreases members.len(),
{
    if members.len() == 0 {
        None
    } else if members[0].0@ == key {
        Some(members[0].1)
    } else {
        member_value(members.drop_first(), key)
    }
}

/// The member `key` of an object; nothing for other values.
pub open spec fn json_get(v: Json, key: Seq<char>) -> Option<Json> {
    match v {
        Json::Object(members) => member_value(members@, key),
        _ => None,
    }
}

/// The value as a 64-bit signed integer.
pub open spec fn json_i64(v: Json) -> Option<i64> {
    match v {
        Json::Number(n) => n.integer,
        _ => None,
    }
}

/// Bit pattern of the value as a double.
pub open spec fn json_f64(v: Json) -> Option<u64> {
    match v {
        Json::Number(n) => n.float_bits,
        _ => None,
    }
}

/// The value as a string.
pub open spec fn json_str(v: Json) -> Option<Seq<char>> {
    match v {
        Json::String(s) => Some(s@),
        _ => None,
    }
}

/// The elements of an array.
pub open spec fn json_array(v: Json) -> Option<Seq<Json>> {
    match v {
        Json::Array(a) => Some(a@),
        _ => None,
    }
}

/// The integer at member `key`.
pub open spec fn get_i64(v: Json, key: Seq<char>) -> Option<i64> {
    match json_get(v, key) {
        Some(x) => json_i64(x),
        None => None,
    }
}

/// The double at member `key`.
pub open spec fn get_f64(v: Json, key: Seq<char>) -> Option<u64> {
    match json_get(v, key) {
        Some(x) => json_f64(x),
        None => None,
    }
}

/// The array at member `key`.
pub open spec fn get_array(v: Json, key: Seq<char>) -> Option<Seq<Json>> {
    match json_get(v, key) {
        Some(x) => json_array(x),
        None => None,
    }
}

/// The value behind an optional reference.
pub open spec fn deref_json(r: Option<&Json>) -> Option<Json> {
    match r {
        Some(x) => Some(*x),
        None => None,
    }
}

/// An integer value.
pub open spec fn int_json(i: i64) -> Json {
    Json::Number(JsonNumber { integer: Some(i), float_bits: None })
}

/// A double value, given by its bit pattern.
pub open spec fn float_json(bits: u64) -> Json {
    Json::Number(JsonNumber { integer: None, float_bits: Some(bits) })
}

/// Skipping a member with another name does not change a lookup.
proof fn lemma_member_skip(members: Seq<(String, Json)>, key: Seq<char>, i: int)
    requires
        0 <= i < members.len(),
        members[i].0@ != key,
    ensures
        member_value(members.skip(i), key) == member_value(members.skip(i + 1), key),
{
    assert(members.skip(i).drop_first() =~= members.skip(i + 1));
}

impl Json {
    /// The member `key` of an object; nothing for other values.
    pub fn get(&self, key: &str) -> (res: Option<&Json>)
        ensures
            deref_json(res) == json_get(*self, key@),
    {
        match self {
            Json::Object(members) => {
                let wanted = key.to_owned();
                let mut i: usize = 0;
                assert(members@.skip(0) =~= members@);
                while i < members.len()
                    invariant
                        json_get(*self, key@) == member_value(members@, key@),
                        wanted@ == key@,
                        i <= members.len(),
                        member_value(members@, key@) == member_value(members@.skip(i as int), key@),
                    decreases members.len() - i,
                {
                    if members[i].0 == wanted {
                        assert(members@.skip(i as int)[0] == members@[i as int]);
                        assert(member_value(members@.skip(i as int), key@) == Some(members@[i as int].1));
                        return Some(&members[i].1);
                    }
                    proof {
                        lemma_member_skip(members@, key@, i as int);
                    }
                    i = i + 1;
                }
                None
            },
            _ => None,
        }
    }

    /// The value as a 64-bit signed integer.
    pub fn as_i64(&self) -> (res: Option<i64>)
        ensures
            res == json_i64(*self),
    {
        match self {
            Json::Number(n) => n.integer,
            _ => None,
        }
    }

    /// Bit pattern of the value as a double.
    pub fn as_f64_bits(&self) -> (res: Option<u64>)
        ensures
            res == json_f64(*self),
    {
        match self {
            Json::Number(n) => n.float_bits,
            _ => None,
        }
    }

    /// The value as a string.
    pub fn as_str(&self) -> (res: Option<&String>)
        ensures
            match res {
                Some(s) => json_str(*self) == Some(s@),
                None => json_str(*self) is None,
            },
    {
        match self {
            Json::String(s) => Some(s),
            _ => None,
        }
    }

    /// The elements of an array.
    pub fn as_array(&self) -> (res: Option<&Vec<Json>>)
        ensures
            match res {
                Some(a) => json_array(*self) == Some(a@),
                None => json_array(*self) is None,
            },
    {
        match self {
            Json::Array(a) => Some(a),
            _ => None,
        }
    }

    /// The integer at member `key`.
    pub fn get_i64(&self, key: &str) -> (res: Option<i64>)
        ensures
            res == get_i64(*self, key@),
    {
        match self.get(key) {
            Some(v) => v.as_i64(),
            None => None,
        }
    }

    /// The double at member `key`, as its bit pattern.
    pub fn get_f64_bits(&self, key: &str) -> (res: Option<u64>)
        ensures
            res == get_f64(*self, key@),
    {
        match self.get(key) {
            Some(v) => v.as_f64_bits(),
            None => None,
        }
    }

    /// The array at member `key`.
    pub fn get_array(&self, key: &str) -> (res: Option<&Vec<Json>>)
        ensures
            match res {
                Some(a) => get_array(*self, key@) == Some(a@),
                None => get_array(*self, key@) is None,
            },
    {
        match self.get(key) {
            Some(v) => v.as_array(),
            None => None,
        }
    }

    /// An integer value.
    pub fn integer(i: i64) -> (res: Json)
        ensures
            res == int_json(i),
    {
        Json::Number(JsonNumber { integer: Some(i), float_bits: None })
    }

    /// A double value, given by its bit pattern.
    pub fn float(bits: u64) -> (res: Json)
        ensures
            res == float_json(bits),
    {
        Json::Number(JsonNumber { integer: None, float_bits: Some(bits) })
    }
}

} // verus!
