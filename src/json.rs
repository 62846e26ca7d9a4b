//! A parsed JSON document as the decoders read it.

use vstd::prelude::*;
use crate::number::{micros_of_number, number_micros};
use jzon::JsonValue;

verus! {

/// A JSON number as sign, mantissa and decimal exponent: its value is
/// `mantissa * 10^exponent`, negated when `positive` is false.
#[derive(Debug, Clone, Copy, PartialEq, Eq, Structural)]
pub struct JsonNumber {
    pub positive: bool,
    pub mantissa: u64,
    pub exponent: i16,
}

/// A JSON value. Objects keep their members in document order, with
/// distinct keys.
#[derive(Debug)]
pub enum Json {
    Null,
    Bool(bool),
    Number(JsonNumber),
    Text(String),
    Array(Vec<Json>),
    Object(Vec<(String, Json)>),
}

/// Position of the first member named `key`, or the member count.
pub open spec fn key_index(members: Seq<(String, Json)>, key: Seq<char>) -> int
    decreases members.len(),
{
    if members.len() == 0 {
        0
    } else if members[0].0@ == key {
        0
    } else {
        1 + key_index(members.drop_first(), key)
    }
}

proof fn lemma_key_index(members: Seq<(String, Json)>, key: Seq<char>)
    ensures
        0 <= key_index(members, key) <= members.len(),
        key_index(members, key) < members.len() ==> members[key_index(members, key)].0@ == key,
        forall|j: int| 0 <= j < key_index(members, key) ==> members[j].0@ != key,
    decreases members.len(),
{
    if members.len() > 0 && members[0].0@ != key {
        lemma_key_index(members.drop_first(), key);
        assert forall|j: int| 0 <= j < key_index(members, key) implies members[j].0@ != key by {
            if j > 0 {
                assert(members[j] == members.drop_first()[j - 1]);
            }
        }
    }
}

/// The member `key` of an object; none for a missing key or a value that
/// is no object.
pub open spec fn member(v: Json, key: Seq<char>) -> Option<Json> {
    match v {
        Json::Object(members) => {
            let i = key_index(members@, key);
            if i < members@.len() {
                Some(members@[i].1)
            } else {
                None
            }
        },
        _ => None,
    }
}

/// The member at `k1`, then `k2`.
pub open spec fn member2(v: Json, k1: Seq<char>, k2: Seq<char>) -> Option<Json> {
    match member(v, k1) {
        Some(inner) => member(inner, k2),
        None => None,
    }
}

/// The text of a string value.
pub open spec fn as_text(v: Option<Json>) -> Option<Seq<char>> {
    match v {
        Some(Json::Text(s)) => Some(s@),
        _ => None,
    }
}

/// A number value as a reading in millionths.
pub open spec fn as_reading(v: Option<Json>) -> Option<int> {
    match v {
        Some(Json::Number(n)) => number_micros(n.positive, n.mantissa as int, n.exponent as int),
        _ => None,
    }
}

/// A number value that is a whole number in `0..=max`, written without
/// exponent.
pub open spec fn as_unsigned(v: Option<Json>, max: int) -> Option<int> {
    match v {
        Some(Json::Number(n)) => if n.positive && n.exponent == 0 && n.mantissa <= max {
            Some(n.mantissa as int)
        } else {
            None
        },
        _ => None,
    }
}

pub open spec fn is_object(v: Option<Json>) -> bool {
    v matches Some(Json::Object(_))
}

impl Json {
    /// The member `key` of an object.
    pub fn get(&self, key: &str) -> (r: Option<&Json>)
        ensures
            r is Some <==> member(*self, key@) is Some,
            r is Some ==> *r->0 == member(*self, key@)->0,
    {
        match self {
            Json::Object(members) => {
                let k = String::from_str(key);
                let mut i: usize = 0;
                proof {
                    lemma_key_index(members@, key@);
                }
                while i < members.len()
                    invariant
                        i <= members.len(),
                        *self == Json::Object(*members),
                        k@ == key@,
                        forall|j: int| 0 <= j < i ==> members@[j].0@ != key@,
                    decreases members.len() - i,
                {
                    if members[i].0 == k {
                        proof {
                            lemma_key_index(members@, key@);
                            if key_index(members@, key@) < i {
                                assert(members@[key_index(members@, key@)].0@ == key@);
                            }
                            assert(members@[i as int].0@ == key@);
                            assert(key_index(members@, key@) == i);
                        }
                        return Some(&members[i].1);
                    }
                    i = i + 1;
                }
                proof {
                    if key_index(members@, key@) < members@.len() {
                        assert(members@[key_index(members@, key@)].0@ == key@);
                    }
                }
                None
            },
            _ => None,
        }
    }

    /// The member at `k1`, then `k2`.
    pub fn get2(&self, k1: &str, k2: &str) -> (r: Option<&Json>)
        ensures
            r is Some <==> member2(*self, k1@, k2@) is Some,
            r is Some ==> *r->0 == member2(*self, k1@, k2@)->0,
    {
        match self.get(k1) {
            Some(inner) => inner.get(k2),
            None => None,
        }
    }
}

/// The text of a string value.
pub fn text_of(v: Option<&Json>) -> (r: Option<&String>)
    ensures
        r is Some <==> as_text(match v {
            Some(j) => Some(*j),
            None => None,
        }) is Some,
        r is Some ==> r->0@ == as_text(match v {
            Some(j) => Some(*j),
            None => None,
        })->0,
{
    match v {
        Some(Json::Text(s)) => Some(s),
        _ => None,
    }
}

/// A number value as a reading in millionths.
pub fn reading_of(v: Option<&Json>) -> (r: Option<i64>)
    ensures
        r is Some <==> as_reading(match v {
            Some(j) => Some(*j),
            None => None,
        }) is Some,
        r is Some ==> r->0 as int == as_reading(match v {
            Some(j) => Some(*j),
            None => None,
        })->0,
{
    match v {
        Some(Json::Number(n)) => micros_of_number(n.positive, n.mantissa, n.exponent),
        _ => None,
    }
}

/// A number value that is a whole number in `0..=max`.
pub fn unsigned_of(v: Option<&Json>, max: u64) -> (r: Option<u64>)
    ensures
        r is Some <==> as_unsigned(match v {
            Some(j) => Some(*j),
            None => None,
        }, max as int) is Some,
        r is Some ==> r->0 as int == as_unsigned(match v {
            Some(j) => Some(*j),
            None => None,
        }, max as int)->0,
{
    match v {
        Some(Json::Number(n)) => if n.positive && n.exponent == 0 && n.mantissa <= max {
            Some(n.mantissa)
        } else {
            None
        },
        _ => None,
    }
}


#[verifier::external_type_specification]
#[verifier::external_body]
pub struct ExJsonValue(jzon::JsonValue);

/// The document that `jzon::parse` reads from `text`, as the library's
/// JSON values; none when `text` is no JSON document.
pub uninterp spec fn parsed_json(text: Seq<char>) -> Option<Json>;

/// Relies on `jzon::parse`: the document held by `text`, converted value
/// for value; the result depends on the text alone.
#[verifier::external_body]
fn parse_json(text: &str) -> (r: Option<Json>)
    ensures
        r == parsed_json(text@),
{
    jzon::parse(text).ok().map(|v| json_of_value(&v))
}

/// Converts a jzon value into the library's JSON value, variant for
/// variant; used by `parse_json`.
#[verifier::external_body]
fn json_of_value(v: &JsonValue) -> Json {
    match v {
        JsonValue::Null => Json::Null,
        JsonValue::Short(t) => Json::Text(t.as_str().to_string()),
        JsonValue::String(t) => Json::Text(t.clone()),
        JsonValue::Number(n) => {
            let (positive, mantissa, exponent) = n.as_parts();
            Json::Number(JsonNumber { positive, mantissa, exponent })
        },
        JsonValue::Boolean(b) => Json::Bool(*b),
        JsonValue::Object(o) => Json::Object(o.iter().map(|(k, c)| (k.to_string(), json_of_value(c))).collect()),
        JsonValue::Array(a) => Json::Array(a.iter().map(json_of_value).collect()),
    }
}

/// Parses a payload as JSON; none when it is no JSON document.
pub fn parse_payload(text: &str) -> (r: Option<Json>)
    ensures
        r == parsed_json(text@),
{
    parse_json(text)
}

} // verus!
