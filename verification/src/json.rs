//! JSON values as plain data, and the reading of JSON text with `serde_json`.
use vstd::prelude::*;
use crate::ordmap::str_eq;

verus! {

/// A JSON value. Numbers keep their text; an object keeps its members in
/// the order `serde_json` hands them out (by key, each key once).
#[derive(Debug)]
pub enum JsonValue {
    Null,
    Bool(bool),
    Number(String),
    Str(String),
    Array(Vec<JsonValue>),
    Object(Vec<(String, JsonValue)>),
}

#[verifier::external_type_specification]
#[verifier::external_body]
pub struct ExSerdeValue(serde_json::Value);

/// What `serde_json::from_str::<serde_json::Value>` makes of a text, as a
/// library value, or the text of its error. A function of the text alone.
pub uninterp spec fn json_result(text: Seq<char>) -> Result<JsonValue, Seq<char>>;

/// The value of a JSON text, where it is one.
pub open spec fn json_of(text: Seq<char>) -> Option<JsonValue> {
    match json_result(text) {
        Ok(v) => Some(v),
        Err(_) => None,
    }
}

/// Moves a `serde_json::Value` into the library's type, variant by variant.
#[verifier::external_body]
fn from_serde(v: serde_json::Value) -> JsonValue {
    match v {
        serde_json::Value::Null => JsonValue::Null,
        serde_json::Value::Bool(b) => JsonValue::Bool(b),
        serde_json::Value::Number(n) => JsonValue::Number(n.to_string()),
        serde_json::Value::String(s) => JsonValue::Str(s),
        serde_json::Value::Array(a) => JsonValue::Array(a.into_iter().map(from_serde).collect()),
        serde_json::Value::Object(m) => JsonValue::Object(m.into_iter().map(|(k, x)| (k, from_serde(x))).collect()),
    }
}

/// Reads a text with `serde_json::from_str` into a `serde_json::Value`; the
/// value, or the text of the error, is named `json_result` of the text.
#[verifier::external_body]
pub(crate) fn parse_json_checked(text: &str) -> (r: Result<JsonValue, String>)
    ensures
        match r {
            Ok(v) => json_result(text@) == Ok::<JsonValue, Seq<char>>(v),
            Err(e) => json_result(text@) == Err::<JsonValue, Seq<char>>(e@),
        },
{
    match serde_json::from_str::<serde_json::Value>(text) {
        Ok(v) => Ok(from_serde(v)),
        Err(e) => Err(e.to_string()),
    }
}

/// The value of a JSON text, where it is one.
pub fn parse_json(text: &str) -> (r: Option<JsonValue>)
    ensures
        r == json_of(text@),
{
    match parse_json_checked(text) {
        Ok(v) => Some(v),
        Err(_) => None,
    }
}

/// The first member of an object named `key` (`Value::get` with a string key).
pub open spec fn member(v: JsonValue, key: Seq<char>) -> Option<JsonValue> {
    match v {
        JsonValue::Object(ms) => first_member(ms@, key),
        _ => None,
    }
}

pub open spec fn first_member(ms: Seq<(String, JsonValue)>, key: Seq<char>) -> Option<JsonValue>
    decreases ms.len(),
{
    if ms.len() == 0 {
        None
    } else if ms[0].0@ == key {
        Some(ms[0].1)
    } else {
        first_member(ms.drop_first(), key)
    }
}

/// The text of a string value (`Value::as_str`).
pub open spec fn str_of(v: Option<JsonValue>) -> Option<Seq<char>> {
    match v {
        Some(JsonValue::Str(s)) => Some(s@),
        _ => None,
    }
}

/// The string member `key` of `v`, if it has one.
pub open spec fn str_member(v: JsonValue, key: Seq<char>) -> Option<Seq<char>> {
    str_of(member(v, key))
}

impl JsonValue {
    /// The member `key` of an object (`Value::get`).
    pub fn get(&self, key: &str) -> (r: Option<&JsonValue>)
        ensures
            r matches Some(x) ==> member(*self, key@) == Some(*x),
            r is None ==> member(*self, key@) is None,
    {
        match self {
            JsonValue::Object(ms) => {
                let mut i: usize = 0;
                assert(ms@.skip(0) =~= ms@);
                assert(member(*self, key@) == first_member(ms@, key@));
                while i < ms.len()
                    invariant
                        member(*self, key@) == first_member(ms@, key@),
                        i <= ms@.len(),
                        first_member(ms@, key@) == first_member(ms@.skip(i as int), key@),
                    decreases ms.len() - i,
                {
                    assert(ms@.skip(i + 1) =~= ms@.skip(i as int).drop_first());
                    if str_eq(ms[i].0.as_str(), key) {
                        assert(ms@.skip(i as int)[0] == ms@[i as int]);
                        return Some(&ms[i].1);
                    }
                    assert(ms@.skip(i as int)[0] == ms@[i as int]);
                    i += 1;
                }
                None
            },
            _ => None,
        }
    }

    /// The text of a string value (`Value::as_str`).
    pub fn as_str(&self) -> (r: Option<&str>)
        ensures
            r matches Some(s) ==> str_of(Some(*self)) == Some(s@),
            r is None ==> str_of(Some(*self)) is None,
    {
        match self {
            JsonValue::Str(s) => Some(s.as_str()),
            _ => None,
        }
    }

    /// The text of the string member `key`, if any (`v.get(key).and_then(as_str)`).
    pub fn get_str(&self, key: &str) -> (r: Option<String>)
        ensures
            match r {
                Some(s) => str_member(*self, key@) == Some(s@),
                None => str_member(*self, key@) is None,
            },
    {
        match self.get(key) {
            Some(x) => match x.as_str() {
                Some(s) => Some(crate::text::owned(s)),
                None => None,
            },
            None => None,
        }
    }
}

} // verus!
