use vstd::prelude::*;

use crate::text::str_eq;

verus! {

/// A JSON document as the proxy reads it. A number keeps its text, and its
/// value where that is an integer that fits in `i64`.
pub enum Json {
    Null,
    Bool(bool),
    Number(Option<i64>, String),
    Str(String),
    Array(Vec<Json>),
    Object(Vec<JsonEntry>),
}

/// A member of a JSON object.
pub struct JsonEntry {
    pub key: String,
    pub value: Json,
}

/// What `serde_json` reads from the bytes `b`: `None` where they are no JSON document.
pub uninterp spec fn json_parse(b: Seq<u8>) -> Option<Json>;

/// The text that `serde_json` writes for a document.
pub uninterp spec fn json_text(v: Json) -> Seq<u8>;

/// Relies on `serde_json::from_slice`: reads one JSON document from bytes.
#[verifier::external_body]
pub(crate) fn parse_json(b: &[u8]) -> (r: Option<Json>)
    ensures
        r == json_parse(b@),
{
    serde_json::from_slice::<serde_json::Value>(b).ok().map(from_value)
}

/// Relies on `serde_json::to_vec`: writes a document as JSON text.
#[verifier::external_body]
pub(crate) fn write_json(v: &Json) -> (r: Vec<u8>)
    ensures
        r@ == json_text(*v),
{
    serde_json::to_vec(&to_value(v)).unwrap_or_default()
}

/// Read a JSON document; `None` where the bytes hold none.
pub fn decode_json(b: &[u8]) -> (r: Option<Json>)
    ensures
        r == json_parse(b@),
{
    parse_json(b)
}

/// Write a document as JSON text.
pub fn encode_json(v: &Json) -> (r: Vec<u8>)
    ensures
        r@ == json_text(*v),
{
    write_json(v)
}

/// `serde_json`'s document type, carried opaquely through the conversions below.
#[verifier::external_type_specification]
#[verifier::external_body]
pub struct ExValue(serde_json::Value);

/// Converts a `serde_json` value into the library's document type.
#[verifier::external_body]
fn from_value(v: serde_json::Value) -> Json {
    match v {
        serde_json::Value::Null => Json::Null,
        serde_json::Value::Bool(b) => Json::Bool(b),
        serde_json::Value::Number(n) => Json::Number(n.as_i64(), n.to_string()),
        serde_json::Value::String(s) => Json::Str(s),
        serde_json::Value::Array(a) => Json::Array(a.into_iter().map(from_value).collect()),
        serde_json::Value::Object(m) => Json::Object(
            m.into_iter().map(|(key, x)| JsonEntry { key, value: from_value(x) }).collect(),
        ),
    }
}

/// Converts the library's document type into a `serde_json` value.
#[verifier::external_body]
pub(crate) fn to_value(v: &Json) -> serde_json::Value {
    match v {
        Json::Null => serde_json::Value::Null,
        Json::Bool(b) => serde_json::Value::Bool(*b),
        Json::Number(_, t) => t.parse::<serde_json::Number>().map(serde_json::Value::Number).unwrap_or(
            serde_json::Value::Null,
        ),
        Json::Str(s) => serde_json::Value::String(s.clone()),
        Json::Array(a) => serde_json::Value::Array(a.iter().map(to_value).collect()),
        Json::Object(m) => serde_json::Value::Object(
            m.iter().map(|e| (e.key.clone(), to_value(&e.value))).collect(),
        ),
    }
}

/// The value under the first key `key` of an object's entries.
pub open spec fn entry_value(entries: Seq<JsonEntry>, key: Seq<char>) -> Option<Json>
    decreases entries.len(),
{
    if entries.len() == 0 {
        None
    } else if entries[0].key@ == key {
        Some(entries[0].value)
    } else {
        entry_value(entries.drop_first(), key)
    }
}

impl Json {
    /// The member `key` of an object; `None` for other values.
    pub open spec fn spec_get(self, key: Seq<char>) -> Option<Json> {
        match self {
            Json::Object(entries) => entry_value(entries@, key),
            _ => None,
        }
    }

    /// The text of a string value.
    pub open spec fn spec_str(self) -> Option<Seq<char>> {
        match self {
            Json::Str(s) => Some(s@),
            _ => None,
        }
    }

    /// The member `key` of an object.
    pub fn get(&self, key: &str) -> (r: Option<&Json>)
        ensures
            match self.spec_get(key@) {
                Some(v) => r is Some && *r->0 == v,
                None => r is None,
            },
    {
        match self {
            Json::Object(entries) => {
                let mut i: usize = 0;
                assert(entries@.skip(0) =~= entries@);
                while i < entries.len()
                    invariant
                        i <= entries@.len(),
                        self.spec_get(key@) == entry_value(entries@, key@),
                        entry_value(entries@, key@) == entry_value(entries@.skip(i as int), key@),
                    decreases entries.len() - i,
                {
                    let ghost rest = entries@.skip(i as int);
                    assert(rest[0] == entries@[i as int]);
                    if str_eq(entries[i].key.as_str(), key) {
                        assert(rest.len() > 0);
                        assert(entry_value(rest, key@) == Some(entries@[i as int].value));
                        return Some(&entries[i].value);
                    }
                    assert(rest.drop_first() =~= entries@.skip(i + 1));
                    i = i + 1;
                }
                None
            },
            _ => None,
        }
    }

    /// The text of a string value.
    pub fn as_str(&self) -> (r: Option<&String>)
        ensures
            match self.spec_str() {
                Some(s) => r is Some && r->0@ == s,
                None => r is None,
            },
    {
        match self {
            Json::Str(s) => Some(s),
            _ => None,
        }
    }

    /// The items of an array value.
    pub fn as_array(&self) -> (r: Option<&Vec<Json>>)
        ensures
            match self {
                Json::Array(a) => r == Some(a),
                _ => r is None,
            },
    {
        match self {
            Json::Array(a) => Some(a),
            _ => None,
        }
    }

    /// The value of an integer number.
    pub fn as_i64(&self) -> (r: Option<i64>)
        ensures
            match self {
                Json::Number(n, _) => r == *n,
                _ => r is None,
            },
    {
        match self {
            Json::Number(n, _) => *n,
            _ => None,
        }
    }
}

/// The string member `key` of `v`, when `v` is an object that has one.
pub open spec fn str_member(v: Json, key: Seq<char>) -> Option<Seq<char>> {
    match v.spec_get(key) {
        Some(m) => m.spec_str(),
        None => None,
    }
}

/// The string member `key` of `v`.
pub fn get_str<'a>(v: &'a Json, key: &str) -> (r: Option<&'a String>)
    ensures
        match str_member(*v, key@) {
            Some(s) => r is Some && r->0@ == s,
            None => r is None,
        },
{
    match v.get(key) {
        Some(m) => m.as_str(),
        None => None,
    }
}

/// Whether the string member `key` of `v` equals `expected`.
pub fn member_is(v: &Json, key: &str, expected: &str) -> (r: bool)
    ensures
        r == (str_member(*v, key@) == Some(expected@)),
{
    match get_str(v, key) {
        Some(s) => str_eq(s.as_str(), expected),
        None => false,
    }
}

} // verus!
