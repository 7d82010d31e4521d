//! A plain model of JSON values, as the metadata and scraper code reads them,
//! and the two serde_json parses whose results are only named here.
use vstd::prelude::*;
use crate::text::str_eq;

verus! {

/// A JSON number, kept as the two readings the library makes of it:
/// `as_u64` is `Some` exactly for non-negative integers that fit in a `u64`,
/// and `as_f64_bits` holds the bit pattern of the number as an `f64`.
#[derive(Debug)]
pub struct JsonNumber {
    pub as_u64: Option<u64>,
    pub as_f64_bits: Option<u64>,
}

/// A JSON value. Object members keep the order in which the parser handed
/// them out; their keys are distinct.
#[derive(Debug)]
pub enum Json {
    Null,
    Bool(bool),
    Number(JsonNumber),
    Str(String),
    Array(Vec<Json>),
    Object(Vec<(String, Json)>),
}

/// The value stored under `key` among `entries` (the first one, should a
/// key occur twice).
pub open spec fn entry_lookup(entries: Seq<(String, Json)>, key: Seq<char>) -> Option<Json>
    decreases entries.len(),
{
    if entries.len() == 0 {
        None
    } else if entries[0].0@ == key {
        Some(entries[0].1)
    } else {
        entry_lookup(entries.drop_first(), key)
    }
}

/// `v[key]` when `v` is an object holding `key`; `None` otherwise.
pub open spec fn json_get(v: Json, key: Seq<char>) -> Option<Json> {
    match v {
        Json::Object(entries) => entry_lookup(entries@, key),
        _ => None,
    }
}

/// The characters of a JSON string; `None` for anything else or nothing.
pub open spec fn json_str(v: Option<Json>) -> Option<Seq<char>> {
    match v {
        Some(Json::Str(s)) => Some(s@),
        _ => None,
    }
}

/// A JSON number read as a `u64`.
pub open spec fn json_u64(v: Option<Json>) -> Option<u64> {
    match v {
        Some(Json::Number(n)) => n.as_u64,
        _ => None,
    }
}

/// A JSON number read as an `f64`, by its bit pattern.
pub open spec fn json_f64_bits(v: Option<Json>) -> Option<u64> {
    match v {
        Some(Json::Number(n)) => n.as_f64_bits,
        _ => None,
    }
}

/// The elements of a JSON array.
pub open spec fn json_array(v: Option<Json>) -> Option<Seq<Json>> {
    match v {
        Some(Json::Array(items)) => Some(items@),
        _ => None,
    }
}

/// The value `serde_json::from_slice::<serde_json::Value>` gives for these
/// bytes, as a `Json`; `None` where it fails.
pub uninterp spec fn json_of_bytes(bytes: Seq<u8>) -> Option<Json>;

/// The elements `serde_json::from_str::<Vec<serde_json::Value>>` gives for
/// this text, as `Json`s; `None` where it fails.
pub uninterp spec fn json_array_of_text(text: Seq<char>) -> Option<Seq<Json>>;

#[verifier::external_type_specification]
#[verifier::external_body]
pub struct ExJsonValue(serde_json::Value);

/// Moves a parsed `serde_json::Value` into the library's `Json`, one variant
/// for one, keeping the order of object members. Used only inside the two
/// parse wrappers below.
#[verifier::external_body]
fn json_of_value(v: serde_json::Value) -> Json {
    match v {
        serde_json::Value::Null => Json::Null,
        serde_json::Value::Bool(b) => Json::Bool(b),
        serde_json::Value::Number(n) => Json::Number(
            JsonNumber { as_u64: n.as_u64(), as_f64_bits: n.as_f64().map(|x| x.to_bits()) },
        ),
        serde_json::Value::String(s) => Json::Str(s),
        serde_json::Value::Array(a) => Json::Array(a.into_iter().map(json_of_value).collect()),
        serde_json::Value::Object(m) => Json::Object(
            m.into_iter().map(|(k, x)| (k, json_of_value(x))).collect(),
        ),
    }
}

/// Calls `serde_json::from_slice::<serde_json::Value>`. The parse is a
/// function of the bytes alone; its result is named `json_of_bytes`.
#[verifier::external_body]
pub(crate) fn parse_json_bytes(bytes: &[u8]) -> (r: Option<Json>)
    ensures
        r == json_of_bytes(bytes@),
{
    serde_json::from_slice::<serde_json::Value>(bytes).ok().map(json_of_value)
}

/// Calls `serde_json::from_str::<Vec<serde_json::Value>>`, which succeeds
/// only on a JSON array. Its result is named `json_array_of_text`.
#[verifier::external_body]
pub(crate) fn parse_json_array(text: &str) -> (r: Option<Vec<Json>>)
    ensures
        r is Some <==> json_array_of_text(text@) is Some,
        r matches Some(items) ==> items@ == json_array_of_text(text@).unwrap(),
{
    serde_json::from_str::<Vec<serde_json::Value>>(text).ok().map(
        |items| items.into_iter().map(json_of_value).collect(),
    )
}

impl Json {
    /// `self[key]`: the member `key` of an object, `None` for anything else.
    pub fn get(&self, key: &str) -> (r: Option<&Json>)
        ensures
            r is Some <==> json_get(*self, key@) is Some,
            r matches Some(x) ==> json_get(*self, key@) == Some(*x),
    {
        match self {
            Json::Object(entries) => {
                let n = entries.len();
                let mut i: usize = 0;
                assert(entries@.skip(0) =~= entries@);
                while i < n
                    invariant
                        n == entries@.len(),
                        i <= n,
                        json_get(*self, key@) == entry_lookup(entries@, key@),
                        entry_lookup(entries@, key@) == entry_lookup(entries@.skip(i as int), key@),
                    decreases n - i,
                {
                    let ghost rest = entries@.skip(i as int);
                    assert(rest.drop_first() =~= entries@.skip(i + 1));
                    assert(rest[0] == entries@[i as int]);
                    if str_eq(entries[i].0.as_str(), key) {
                        return Some(&entries[i].1);
                    }
                    i += 1;
                }
                assert(entries@.skip(n as int).len() == 0);
                None
            },
            _ => None,
        }
    }
}

/// The string at `v`, copied.
pub fn as_string(v: Option<&Json>) -> (r: Option<String>)
    ensures
        r is Some <==> json_str(opt_json(v)) is Some,
        r matches Some(s) ==> s@ == json_str(opt_json(v)).unwrap(),
{
    match v {
        Some(Json::Str(s)) => Some(s.clone()),
        _ => None,
    }
}

/// The number at `v` read as a `u64`.
pub fn as_u64(v: Option<&Json>) -> (r: Option<u64>)
    ensures
        r == json_u64(opt_json(v)),
{
    match v {
        Some(Json::Number(n)) => n.as_u64,
        _ => None,
    }
}

/// The number at `v` read as an `f64`, by its bit pattern.
pub fn as_f64_bits(v: Option<&Json>) -> (r: Option<u64>)
    ensures
        r == json_f64_bits(opt_json(v)),
{
    match v {
        Some(Json::Number(n)) => n.as_f64_bits,
        _ => None,
    }
}

/// Forgets the reference.
pub open spec fn opt_json(v: Option<&Json>) -> Option<Json> {
    match v {
        Some(x) => Some(*x),
        None => None,
    }
}

} // verus!
