//! JSON values as serde_json reads them, and the lookups the library makes
//! in them.

use vstd::prelude::*;
use serde_json::Value;
use crate::text::text_err;

verus! {

/// A JSON value: numbers are kept as serde_json prints them, and an object
/// as its fields in order (serde_json gives each key once, sorted).
pub enum JsonValue {
    Null,
    Bool(bool),
    Number(String),
    Str(String),
    Array(Vec<JsonValue>),
    Object(Vec<(String, JsonValue)>),
}

#[verifier::external_type_specification]
#[verifier::external_body]
pub struct ExJsonValue(serde_json::Value);

/// What `serde_json::from_str::<serde_json::Value>` makes of a text: the
/// value, or the error's display text when the text is not one JSON value
/// (surrounded by white space at most). It depends on the text alone.
pub uninterp spec fn serde_json_value(text: Seq<char>) -> Result<JsonValue, Seq<char>>;

/// Copies a serde_json value into a `JsonValue`, variant by variant.
#[verifier::external_body]
fn json_from_serde(v: &serde_json::Value) -> (r: JsonValue) {
    match v {
        Value::Null => JsonValue::Null,
        Value::Bool(b) => JsonValue::Bool(*b),
        Value::Number(n) => JsonValue::Number(n.to_string()),
        Value::String(s) => JsonValue::Str(s.clone()),
        Value::Array(a) => JsonValue::Array(a.iter().map(json_from_serde).collect()),
        Value::Object(m) => JsonValue::Object(m.iter().map(|(k, x)| (k.clone(), json_from_serde(x))).collect()),
    }
}

/// Parses a text with `serde_json::from_str::<serde_json::Value>`: the
/// value, or the error's display text.
#[verifier::external_body]
pub(crate) fn parse_json(text: &str) -> (r: Result<JsonValue, String>)
    ensures
        text_err(r) == serde_json_value(text@),
{
    match serde_json::from_str::<serde_json::Value>(text) {
        Ok(v) => Ok(json_from_serde(&v)),
        Err(e) => Err(e.to_string()),
    }
}

/// The index of the first field named `key`, from index `i` on.
pub open spec fn field_index(fields: Seq<(String, JsonValue)>, key: Seq<char>, i: int) -> Option<int>
    decreases fields.len() - i,
{
    if i < 0 || i >= fields.len() {
        None
    } else if fields[i].0@ == key {
        Some(i)
    } else {
        field_index(fields, key, i + 1)
    }
}

/// `v[key]` where `v` is an object with a field `key`; `None` otherwise.
pub open spec fn json_get(v: JsonValue, key: Seq<char>) -> Option<JsonValue> {
    match v {
        JsonValue::Object(fields) => match field_index(fields@, key, 0) {
            Some(i) => Some(fields@[i].1),
            None => None,
        },
        _ => None,
    }
}

/// The text of a JSON string; `None` for anything else or nothing.
pub open spec fn json_text(v: Option<JsonValue>) -> Option<Seq<char>> {
    match v {
        Some(JsonValue::Str(s)) => Some(s@),
        _ => None,
    }
}

proof fn lemma_field_index_bounds(fields: Seq<(String, JsonValue)>, key: Seq<char>, i: int)
    ensures
        field_index(fields, key, i) matches Some(j) ==> i <= j < fields.len() && fields[j].0@ == key,
    decreases fields.len() - i,
{
    if 0 <= i < fields.len() {
        lemma_field_index_bounds(fields, key, i + 1);
    }
}

/// Where the field `key` stands among an object's fields.
pub fn find_field(fields: &Vec<(String, JsonValue)>, key: &str) -> (r: Option<usize>)
    ensures
        match r {
            Some(j) => field_index(fields@, key@, 0) == Some(j as int) && j < fields@.len(),
            None => field_index(fields@, key@, 0) is None,
        },
{
    let mut i: usize = 0;
    while i < fields.len()
        invariant
            i <= fields@.len(),
            field_index(fields@, key@, 0) == field_index(fields@, key@, i as int),
        decreases fields@.len() - i,
    {
        if crate::text::text_eq(fields[i].0.as_str(), key) {
            proof {
                lemma_field_index_bounds(fields@, key@, 0);
            }
            return Some(i);
        }
        i = i + 1;
    }
    None
}

/// The field `key` of an object, when it has one.
pub fn get_field<'a>(v: &'a JsonValue, key: &str) -> (r: Option<&'a JsonValue>)
    ensures
        match json_get(*v, key@) {
            Some(x) => r is Some && *r->0 == x,
            None => r is None,
        },
{
    match v {
        JsonValue::Object(fields) => match find_field(fields, key) {
            Some(j) => Some(&fields[j].1),
            None => None,
        },
        _ => None,
    }
}

/// The text of a JSON string.
pub fn as_text(v: Option<&JsonValue>) -> (r: Option<String>)
    ensures
        crate::text::opt_text(r) == json_text(match v {
            Some(x) => Some(*x),
            None => None,
        }),
{
    match v {
        Some(JsonValue::Str(s)) => Some(s.clone()),
        _ => None,
    }
}

/// The text of the string field `key` of an object.
pub fn text_field(v: &JsonValue, key: &str) -> (r: Option<String>)
    ensures
        crate::text::opt_text(r) == json_text(json_get(*v, key@)),
{
    as_text(get_field(v, key))
}

} // verus!
