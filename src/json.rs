//! The JSON values that events and state contents are made of.

use vstd::prelude::*;

verus! {

/// A JSON value. In the canonical form that events use there are no
/// fractional numbers and integers stay within the interoperable range.
pub enum JsonValue {
    Null,
    Bool(bool),
    Integer(i64),
    /// A number that is no 64-bit integer (a fraction, or too large); it
    /// never occurs in canonical JSON.
    OtherNumber,
    Str(String),
    Array(Vec<JsonValue>),
    Object(Vec<(String, JsonValue)>),
}

/// The value stored under `key` among `fields`: the first entry with that key.
pub open spec fn field_of(fields: Seq<(String, JsonValue)>, key: Seq<char>) -> Option<JsonValue>
    decreases fields.len(),
{
    if fields.len() == 0 {
        None
    } else if fields[0].0@ == key {
        Some(fields[0].1)
    } else {
        field_of(fields.drop_first(), key)
    }
}

/// The field `key` of `v`, where `v` is an object.
pub open spec fn member(v: JsonValue, key: Seq<char>) -> Option<JsonValue> {
    match v {
        JsonValue::Object(fields) => field_of(fields@, key),
        _ => None,
    }
}

/// Looks up `key` among the fields of an object.
pub fn get_field<'a>(fields: &'a Vec<(String, JsonValue)>, key: &str) -> (r: Option<&'a JsonValue>)
    ensures
        match r {
            Some(v) => field_of(fields@, key@) == Some(*v),
            None => field_of(fields@, key@).is_none(),
        },
{
    let mut i: usize = 0;
    assert(fields@.subrange(0, fields@.len() as int) =~= fields@);
    while i < fields.len()
        invariant
            i <= fields@.len(),
            field_of(fields@, key@) == field_of(fields@.subrange(i as int, fields@.len() as int), key@),
        decreases fields.len() - i,
    {
        let ghost rest = fields@.subrange(i as int, fields@.len() as int);
        assert(rest[0] == fields@[i as int]);
        assert(rest.drop_first() =~= fields@.subrange(i + 1, fields@.len() as int));
        if crate::text::text_eq(fields[i].0.as_str(), key) {
            return Some(&fields[i].1);
        }
        i = i + 1;
    }
    None
}

/// Looks up the field `key` of `v`; `None` where `v` is no object.
pub fn get_member<'a>(v: &'a JsonValue, key: &str) -> (r: Option<&'a JsonValue>)
    ensures
        match r {
            Some(x) => member(*v, key@) == Some(*x),
            None => member(*v, key@).is_none(),
        },
{
    match v {
        JsonValue::Object(fields) => get_field(fields, key),
        _ => None,
    }
}

/// What JSON text denotes as a canonical JSON value; `None` where the text is
/// no JSON or holds a value that canonical JSON cannot hold.
pub uninterp spec fn json_text_value(text: Seq<char>) -> Option<JsonValue>;

/// ruma's canonical JSON value, carried through opaquely.
#[verifier::external_type_specification]
#[verifier::external_body]
pub struct ExCanonicalJsonValue(ruma::CanonicalJsonValue);

/// Moves ruma's `CanonicalJsonValue` into the library's value, variant for
/// variant; used by `parse_json` alone.
#[verifier::external_body]
fn from_canonical(v: ruma::CanonicalJsonValue) -> JsonValue {
    match v {
        ruma::CanonicalJsonValue::Null => JsonValue::Null,
        ruma::CanonicalJsonValue::Bool(b) => JsonValue::Bool(b),
        ruma::CanonicalJsonValue::Integer(n) => JsonValue::Integer(n.into()),
        ruma::CanonicalJsonValue::String(s) => JsonValue::Str(s),
        ruma::CanonicalJsonValue::Array(a) => JsonValue::Array(a.into_iter().map(from_canonical).collect()),
        ruma::CanonicalJsonValue::Object(o) => {
            JsonValue::Object(o.into_iter().map(|(k, x)| (k, from_canonical(x))).collect())
        },
    }
}

/// Relies on serde_json::from_str into ruma's CanonicalJsonValue: the value
/// depends on the text alone.
#[verifier::external_body]
pub(crate) fn parse_json(text: &str) -> (r: Option<JsonValue>)
    ensures
        r == json_text_value(text@),
{
    serde_json::from_str::<ruma::CanonicalJsonValue>(text).ok().map(from_canonical)
}

} // verus!

verus! {

/// What JSON text denotes as a general JSON value (numbers that are no
/// 64-bit integer kept as `OtherNumber`); `None` where the text is no JSON.
pub uninterp spec fn json_content_value(text: Seq<char>) -> Option<JsonValue>;

/// serde_json's value, carried through opaquely.
#[verifier::external_type_specification]
#[verifier::external_body]
pub struct ExSerdeJsonValue(serde_json::Value);

/// Moves serde_json's `Value` into the library's value, variant for variant
/// (a number by whether it is an `i64`); used by `parse_content_json` alone.
#[verifier::external_body]
fn from_serde(v: serde_json::Value) -> JsonValue {
    match v {
        serde_json::Value::Null => JsonValue::Null,
        serde_json::Value::Bool(b) => JsonValue::Bool(b),
        serde_json::Value::Number(n) => n.as_i64().map_or(JsonValue::OtherNumber, JsonValue::Integer),
        serde_json::Value::String(s) => JsonValue::Str(s),
        serde_json::Value::Array(a) => JsonValue::Array(a.into_iter().map(from_serde).collect()),
        serde_json::Value::Object(o) => JsonValue::Object(o.into_iter().map(|(k, x)| (k, from_serde(x))).collect()),
    }
}

/// Relies on `serde_json::from_str` into `serde_json::Value`: the value
/// depends on the text alone.
#[verifier::external_body]
pub(crate) fn parse_content_json(text: &str) -> (r: Option<JsonValue>)
    ensures
        r == json_content_value(text@),
{
    serde_json::from_str::<serde_json::Value>(text).ok().map(from_serde)
}

} // verus!
