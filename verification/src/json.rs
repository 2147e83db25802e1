//! Request bodies: JSON objects of `serde_json`, described by the fields they hold.

use vstd::prelude::*;

verus! {

#[verifier::external_type_specification]
#[verifier::external_body]
#[verifier::reject_recursive_types(K)]
#[verifier::reject_recursive_types(V)]
pub struct ExJsonMap<K, V>(serde_json::Map<K, V>);

#[verifier::external_type_specification]
#[verifier::external_body]
pub struct ExJsonValue(serde_json::Value);

#[verifier::external_type_specification]
#[verifier::external_body]
pub struct ExJsonNumber(serde_json::Number);

/// A JSON object, as sent in a request body.
pub type JsonBody = serde_json::Map<String, serde_json::Value>;

/// A field value of a request body.
pub enum FieldValue {
    /// A JSON string.
    Text(String),
    /// A JSON boolean.
    Flag(bool),
    /// A JSON integer.
    Int(i64),
    /// A JSON number that is not an integer (such as `percent_done`).
    Fraction(Fraction),
    /// A JSON array of integers.
    Ids(Vec<i64>),
}

/// A JSON number that `serde_json` holds as a floating-point value, never as an integer.
///
/// Its one constructor, `Fraction::new`, keeps a number only when `Number::is_f64` says so, so
/// a fraction never stores the same JSON value as a `FieldValue::Int`.
pub struct Fraction {
    number: serde_json::Number,
}

/// `serde_json::Number::is_f64`: whether the number is held as a floating-point value rather
/// than as an integer. Nothing is stated of the result, which depends on how the number was made.
#[verifier::external_body]
fn number_is_f64(n: &serde_json::Number) -> (b: bool) {
    n.is_f64()
}

impl Fraction {
    /// The JSON number held.
    pub closed spec fn number_of(self) -> serde_json::Number {
        self.number
    }

    /// The number as a fraction, or `None` when `serde_json` holds it as an integer.
    pub fn new(number: serde_json::Number) -> (r: Option<Fraction>)
        ensures
            r matches Some(f) ==> f.number_of() == number,
    {
        if number_is_f64(&number) {
            Some(Fraction { number })
        } else {
            None
        }
    }
}

/// The fields of a JSON object: for each key, the value stored under it.
pub uninterp spec fn body_fields(body: JsonBody) -> Map<Seq<char>, FieldValue>;

/// `serde_json::Map::new`: a JSON object with no fields.
#[verifier::external_body]
pub(crate) fn new_body() -> (body: JsonBody)
    ensures
        body_fields(body).dom().is_empty(),
{
    serde_json::Map::new()
}

/// `serde_json::Map::insert`: stores the value under the key, replacing any value already there.
/// The value is converted variant by variant into the `serde_json::Value` of the same kind:
/// a string, a boolean, an integer number, a floating-point number, an array of integers.
/// Different field values give different JSON values (a `Fraction` is never an integer), so
/// the fields of the object are the field values last stored under each key.
#[verifier::external_body]
pub(crate) fn insert_field(body: &mut JsonBody, key: &str, value: FieldValue)
    ensures
        body_fields(*final(body)) == body_fields(*old(body)).insert(key@, value),
{
    let v = match value {
        FieldValue::Text(s) => serde_json::Value::String(s),
        FieldValue::Flag(b) => serde_json::Value::Bool(b),
        FieldValue::Int(n) => serde_json::Value::Number(n.into()),
        FieldValue::Fraction(f) => serde_json::Value::Number(f.number),
        FieldValue::Ids(ids) => serde_json::Value::Array(ids.into_iter().map(serde_json::Value::from).collect()),
    };
    body.insert(key.to_string(), v);
}

/// `serde_json::Map::is_empty`: whether the object has no fields.
#[verifier::external_body]
pub(crate) fn body_is_empty(body: &JsonBody) -> (b: bool)
    ensures
        b == body_fields(*body).dom().is_empty(),
{
    body.is_empty()
}

/// An object with no fields.
pub open spec fn no_fields() -> Map<Seq<char>, FieldValue> {
    Map::empty()
}

/// `fields` with `value` stored under `key` when a value is given.
pub open spec fn with_field(fields: Map<Seq<char>, FieldValue>, key: Seq<char>, value: Option<FieldValue>) -> Map<
    Seq<char>,
    FieldValue,
> {
    match value {
        Some(v) => fields.insert(key, v),
        None => fields,
    }
}

/// An optional text as a field value.
pub open spec fn text_field(v: Option<String>) -> Option<FieldValue> {
    match v {
        Some(s) => Some(FieldValue::Text(s)),
        None => None,
    }
}

/// An optional boolean as a field value.
pub open spec fn flag_field(v: Option<bool>) -> Option<FieldValue> {
    match v {
        Some(b) => Some(FieldValue::Flag(b)),
        None => None,
    }
}

/// An optional integer as a field value.
pub open spec fn int_field(v: Option<i64>) -> Option<FieldValue> {
    match v {
        Some(n) => Some(FieldValue::Int(n)),
        None => None,
    }
}

/// An optional fraction as a field value.
pub open spec fn fraction_field(v: Option<Fraction>) -> Option<FieldValue> {
    match v {
        Some(n) => Some(FieldValue::Fraction(n)),
        None => None,
    }
}

} // verus!
