//! Values as JSON text: what `serde_json` prints for them, and what it reads.

use crate::json::{Json, JsonValue};
use serde_json::Value;
use vstd::prelude::*;

verus! {

// ── Printing ────────────────────────────────────────────────────────────────

/// A value as `serde_json` holds it.
#[verifier::external_type_specification]
#[verifier::external_body]
pub struct ExSerdeValue(serde_json::Value);

/// The value that `serde_json` holds for a value of ours.
pub uninterp spec fn held_by_serde(v: Json) -> serde_json::Value;

/// The text that `serde_json::to_string` gives for a value.
pub uninterp spec fn printed(v: serde_json::Value) -> Seq<char>;

/// The text that `serde_json::to_string_pretty` gives for a value.
pub uninterp spec fn pretty_printed(v: serde_json::Value) -> Seq<char>;

/// A value in JSON on one line.
pub open spec fn json_text(v: Json) -> Seq<char> {
    printed(held_by_serde(v))
}

/// A value in indented JSON.
pub open spec fn pretty_text(v: Json) -> Seq<char> {
    pretty_printed(held_by_serde(v))
}

/// The constructors of `serde_json::Value`: builds the same value, one variant for one. What is
/// built depends on the value alone.
#[verifier::external_body]
pub(crate) fn serde_value(v: &JsonValue) -> (r: serde_json::Value)
    ensures
        r == held_by_serde(v@),
{
    match v {
        JsonValue::Null => Value::Null,
        JsonValue::Bool(b) => Value::Bool(*b),
        JsonValue::UInt(n) => Value::from(*n),
        JsonValue::NegInt(n) => Value::from(*n),
        JsonValue::Float(s) => s.parse().map_or(Value::Null, Value::Number),
        JsonValue::String(s) => Value::String(s.clone()),
        JsonValue::Array(a) => Value::Array(a.iter().map(serde_value).collect()),
        JsonValue::Object(o) => {
            Value::Object(o.iter().map(|e| (e.0.clone(), serde_value(&e.1))).collect())
        },
    }
}

/// `serde_json::to_string`: the text is a function of the value.
#[verifier::external_body]
fn print(v: &serde_json::Value) -> (r: String)
    ensures
        r@ == printed(*v),
{
    serde_json::to_string(v).unwrap_or_default()
}

/// `serde_json::to_string_pretty`: the text is a function of the value.
#[verifier::external_body]
fn print_pretty(v: &serde_json::Value) -> (r: String)
    ensures
        r@ == pretty_printed(*v),
{
    serde_json::to_string_pretty(v).unwrap_or_default()
}

/// A value in JSON on one line.
pub fn to_json_text(v: &JsonValue) -> (r: String)
    ensures
        r@ == json_text(v@),
{
    print(&serde_value(v))
}

/// A value in indented JSON.
pub fn to_pretty_text(v: &JsonValue) -> (r: String)
    ensures
        r@ == pretty_text(v@),
{
    print_pretty(&serde_value(v))
}

// ── Reading ─────────────────────────────────────────────────────────────────

/// What `serde_json::from_slice` reads from bytes, or what it says of bytes that are no JSON.
pub uninterp spec fn parsed(bytes: Seq<u8>) -> Result<serde_json::Value, Seq<char>>;

/// The value of ours for one that `serde_json` holds.
pub uninterp spec fn plain(v: serde_json::Value) -> Json;

/// `serde_json::from_slice`, for a `serde_json::Value`: what is read, or said of bytes that are no
/// JSON, depends on the bytes alone.
#[verifier::external_body]
fn parse(bytes: &[u8]) -> (r: Result<serde_json::Value, String>)
    ensures
        match parsed(bytes@) {
            Ok(v) => r matches Ok(got) && got == v,
            Err(m) => r matches Err(got) && got@ == m,
        },
{
    serde_json::from_slice(bytes).map_err(|e| e.to_string())
}

/// The variants of `serde_json::Value` and the kinds of its numbers: builds the same value of ours,
/// one variant for one. What is built depends on the value alone.
#[verifier::external_body]
fn plain_value(v: &serde_json::Value) -> (r: JsonValue)
    ensures
        r@ == plain(*v),
{
    match v {
        Value::Null => JsonValue::Null,
        Value::Bool(b) => JsonValue::Bool(*b),
        Value::Number(n) => match (n.as_u64(), n.as_i64()) {
            (Some(u), _) => JsonValue::UInt(u),
            (None, Some(i)) => JsonValue::NegInt(i),
            (None, None) => JsonValue::Float(n.to_string()),
        },
        Value::String(s) => JsonValue::String(s.clone()),
        Value::Array(a) => JsonValue::Array(a.iter().map(plain_value).collect()),
        Value::Object(o) => JsonValue::Object(o.iter().map(|e| (e.0.clone(), plain_value(e.1))).collect()),
    }
}

/// The value that bytes hold as JSON, or why they hold none.
pub open spec fn json_in(bytes: Seq<u8>) -> Result<Json, Seq<char>> {
    match parsed(bytes) {
        Ok(v) => Ok(plain(v)),
        Err(m) => Err(m),
    }
}

/// Reads the value that bytes hold as JSON.
pub fn from_json_bytes(bytes: &[u8]) -> (r: Result<JsonValue, String>)
    ensures
        match r {
            Ok(v) => json_in(bytes@) == Ok::<Json, Seq<char>>(v@),
            Err(m) => json_in(bytes@) == Err::<Json, Seq<char>>(m@),
        },
{
    match parse(bytes) {
        Ok(v) => Ok(plain_value(&v)),
        Err(m) => Err(m),
    }
}

} // verus!
