//! Reading values from text: JSON with `serde_json`, JSON5 (the lenient
//! syntax of JavaScript object and array literals) with `json5`, and the
//! content of string literals.

use vstd::prelude::*;

use crate::devalue::option_model;
use crate::json::{Json, JsonNumber, JsonValue};
use serde_json::Value;

verus! {

/// `serde_json::Value`, opaque here: it only passes from a reader to the
/// conversion into [`JsonValue`].
#[verifier::external_type_specification]
#[verifier::external_body]
pub struct ExValue(serde_json::Value);

/// What `serde_json::from_str` reads from `text` when it reads a JSON string:
/// the string's content; `None` when `text` is no JSON string.
pub uninterp spec fn json_string_literal(text: Seq<char>) -> Option<Seq<char>>;

/// What `json5::from_str` reads from `text` when it reads a string: the
/// content of a single- or double-quoted JavaScript string literal, escapes
/// such as `\x22`, `\uNNNN` and `\'` decoded; `None` when `text` is no such
/// literal.
pub uninterp spec fn js_string_literal(text: Seq<char>) -> Option<Seq<char>>;

/// The value that `serde_json::from_str` reads from the JSON text `text`;
/// `None` when it reports an error.
pub uninterp spec fn json_text_value(text: Seq<char>) -> Option<Json>;

/// The value that `json5::from_str` reads from the JSON5 text `text`
/// (unquoted keys, single quotes, trailing commas, comments, hexadecimal
/// numbers and the like accepted); `None` when it reports an error.
pub uninterp spec fn json5_text_value(text: Seq<char>) -> Option<Json>;

/// A `serde_json::Value` as the library holds it: a number that
/// `Number::as_u64` or `Number::as_i64` gives is kept as that integer, any
/// other number as its `Display` text. Only converts.
#[verifier::external_body]
fn value_of(v: &serde_json::Value) -> JsonValue {
    match v {
        Value::Null => JsonValue::Null,
        Value::Bool(b) => JsonValue::Bool(*b),
        Value::Number(n) => JsonValue::Number(match (n.as_u64(), n.as_i64()) {
            (Some(u), _) => JsonNumber::PosInt(u),
            (None, Some(i)) => JsonNumber::NegInt(i),
            _ => JsonNumber::Float(n.to_string()),
        }),
        Value::String(s) => JsonValue::String(s.clone()),
        Value::Array(a) => JsonValue::Array(a.iter().map(value_of).collect()),
        Value::Object(o) => JsonValue::Object(o.iter().map(|(k, x)| (k.clone(), value_of(x))).collect()),
    }
}

/// Reads `text` with `serde_json::from_str::<serde_json::Value>`; an error is
/// `None`. Claimed: the result is `json_text_value` of the text, which holds
/// because reading depends on nothing but the text.
#[verifier::external_body]
pub(crate) fn read_json_text(text: &str) -> (r: Option<JsonValue>)
    ensures
        option_model(r) == json_text_value(text@),
{
    serde_json::from_str::<serde_json::Value>(text).ok().map(|v| value_of(&v))
}

/// Reads `text` with `json5::from_str::<serde_json::Value>`; an error is
/// `None`. Claimed: the result is `json5_text_value` of the text, which holds
/// because reading depends on nothing but the text.
#[verifier::external_body]
pub(crate) fn read_json5_text(text: &str) -> (r: Option<JsonValue>)
    ensures
        option_model(r) == json5_text_value(text@),
{
    json5::from_str::<serde_json::Value>(text).ok().map(|v| value_of(&v))
}

/// Reads `text` with `serde_json::from_str::<serde_json::Value>` and keeps the
/// content of a `Value::String`; anything else, or an error, is `None`.
/// Claimed: the result is `json_string_literal` of the text, which holds
/// because reading depends on nothing but the text.
#[verifier::external_body]
pub(crate) fn json_string_value(text: &str) -> (r: Option<String>)
    ensures
        match r {
            Some(s) => json_string_literal(text@) == Some(s@),
            None => json_string_literal(text@) is None,
        },
{
    match serde_json::from_str::<serde_json::Value>(text) {
        Ok(serde_json::Value::String(s)) => Some(s),
        _ => None,
    }
}

/// Reads `text` with `json5::from_str::<String>`; an error is `None`.
/// Claimed: the result is `js_string_literal` of the text, which holds
/// because reading depends on nothing but the text.
#[verifier::external_body]
pub(crate) fn js_string_value(text: &str) -> (r: Option<String>)
    ensures
        match r {
            Some(s) => js_string_literal(text@) == Some(s@),
            None => js_string_literal(text@) is None,
        },
{
    json5::from_str::<String>(text).ok()
}

} // verus!
