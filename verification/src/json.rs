//! What the library asks of `serde_json` about one line of JSON text.

use vstd::prelude::*;

verus! {

/// `serde_json::from_str::<Value>` accepts the text as one JSON value.
pub uninterp spec fn json_accepts(text: Seq<char>) -> bool;

/// The boolean that the JSON object in the text holds under `key`, if any.
pub uninterp spec fn json_bool_member(text: Seq<char>, key: Seq<char>) -> Option<bool>;

/// The string that the JSON object in the text holds under `key`, if any.
pub uninterp spec fn json_str_member(text: Seq<char>, key: Seq<char>) -> Option<Seq<char>>;

/// The compact rendering (`Display`) of the JSON value in the text.
pub uninterp spec fn json_compact(text: Seq<char>) -> Seq<char>;

/// Calls `serde_json::from_str::<serde_json::Value>` and reports whether it
/// succeeded. Claimed: the answer depends on the text alone.
#[verifier::external_body]
pub(crate) fn json_is_valid(text: &str) -> (r: bool)
    ensures
        r == json_accepts(text@),
{
    serde_json::from_str::<serde_json::Value>(text).is_ok()
}

/// Parses the text with `serde_json::from_str::<serde_json::Value>` and reads
/// `Value::get(key)` then `Value::as_bool`. Claimed: the result depends on the
/// text and key alone, and is `None` when the text does not parse.
#[verifier::external_body]
pub(crate) fn json_bool_field(text: &str, key: &str) -> (r: Option<bool>)
    ensures
        r == json_bool_member(text@, key@),
        r is Some ==> json_accepts(text@),
{
    match serde_json::from_str::<serde_json::Value>(text) {
        Ok(value) => value.get(key).and_then(serde_json::Value::as_bool),
        Err(_) => None,
    }
}

/// Parses the text with `serde_json::from_str::<serde_json::Value>` and reads
/// `Value::get(key)` then `Value::as_str`. Claimed: the result depends on the
/// text and key alone, and is `None` when the text does not parse.
#[verifier::external_body]
pub(crate) fn json_str_field(text: &str, key: &str) -> (r: Option<String>)
    ensures
        match r {
            Some(v) => json_str_member(text@, key@) == Some(v@) && json_accepts(text@),
            None => json_str_member(text@, key@) is None,
        },
{
    match serde_json::from_str::<serde_json::Value>(text) {
        Ok(value) => value.get(key).and_then(serde_json::Value::as_str).map(String::from),
        Err(_) => None,
    }
}

/// Parses the text with `serde_json::from_str::<serde_json::Value>` and
/// renders the value with its `Display` impl (compact JSON). Claimed: the
/// result depends on the text alone.
#[verifier::external_body]
pub(crate) fn json_render(text: &str) -> (r: String)
    requires
        json_accepts(text@),
    ensures
        r@ == json_compact(text@),
{
    match serde_json::from_str::<serde_json::Value>(text) {
        Ok(value) => value.to_string(),
        Err(_) => String::new(),
    }
}

} // verus!
