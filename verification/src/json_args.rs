//! Reading members of a tool call's JSON arguments.
use vstd::prelude::*;

verus! {

/// What serde_json makes of the member `key` of the JSON text `text`: the
/// member's string value, when `text` parses as a JSON object whose member
/// `key` is a string.
pub uninterp spec fn json_string_member(text: Seq<char>, key: Seq<char>) -> Option<Seq<char>>;

/// Whether `text` parses, with serde_json, as a JSON object that has a
/// member `key`, whatever its value.
pub uninterp spec fn json_has_member(text: Seq<char>, key: Seq<char>) -> bool;

/// What serde_json makes of the member `key` of the JSON text `text`: the
/// member's value written back as compact JSON text, when `text` parses as a
/// JSON object that has a member `key`.
pub uninterp spec fn json_member_text(text: Seq<char>, key: Seq<char>) -> Option<Seq<char>>;

/// What serde_json makes of the member `key` of the JSON text `text`: the
/// elements of the member's array, each written back as compact JSON text,
/// when `text` parses as a JSON object whose member `key` is an array.
pub uninterp spec fn json_array_member_items(text: Seq<char>, key: Seq<char>) -> Option<Seq<Seq<char>>>;

/// What serde_json makes of the member `key` of the JSON text `text`: the
/// member's value, when `text` parses as a JSON object whose member `key` is
/// a number that fits in a `u64`.
pub uninterp spec fn json_u64_member(text: Seq<char>, key: Seq<char>) -> Option<u64>;

/// What serde_json makes of the member `key` of the JSON text `text`: the
/// member's value, when `text` parses as a JSON object whose member `key` is
/// a boolean.
pub uninterp spec fn json_bool_member(text: Seq<char>, key: Seq<char>) -> Option<bool>;

/// What serde_json makes of the JSON text `text`: its string value, when it
/// parses as a JSON string.
pub uninterp spec fn json_string_value(text: Seq<char>) -> Option<Seq<char>>;

/// The views of a list of strings.
pub open spec fn string_views(v: Seq<String>) -> Seq<Seq<char>> {
    v.map_values(|s: String| s@)
}

/// The view of an optional string.
pub open spec fn opt_view(o: Option<String>) -> Option<Seq<char>> {
    match o {
        Some(s) => Some(s@),
        None => None,
    }
}

/// Parses `text` with `serde_json::from_str` into a `serde_json::Value`, then
/// reads member `key` with `Value::get` and `Value::as_str`.  The contract
/// names the result and claims only that it depends on `text` and `key`
/// alone.
#[verifier::external_body]
pub(crate) fn string_member(text: &str, key: &str) -> (r: Option<String>)
    ensures
        opt_view(r) == json_string_member(text@, key@),
{
    serde_json::from_str::<serde_json::Value>(text).ok().and_then(
        |v| v.get(key).and_then(|m| m.as_str()).map(String::from),
    )
}

/// Parses `text` with `serde_json::from_str` into a `serde_json::Value` and
/// tells whether `Value::get` finds member `key`.  The contract names the
/// result and claims only that it depends on `text` and `key` alone.
#[verifier::external_body]
pub(crate) fn has_member(text: &str, key: &str) -> (r: bool)
    ensures
        r == json_has_member(text@, key@),
{
    serde_json::from_str::<serde_json::Value>(text).map(|v| v.get(key).is_some()).unwrap_or(false)
}

/// Parses `text` with `serde_json::from_str` into a `serde_json::Value`,
/// reads member `key` with `Value::get` and writes it back with
/// `serde_json::to_string`.  The contract names the result and claims only
/// that it depends on `text` and `key` alone.
#[verifier::external_body]
pub(crate) fn member_text(text: &str, key: &str) -> (r: Option<String>)
    ensures
        opt_view(r) == json_member_text(text@, key@),
{
    serde_json::from_str::<serde_json::Value>(text).ok().and_then(
        |v| v.get(key).map(|m| serde_json::to_string(m).unwrap_or_default()),
    )
}

/// Parses `text` with `serde_json::from_str` into a `serde_json::Value`,
/// reads member `key` with `Value::get` and `Value::as_array`, and writes
/// each element back with `serde_json::to_string`.  The contract names the
/// result and claims only that it depends on `text` and `key` alone.
#[verifier::external_body]
pub(crate) fn array_member_items(text: &str, key: &str) -> (r: Option<Vec<String>>)
    ensures
        match r {
            Some(items) => json_array_member_items(text@, key@) == Some(string_views(items@)),
            None => json_array_member_items(text@, key@) is None,
        },
{
    serde_json::from_str::<serde_json::Value>(text).ok().and_then(|v| {
        v.get(key).and_then(|m| m.as_array()).map(
            |a| a.iter().map(|e| serde_json::to_string(e).unwrap_or_default()).collect(),
        )
    })
}

/// Parses `text` with `serde_json::from_str` into a `serde_json::Value` and
/// reads member `key` with `Value::get` and `Value::as_u64`.  The contract
/// names the result and claims only that it depends on `text` and `key`
/// alone.
#[verifier::external_body]
pub(crate) fn u64_member(text: &str, key: &str) -> (r: Option<u64>)
    ensures
        r == json_u64_member(text@, key@),
{
    serde_json::from_str::<serde_json::Value>(text).ok().and_then(|v| v.get(key).and_then(|m| m.as_u64()))
}

/// Parses `text` with `serde_json::from_str` into a `serde_json::Value` and
/// reads member `key` with `Value::get` and `Value::as_bool`.  The contract
/// names the result and claims only that it depends on `text` and `key`
/// alone.
#[verifier::external_body]
pub(crate) fn bool_member(text: &str, key: &str) -> (r: Option<bool>)
    ensures
        r == json_bool_member(text@, key@),
{
    serde_json::from_str::<serde_json::Value>(text).ok().and_then(|v| v.get(key).and_then(|m| m.as_bool()))
}

/// Parses `text` with `serde_json::from_str` into a `serde_json::Value` and
/// reads it with `Value::as_str`.  The contract names the result and claims
/// only that it depends on `text` alone.
#[verifier::external_body]
pub(crate) fn string_value(text: &str) -> (r: Option<String>)
    ensures
        opt_view(r) == json_string_value(text@),
{
    serde_json::from_str::<serde_json::Value>(text).ok().and_then(|v| v.as_str().map(String::from))
}

} // verus!
