//! Reading single fields out of a JSON document.
//!
//! The documents this crate receives (client frames, tool arguments, the
//! display file) are flat JSON objects. Parsing is left to `serde_json`; the
//! functions here name what it finds at a key of the top-level object, and the
//! rest of the crate is verified against those names.

use crate::text::view_opt;
use vstd::prelude::*;

verus! {

/// Whether `text` is a JSON document.
pub uninterp spec fn json_is_valid(text: Seq<char>) -> bool;

/// The string at `key` of the JSON object `text`: `None` where `text` is no
/// JSON object, has no such key, or holds something other than a string there.
pub uninterp spec fn json_str_field(text: Seq<char>, key: Seq<char>) -> Option<Seq<char>>;

/// The unsigned 64-bit number at `key` of the JSON object `text`: `None`
/// where there is none, or the number is negative, fractional or too large.
pub uninterp spec fn json_u64_field(text: Seq<char>, key: Seq<char>) -> Option<u64>;

/// The boolean at `key` of the JSON object `text`, if there is one.
pub uninterp spec fn json_bool_field(text: Seq<char>, key: Seq<char>) -> Option<bool>;

/// The members of the object at `key` of the JSON object `text`, each as its
/// name and, where its value is a string, that string, in the order in which
/// `serde_json` walks the object; empty where there is no object at `key`.
pub uninterp spec fn json_members(text: Seq<char>, key: Seq<char>) -> Seq<
    (Seq<char>, Option<Seq<char>>),
>;

/// The views of a list of members.
pub open spec fn view_members(v: Seq<(String, Option<String>)>) -> Seq<
    (Seq<char>, Option<Seq<char>>),
> {
    Seq::new(v.len(), |i: int| (v[i].0@, view_opt(v[i].1)))
}

/// `serde_json::from_str` into a `serde_json::Value`: says whether the text
/// parses as JSON.
#[verifier::external_body]
pub(crate) fn is_json(text: &str) -> (r: bool)
    ensures
        r == json_is_valid(text@),
{
    serde_json::from_str::<serde_json::Value>(text).is_ok()
}

/// `serde_json::Value::as_str` on what `Value::get` finds at `key` of the
/// parsed text.
#[verifier::external_body]
pub(crate) fn str_field(text: &str, key: &str) -> (r: Option<String>)
    ensures
        view_opt(r) == json_str_field(text@, key@),
{
    let doc = serde_json::from_str::<serde_json::Value>(text).ok()?;
    doc.get(key)?.as_str().map(|s| s.to_string())
}

/// `serde_json::Value::as_u64` on what `Value::get` finds at `key` of the
/// parsed text.
#[verifier::external_body]
pub(crate) fn u64_field(text: &str, key: &str) -> (r: Option<u64>)
    ensures
        r == json_u64_field(text@, key@),
{
    let doc = serde_json::from_str::<serde_json::Value>(text).ok()?;
    doc.get(key)?.as_u64()
}

/// `serde_json::Value::as_bool` on what `Value::get` finds at `key` of the
/// parsed text.
#[verifier::external_body]
pub(crate) fn bool_field(text: &str, key: &str) -> (r: Option<bool>)
    ensures
        r == json_bool_field(text@, key@),
{
    let doc = serde_json::from_str::<serde_json::Value>(text).ok()?;
    doc.get(key)?.as_bool()
}

/// `serde_json::Value::as_object` on what `Value::get` finds at `key` of the
/// parsed text, walked with the map's iterator; each value is handed on
/// through `Value::as_str`.
#[verifier::external_body]
pub(crate) fn members(text: &str, key: &str) -> (r: Vec<(String, Option<String>)>)
    ensures
        view_members(r@) == json_members(text@, key@),
{
    let doc = serde_json::from_str::<serde_json::Value>(text).ok();
    match doc.as_ref().and_then(|d| d.get(key)).and_then(|v| v.as_object()) {
        Some(map) => map.iter().map(|(k, v)| (k.clone(), v.as_str().map(|s| s.to_string()))).collect(),
        None => Vec::new(),
    }
}

} // verus!
