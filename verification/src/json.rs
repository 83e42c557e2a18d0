//! The few questions that the library asks of a JSON text.

use vstd::prelude::*;
use crate::text::opt_text;

verus! {

/// What the value of a JSON text is.
#[derive(Clone, Copy, Debug, PartialEq, Eq, Structural)]
pub enum JsonKind {
    /// The text is no JSON.
    Invalid,
    Null,
    Object,
    /// A boolean, a number, a string or an array.
    Other,
}

/// The kind of value that `serde_json` reads from a text.
pub uninterp spec fn json_kind(data: Seq<char>) -> JsonKind;

/// The string under a key of the object that `serde_json` reads from a text.
pub uninterp spec fn json_text(data: Seq<char>, key: Seq<char>) -> Option<Seq<char>>;

/// The elements of the array under two keys, one inside the other, of the object
/// that `serde_json` reads from a text: each one's text where it is a string.
pub uninterp spec fn json_text_list(
    data: Seq<char>,
    outer: Seq<char>,
    inner: Seq<char>,
) -> Option<Seq<Option<Seq<char>>>>;

/// What `serde_json` writes for the object of a text with one string more.
pub uninterp spec fn json_with_text(data: Seq<char>, key: Seq<char>, value: Seq<char>) -> Seq<char>;

/// The contents of a list of optional strings.
pub open spec fn opt_list(v: Seq<Option<String>>) -> Seq<Option<Seq<char>>> {
    v.map_values(|o: Option<String>| opt_text(o))
}

/// `serde_json::from_str` into a `serde_json::Value`: the kind of the value, which
/// `json_kind` names. A pair of braces is an object.
#[verifier::external_body]
pub(crate) fn kind_of(data: &str) -> (r: JsonKind)
    ensures
        r == json_kind(data@),
        data@ == "{}"@ ==> r == JsonKind::Object,
{
    match serde_json::from_str::<serde_json::Value>(data) {
        Err(_) => JsonKind::Invalid,
        Ok(serde_json::Value::Null) => JsonKind::Null,
        Ok(serde_json::Value::Object(_)) => JsonKind::Object,
        Ok(_) => JsonKind::Other,
    }
}

/// `serde_json::Value::get` with a key and `serde_json::Value::as_str`, on what
/// `serde_json::from_str` reads: the string under the key, which `json_text` names.
#[verifier::external_body]
pub(crate) fn text_member(data: &str, key: &str) -> (r: Option<String>)
    ensures
        opt_text(r) == json_text(data@, key@),
{
    let value: serde_json::Value = serde_json::from_str(data).ok()?;
    value.get(key)?.as_str().map(String::from)
}

/// `serde_json::Value::get` with two keys in turn and `serde_json::Value::as_array`,
/// on what `serde_json::from_str` reads: the elements, which `json_text_list` names,
/// each by its `as_str`.
#[verifier::external_body]
pub(crate) fn text_list(data: &str, outer: &str, inner: &str) -> (r: Option<Vec<Option<String>>>)
    ensures
        match r {
            Some(v) => json_text_list(data@, outer@, inner@) == Some(opt_list(v@)),
            None => json_text_list(data@, outer@, inner@) is None,
        },
{
    let value: serde_json::Value = serde_json::from_str(data).ok()?;
    let list = value.get(outer)?.get(inner)?.as_array()?;
    Some(list.iter().map(|e| e.as_str().map(String::from)).collect())
}

/// Assignment through `serde_json::Value`'s index by a key, which makes an object of
/// a null and panics on any other value that is no object, on what
/// `serde_json::from_str` reads, written by `serde_json::to_string_pretty`.
/// `json_with_text` names the text. The string that was put in is read back under
/// its key, and the strings under the other keys stay.
#[verifier::external_body]
pub(crate) fn put_text(data: &str, key: &str, value: &str) -> (r: String)
    requires
        json_kind(data@) == JsonKind::Object || json_kind(data@) == JsonKind::Null,
    ensures
        r@ == json_with_text(data@, key@, value@),
        json_kind(r@) == JsonKind::Object,
        json_text(r@, key@) == Some(value@),
        forall|k: Seq<char>| k != key@ ==> #[trigger] json_text(r@, k) == json_text(data@, k),
{
    let mut object: serde_json::Value = serde_json::from_str(data).unwrap();
    object[key] = serde_json::Value::String(value.to_string());
    serde_json::to_string_pretty(&object).unwrap()
}

} // verus!
