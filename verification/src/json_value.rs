//! JSON documents, as `serde_json` reads and writes them.

use vstd::prelude::*;

verus! {

/// `serde_json::Value`, a JSON document.
#[verifier::external_type_specification]
#[verifier::external_body]
pub struct ExJsonValue(serde_json::Value);

/// The document that a text encodes, or the message of the error.
pub uninterp spec fn json_text_document(text: Seq<char>) -> Result<serde_json::Value, Seq<char>>;

/// `serde_json::from_str` into a `Value`, with the error as the text that it
/// displays.
#[verifier::external_body]
pub(crate) fn json_from_str(text: &str) -> (r: Result<serde_json::Value, String>)
    ensures
        match r {
            Ok(v) => json_text_document(text@) == Ok::<serde_json::Value, Seq<char>>(v),
            Err(m) => json_text_document(text@) == Err::<serde_json::Value, Seq<char>>(m@),
        },
{
    serde_json::from_str(text).map_err(|e| e.to_string())
}

/// The document that bytes encode, or the message of the error.
pub uninterp spec fn json_bytes_document(bytes: Seq<u8>) -> Result<serde_json::Value, Seq<char>>;

/// `serde_json::from_slice` into a `Value`, with the error as the text that it
/// displays.
#[verifier::external_body]
pub(crate) fn json_from_slice(bytes: &[u8]) -> (r: Result<serde_json::Value, String>)
    ensures
        match r {
            Ok(v) => json_bytes_document(bytes@) == Ok::<serde_json::Value, Seq<char>>(v),
            Err(m) => json_bytes_document(bytes@) == Err::<serde_json::Value, Seq<char>>(m@),
        },
{
    serde_json::from_slice(bytes).map_err(|e| e.to_string())
}

/// The bytes that encode a document, or the message of the error.
pub uninterp spec fn json_encoding(v: serde_json::Value) -> Result<Seq<u8>, Seq<char>>;

/// `serde_json::to_vec` of a `Value`, with the error as the text that it
/// displays.
#[verifier::external_body]
pub(crate) fn json_to_vec(v: &serde_json::Value) -> (r: Result<Vec<u8>, String>)
    ensures
        match r {
            Ok(b) => json_encoding(*v) == Ok::<Seq<u8>, Seq<char>>(b@),
            Err(m) => json_encoding(*v) == Err::<Seq<u8>, Seq<char>>(m@),
        },
{
    serde_json::to_vec(v).map_err(|e| e.to_string())
}

/// The member of an object with the given key; none where there is none, or
/// where the value is no object.
pub uninterp spec fn json_member(v: serde_json::Value, key: Seq<char>) -> Option<serde_json::Value>;

/// `serde_json::Value::get` with a text index.
#[verifier::external_body]
pub(crate) fn json_get<'a>(v: &'a serde_json::Value, key: &str) -> (r: Option<
    &'a serde_json::Value,
>)
    ensures
        match r {
            Some(x) => json_member(*v, key@) == Some(*x),
            None => json_member(*v, key@) is None,
        },
{
    v.get(key)
}

/// The element of an array at the given place; none where there is none, or
/// where the value is no array.
pub uninterp spec fn json_element(v: serde_json::Value, i: usize) -> Option<serde_json::Value>;

/// `serde_json::Value::get` with a number for index.
#[verifier::external_body]
pub(crate) fn json_at<'a>(v: &'a serde_json::Value, i: usize) -> (r: Option<&'a serde_json::Value>)
    ensures
        match r {
            Some(x) => json_element(*v, i) == Some(*x),
            None => json_element(*v, i) is None,
        },
{
    v.get(i)
}

/// The text of a value that is one.
pub uninterp spec fn json_text(v: serde_json::Value) -> Option<Seq<char>>;

/// `serde_json::Value::as_str`.
#[verifier::external_body]
pub(crate) fn json_as_text(v: &serde_json::Value) -> (r: Option<String>)
    ensures
        match r {
            Some(s) => json_text(*v) == Some(s@),
            None => json_text(*v) is None,
        },
{
    v.as_str().map(|s| s.to_string())
}

/// The truth value of a value that is one.
pub uninterp spec fn json_bool(v: serde_json::Value) -> Option<bool>;

/// `serde_json::Value::as_bool`.
#[verifier::external_body]
pub(crate) fn json_as_bool(v: &serde_json::Value) -> (r: Option<bool>)
    ensures
        r == json_bool(*v),
{
    v.as_bool()
}

/// The number of a value that is an integer and fits.
pub uninterp spec fn json_integer(v: serde_json::Value) -> Option<i64>;

/// `serde_json::Value::as_i64`.
#[verifier::external_body]
pub(crate) fn json_as_i64(v: &serde_json::Value) -> (r: Option<i64>)
    ensures
        r == json_integer(*v),
{
    v.as_i64()
}

/// The value is an object.
pub uninterp spec fn json_object(v: serde_json::Value) -> bool;

/// `serde_json::Value::is_object`.
#[verifier::external_body]
pub(crate) fn json_is_object(v: &serde_json::Value) -> (r: bool)
    ensures
        r == json_object(*v),
{
    v.is_object()
}

/// The value that is a text.
pub uninterp spec fn json_of_text(s: Seq<char>) -> serde_json::Value;

/// `serde_json::Value::String`: its text is the given one.
#[verifier::external_body]
pub(crate) fn json_string(s: &str) -> (r: serde_json::Value)
    ensures
        r == json_of_text(s@),
        json_text(r) == Some(s@),
{
    serde_json::Value::String(s.to_string())
}

/// The array of the given values.
pub uninterp spec fn json_of_items(items: Seq<serde_json::Value>) -> serde_json::Value;

/// `serde_json::Value::Array`.
#[verifier::external_body]
pub(crate) fn json_array(items: Vec<serde_json::Value>) -> (r: serde_json::Value)
    ensures
        r == json_of_items(items@),
{
    serde_json::Value::Array(items)
}

/// `serde_json::Value::Object` of a new `Map`: an object without members.
#[verifier::external_body]
pub(crate) fn json_empty_object() -> (r: serde_json::Value)
    ensures
        json_object(r),
        forall|key: Seq<char>| (#[trigger] json_member(r, key)) is None,
{
    serde_json::Value::Object(serde_json::Map::new())
}

/// The object with a member set, over one of the same key.
pub uninterp spec fn json_with_member(
    v: serde_json::Value,
    key: Seq<char>,
    item: serde_json::Value,
) -> serde_json::Value;

/// `serde_json::Map::insert` into an object: the member can be read back, and
/// every other one is as it was.
#[verifier::external_body]
pub(crate) fn json_set(v: serde_json::Value, key: &str, item: serde_json::Value) -> (r:
    serde_json::Value)
    requires
        json_object(v),
    ensures
        r == json_with_member(v, key@, item),
        json_object(r),
        json_member(r, key@) == Some(item),
        forall|k: Seq<char>| k != key@ ==> #[trigger] json_member(r, k) == json_member(v, k),
{
    let mut v = v;
    if let Some(members) = v.as_object_mut() {
        members.insert(key.to_string(), item);
    }
    v
}

} // verus!
