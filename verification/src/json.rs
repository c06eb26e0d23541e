//! JSON as this crate sees it, and the calls into `serde_json` that read and
//! write it. The contracts in this file are believed, not proved.

use vstd::prelude::*;

verus! {

/// A JSON document as a mathematical value. A number keeps no payload: nothing
/// in this crate reads one.
pub enum JsonTree {
    Null,
    Bool(bool),
    Number,
    Text(Seq<char>),
    Array(Seq<JsonTree>),
    Object(Map<Seq<char>, JsonTree>),
}

/// The member of an object under `key`; `None` for a missing key and for
/// anything that is not an object.
pub open spec fn tree_member(tree: JsonTree, key: Seq<char>) -> Option<JsonTree> {
    match tree {
        JsonTree::Object(members) => if members.contains_key(key) {
            Some(members[key])
        } else {
            None
        },
        _ => None,
    }
}

#[verifier::external_type_specification]
#[verifier::external_body]
pub struct ExValue(serde_json::Value);

#[verifier::external_type_specification]
#[verifier::external_body]
pub struct ExJsonError(serde_json::Error);

/// The JSON string literal that `serde_json` writes for `s`: `s` between
/// double quotes, with the escapes that JSON asks for.
pub uninterp spec fn json_quoted(s: Seq<char>) -> Seq<char>;

/// What `serde_json` reads from `text`: the document, or `None` where `text`
/// is not a JSON document.
pub uninterp spec fn json_parsed(text: Seq<char>) -> Option<JsonTree>;

/// The document that a `serde_json::Value` holds.
pub uninterp spec fn value_tree(value: serde_json::Value) -> JsonTree;

/// `serde_json::to_string` on a string slice. Believed: the call succeeds (a
/// string has no map keys and its serialisation cannot fail), and the text it
/// gives is the string's JSON literal.
#[verifier::external_body]
pub(crate) fn quote(s: &str) -> (r: Result<String, serde_json::Error>)
    ensures
        r is Ok,
        r->Ok_0@ == json_quoted(s@),
{
    serde_json::to_string(s)
}

/// `serde_json::from_str` into a `serde_json::Value`. Believed: the result is
/// a function of the text alone, an error for what is not JSON and else the
/// document read.
#[verifier::external_body]
pub(crate) fn parse(text: &str) -> (r: Result<serde_json::Value, serde_json::Error>)
    ensures
        match r {
            Ok(value) => json_parsed(text@) == Some(value_tree(value)),
            Err(_) => json_parsed(text@) is None,
        },
{
    serde_json::from_str::<serde_json::Value>(text)
}

/// `serde_json::Value::get` with a string key. Believed: it gives the member
/// under that key where the value is an object that has one, else `None`.
#[verifier::external_body]
pub(crate) fn member<'a>(value: &'a serde_json::Value, key: &str) -> (r: Option<
    &'a serde_json::Value,
>)
    ensures
        match r {
            Some(found) => tree_member(value_tree(*value), key@) == Some(value_tree(*found)),
            None => tree_member(value_tree(*value), key@) is None,
        },
{
    value.get(key)
}

/// `serde_json::Value::as_str`. Believed: it gives the string where the value
/// is one, else `None`.
#[verifier::external_body]
pub(crate) fn as_text<'a>(value: &'a serde_json::Value) -> (r: Option<&'a str>)
    ensures
        match r {
            Some(s) => value_tree(*value) == JsonTree::Text(s@),
            None => !(value_tree(*value) is Text),
        },
{
    value.as_str()
}

/// `serde_json::Value::as_array`. Believed: it gives the elements where the
/// value is an array, else `None`.
#[verifier::external_body]
pub(crate) fn as_items<'a>(value: &'a serde_json::Value) -> (r: Option<
    &'a Vec<serde_json::Value>,
>)
    ensures
        match r {
            Some(items) => value_tree(*value) == JsonTree::Array(
                items@.map_values(|item: serde_json::Value| value_tree(item)),
            ),
            None => !(value_tree(*value) is Array),
        },
{
    value.as_array()
}

} // verus!
