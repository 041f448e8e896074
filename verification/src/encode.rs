//! JSON trees as text, printed by `serde_json`.

use crate::assoc::assoc_map;
use crate::json::{Json, JsonView};
use vstd::prelude::*;

verus! {

/// `serde_json::Value`, the tree that the serializer prints.
#[verifier::external_type_specification]
#[verifier::external_body]
pub struct ExValue(serde_json::Value);

/// `serde_json::Error`, the serializer's failure.
#[verifier::external_type_specification]
#[verifier::external_body]
pub struct ExError(serde_json::Error);

/// The tree that a `serde_json::Value` holds.
pub uninterp spec fn value_view(value: serde_json::Value) -> JsonView;

/// What `serde_json::to_string_pretty` makes of a tree: the text, or nothing where it fails.
/// The serializer keeps the members of an object in the order of their keys, so the text
/// depends on the tree alone.
pub uninterp spec fn pretty_text(tree: JsonView) -> Option<Seq<char>>;

/// The keys of a list of members, in its order.
pub open spec fn member_keys(members: Seq<(String, serde_json::Value)>) -> Seq<Seq<char>> {
    Seq::new(members.len(), |i: int| members[i].0@)
}

/// The trees of a list of members, in its order.
pub open spec fn member_views(members: Seq<(String, serde_json::Value)>) -> Seq<JsonView> {
    Seq::new(members.len(), |i: int| value_view(members[i].1))
}

/// The trees of a list of values, in its order.
pub open spec fn item_views(items: Seq<serde_json::Value>) -> Seq<JsonView> {
    Seq::new(items.len(), |i: int| value_view(items[i]))
}

/// `serde_json::Value::from` on `()`: the value that holds null.
#[verifier::external_body]
pub(crate) fn value_null() -> (value: serde_json::Value)
    ensures
        value_view(value) == JsonView::Null,
{
    serde_json::Value::from(())
}

/// `serde_json::Value::from` on a `bool`: the value that holds that boolean.
#[verifier::external_body]
pub(crate) fn value_bool(b: bool) -> (value: serde_json::Value)
    ensures
        value_view(value) == JsonView::Bool(b),
{
    serde_json::Value::from(b)
}

/// `serde_json::Value::from` on an `i64`: the value that holds that number.
#[verifier::external_body]
pub(crate) fn value_number(n: i64) -> (value: serde_json::Value)
    ensures
        value_view(value) == JsonView::Number(n as int),
{
    serde_json::Value::from(n)
}

/// `serde_json::Value::from` on a `String`: the value that holds that string.
#[verifier::external_body]
pub(crate) fn value_string(s: String) -> (value: serde_json::Value)
    ensures
        value_view(value) == JsonView::String(s@),
{
    serde_json::Value::from(s)
}

/// `serde_json::Value::from` on a `Vec` of values: the array of them, in their order.
#[verifier::external_body]
pub(crate) fn value_array(items: Vec<serde_json::Value>) -> (value: serde_json::Value)
    ensures
        value_view(value) == JsonView::Array(item_views(items@)),
{
    serde_json::Value::from(items)
}

/// `serde_json::Value::from_iter` on pairs of a key and a value: the object that holds each
/// value under its key. Stated for pairs whose keys differ.
#[verifier::external_body]
pub(crate) fn value_object(members: Vec<(String, serde_json::Value)>) -> (value:
    serde_json::Value)
    requires
        member_keys(members@).no_duplicates(),
    ensures
        value_view(value) == JsonView::Object(
            assoc_map(member_keys(members@), member_views(members@)),
        ),
{
    serde_json::Value::from_iter(members)
}

/// `serde_json::to_string_pretty` on a value: the result is a function of the tree that
/// the value holds, and `pretty_text` names it.
#[verifier::external_body]
pub(crate) fn value_to_string_pretty(value: &serde_json::Value) -> (text: Result<
    String,
    serde_json::Error,
>)
    ensures
        match text {
            Ok(s) => pretty_text(value_view(*value)) == Some(s@),
            Err(_) => pretty_text(value_view(*value)) is None,
        },
{
    serde_json::to_string_pretty(value)
}

/// The serializer did not print the tree.
#[derive(Debug, Clone, Copy, PartialEq, Eq, Structural)]
pub enum EncodeError {
    /// The serializer failed.
    Serializer,
}

/// The tree as indented text.
pub fn to_string_pretty(json: &Json) -> (text: Result<String, EncodeError>)
    ensures
        match text {
            Ok(s) => pretty_text(json@) == Some(s@),
            Err(e) => pretty_text(json@) is None && e == EncodeError::Serializer,
        },
{
    let value = json.to_value();
    match value_to_string_pretty(&value) {
        Ok(s) => Ok(s),
        Err(_) => Err(EncodeError::Serializer),
    }
}

} // verus!
