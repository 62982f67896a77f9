//! JSON values, which an outside crate holds and writes.
//!
//! Nothing of the inside of such a value is known here. What it holds is
//! spoken of as a `JsonView`; each function of this file makes one call into
//! the outside crate, and its contract says what that call does to the view.

use serde_json::Value;
use vstd::prelude::*;

verus! {

/// A JSON value of the outside crate.
#[verifier::external_type_specification]
#[verifier::external_body]
pub struct ExValue(Value);

/// The map of the outside crate that holds the members of a JSON object.
/// It keeps them by key, whatever the order in which they came, and that
/// is how they are written: so what it holds is the value of each key.
#[verifier::external_type_specification]
#[verifier::external_body]
#[verifier::reject_recursive_types(K)]
#[verifier::reject_recursive_types(V)]
pub struct ExMembers<K, V>(serde_json::Map<K, V>);

/// What a JSON value holds. A number stands as the text that JSON writes
/// for it.
pub ghost enum JsonView {
    Null,
    Bool(bool),
    Number(Seq<char>),
    Text(Seq<char>),
    Array(Seq<JsonView>),
    Object(Map<Seq<char>, JsonView>),
}

/// What a JSON value holds.
pub uninterp spec fn json_of(value: Value) -> JsonView;

/// What the members of a JSON object hold: the value of each key.
pub uninterp spec fn members_of(members: serde_json::Map<String, Value>) -> Map<
    Seq<char>,
    JsonView,
>;

/// The text that `serde_json::to_string_pretty` writes for a JSON value.
pub uninterp spec fn pretty_text(json: JsonView) -> Seq<char>;

/// The text that `str::to_lowercase` gives for a text.
pub uninterp spec fn lowercase_of(text: Seq<char>) -> Seq<char>;

/// The members of an object that has none.
pub open spec fn no_members() -> Map<Seq<char>, JsonView> {
    Map::empty()
}

/// Makes `Value::String` of serde_json: the value that holds the text.
#[verifier::external_body]
pub(crate) fn text_value(text: String) -> (value: Value)
    ensures
        json_of(value) == JsonView::Text(text@),
{
    Value::String(text)
}

/// Makes `Value::Object` of serde_json: the object that holds the members.
#[verifier::external_body]
pub(crate) fn object_value(members: serde_json::Map<String, Value>) -> (value: Value)
    ensures
        json_of(value) == JsonView::Object(members_of(members)),
{
    Value::Object(members)
}

/// Calls `Map::new` of serde_json. The new map holds no member.
#[verifier::external_body]
pub(crate) fn new_members() -> (members: serde_json::Map<String, Value>)
    ensures
        members_of(members) == no_members(),
{
    serde_json::Map::new()
}

/// Calls `Map::insert` of serde_json. The key holds the new value
/// afterwards, whether the map held the key or not; the value that it
/// held before comes back.
#[verifier::external_body]
pub(crate) fn insert_member(
    members: &mut serde_json::Map<String, Value>,
    key: String,
    value: Value,
) -> (replaced: Option<Value>)
    ensures
        members_of(*final(members)) == members_of(*old(members)).insert(key@, json_of(value)),
        match replaced {
            Some(before) => members_of(*old(members)).contains_key(key@) && json_of(before)
                == members_of(*old(members))[key@],
            None => !members_of(*old(members)).contains_key(key@),
        },
{
    members.insert(key, value)
}

/// Calls `Map::contains_key` of serde_json: whether the map holds the key.
#[verifier::external_body]
pub(crate) fn has_member(members: &serde_json::Map<String, Value>, key: &str) -> (found: bool)
    ensures
        found == members_of(*members).contains_key(key@),
{
    members.contains_key(key)
}

/// Calls `Map::get_mut` of serde_json: the value of the key, to be
/// changed in its place, if the map holds the key. The map holds
/// afterwards what it held, but under the key what the value has become.
#[verifier::external_body]
pub(crate) fn member_mut<'a>(members: &'a mut serde_json::Map<String, Value>, key: &str) -> (found:
    Option<&'a mut Value>)
    ensures
        match found {
            Some(value) => members_of(*old(members)).contains_key(key@) && json_of(*value)
                == members_of(*old(members))[key@] && members_of(*final(members)) == members_of(
                *old(members),
            ).insert(key@, json_of(*final(value))),
            None => !members_of(*old(members)).contains_key(key@) && *final(members) == *old(
                members,
            ),
        },
{
    members.get_mut(key)
}

/// Calls `Value::as_object_mut` of serde_json: the members of the value,
/// to be changed in their place, if the value is an object. The value is
/// afterwards the object of what the members have become.
#[verifier::external_body]
pub(crate) fn members_mut<'a>(value: &'a mut Value) -> (found: Option<
    &'a mut serde_json::Map<String, Value>,
>)
    ensures
        match found {
            Some(members) => json_of(*old(value)) == JsonView::Object(members_of(*members))
                && json_of(*final(value)) == JsonView::Object(members_of(*final(members))),
            None => !(json_of(*old(value)) is Object) && *final(value) == *old(value),
        },
{
    value.as_object_mut()
}

/// Calls `Value::clone` of serde_json: a value that holds the same.
#[verifier::external_body]
pub(crate) fn clone_value(value: &Value) -> (copy: Value)
    ensures
        json_of(copy) == json_of(*value),
{
    value.clone()
}

/// Calls `serde_json::to_string_pretty` on a value: the text that it
/// writes. The writer fails only where the writing of the value itself
/// fails or where a map has keys that are no strings; a `Value` has
/// neither, so a text comes back for every value.
#[verifier::external_body]
pub(crate) fn render_pretty(value: &Value) -> (text: Option<String>)
    ensures
        text is Some,
        text->Some_0@ == pretty_text(json_of(*value)),
{
    serde_json::to_string_pretty(value).ok()
}

/// Calls `str::to_lowercase` of std.
#[verifier::external_body]
pub(crate) fn lowercase(text: &str) -> (lower: String)
    ensures
        lower@ == lowercase_of(text@),
{
    text.to_lowercase()
}

} // verus!
