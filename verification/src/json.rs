//! JSON values.

use vstd::prelude::*;

use crate::numbers::decimal;

verus! {

/// A JSON value. A number is given by the text that it is written as.
#[verifier::ext_equal]
pub enum JsonView {
    Null,
    Bool(bool),
    Number(Seq<char>),
    Text(Seq<char>),
    List(Seq<JsonView>),
    Object(Map<Seq<char>, JsonView>),
}

#[verifier::external_type_specification]
#[verifier::external_body]
pub struct ExJsonValue(serde_json::Value);

#[verifier::external_type_specification]
#[verifier::external_body]
#[verifier::reject_recursive_types(K)]
#[verifier::reject_recursive_types(V)]
pub struct ExJsonMap<K, V>(serde_json::Map<K, V>);

/// What a `serde_json::Value` holds.
pub uninterp spec fn json_view(value: serde_json::Value) -> JsonView;

/// What a `serde_json::Map` holds, by key.
pub uninterp spec fn json_entries(map: serde_json::Map<String, serde_json::Value>) -> Map<
    Seq<char>,
    JsonView,
>;

/// The bytes that `serde_json::to_vec` writes for a value. The entries of an
/// object come in the order of their keys, so the bytes depend on what the
/// value holds alone.
pub uninterp spec fn json_encoding(value: JsonView) -> Seq<u8>;

/// What `serde_json::from_slice` reads from bytes, or nothing where they are
/// no JSON text.
pub uninterp spec fn json_decoding(bytes: Seq<u8>) -> Option<JsonView>;

/// An object without entries.
pub open spec fn no_entries() -> Map<Seq<char>, JsonView> {
    Map::empty()
}

/// The contents of a list of values.
pub open spec fn json_views(list: Seq<serde_json::Value>) -> Seq<JsonView> {
    list.map_values(|value: serde_json::Value| json_view(value))
}

/// `serde_json::Value::Null` is the value `null`.
#[verifier::external_body]
pub(crate) fn json_null() -> (r: serde_json::Value)
    ensures
        json_view(r) == JsonView::Null,
{
    serde_json::Value::Null
}

/// `serde_json::Value::Bool` holds the truth value.
#[verifier::external_body]
pub(crate) fn json_bool(value: bool) -> (r: serde_json::Value)
    ensures
        json_view(r) == JsonView::Bool(value),
{
    serde_json::Value::Bool(value)
}

/// `serde_json::Value::from` makes a number of an unsigned integer, which is
/// written in decimal.
#[verifier::external_body]
pub(crate) fn json_number(value: u64) -> (r: serde_json::Value)
    ensures
        json_view(r) == JsonView::Number(decimal(value as nat)),
{
    serde_json::Value::from(value)
}

/// `serde_json::Value::String` holds the text.
#[verifier::external_body]
pub(crate) fn json_text(value: String) -> (r: serde_json::Value)
    ensures
        json_view(r) == JsonView::Text(value@),
{
    serde_json::Value::String(value)
}

/// `serde_json::Value::Array` holds the values in their order.
#[verifier::external_body]
pub(crate) fn json_list(values: Vec<serde_json::Value>) -> (r: serde_json::Value)
    ensures
        json_view(r) == JsonView::List(json_views(values@)),
{
    serde_json::Value::Array(values)
}

/// `serde_json::Value::Object` holds the entries of the map.
#[verifier::external_body]
pub(crate) fn json_object(map: serde_json::Map<String, serde_json::Value>) -> (r: serde_json::Value)
    ensures
        json_view(r) == JsonView::Object(json_entries(map)),
{
    serde_json::Value::Object(map)
}

/// `serde_json::Map::new` makes a map without entries.
#[verifier::external_body]
pub(crate) fn json_map() -> (r: serde_json::Map<String, serde_json::Value>)
    ensures
        json_entries(r) == no_entries(),
{
    serde_json::Map::new()
}

/// `serde_json::Map::insert` sets the entry of a key, in place of one that
/// there was.
#[verifier::external_body]
pub(crate) fn json_insert(
    map: &mut serde_json::Map<String, serde_json::Value>,
    key: String,
    value: serde_json::Value,
)
    ensures
        json_entries(*final(map)) == json_entries(*old(map)).insert(key@, json_view(value)),
{
    map.insert(key, value);
}

/// `serde_json::to_vec` writes the value as compact JSON text. It does not
/// fail on a `serde_json::Value`.
#[verifier::external_body]
pub(crate) fn json_bytes(value: &serde_json::Value) -> (r: Vec<u8>)
    ensures
        r@ == json_encoding(json_view(*value)),
{
    serde_json::to_vec(value).unwrap_or_default()
}

/// `serde_json::from_slice` reads a value from JSON text, and fails on bytes
/// that are none.
#[verifier::external_body]
pub(crate) fn json_parse(bytes: &[u8]) -> (r: Option<serde_json::Value>)
    ensures
        match r {
            Some(value) => json_decoding(bytes@) == Some(json_view(value)),
            None => json_decoding(bytes@) is None,
        },
{
    serde_json::from_slice(bytes).ok()
}

/// The text in an entry of an object.
pub open spec fn text_entry(value: JsonView, key: Seq<char>) -> Option<Seq<char>> {
    match value {
        JsonView::Object(entries) => if entries.contains_key(key) {
            match entries[key] {
                JsonView::Text(text) => Some(text),
                _ => None,
            }
        } else {
            None
        },
        _ => None,
    }
}

/// `serde_json::Value::get` looks a key up in an object, and `as_str` gives
/// the text of a value that is one.
#[verifier::external_body]
pub(crate) fn json_text_entry<'a>(value: &'a serde_json::Value, key: &str) -> (r: Option<&'a str>)
    ensures
        match r {
            Some(text) => text_entry(json_view(*value), key@) == Some(text@),
            None => text_entry(json_view(*value), key@) is None,
        },
{
    value.get(key).and_then(|entry| entry.as_str())
}

/// An entry is read as a text exactly where it stands in an object and is one.
pub proof fn text_entries_are_read(
    entries: Map<Seq<char>, JsonView>,
    key: Seq<char>,
    text: Seq<char>,
)
    ensures
        text_entry(JsonView::Object(entries.insert(key, JsonView::Text(text))), key) == Some(text),
        text_entry(JsonView::Object(entries.insert(key, JsonView::Null)), key) is None,
        text_entry(JsonView::Object(entries.remove(key)), key) is None,
        text_entry(JsonView::Text(text), key) is None,
{
}

} // verus!
