//! JSON values as the template engine reads them, built with `serde_json`.

use vstd::prelude::*;

verus! {

/// What a JSON value holds.
pub enum Json {
    /// A string.
    Text(Seq<char>),
    /// A list of values.
    Array(Seq<Json>),
    /// A mapping from keys to values.
    Object(Map<Seq<char>, Json>),
}

/// `serde_json::Value`, carried through as it is.
#[verifier::external_type_specification]
#[verifier::external_body]
pub struct ExValue(serde_json::Value);

/// `serde_json::Map`, carried through as it is.
#[verifier::external_type_specification]
#[verifier::external_body]
#[verifier::reject_recursive_types(K)]
#[verifier::reject_recursive_types(V)]
pub struct ExJsonMap<K, V>(serde_json::Map<K, V>);

/// What a `serde_json::Value` holds.
pub uninterp spec fn json_of(value: serde_json::Value) -> Json;

/// The entries of a `serde_json::Map`.
pub uninterp spec fn entries_of(map: serde_json::Map<String, serde_json::Value>) -> Map<
    Seq<char>,
    Json,
>;

/// The empty set of entries.
pub open spec fn no_entries() -> Map<Seq<char>, Json> {
    Map::empty()
}

/// What each value of a list holds.
pub open spec fn jsons_of(values: Seq<serde_json::Value>) -> Seq<Json> {
    values.map_values(|v: serde_json::Value| json_of(v))
}

/// `serde_json::Value::String` makes the value that holds the given string.
#[verifier::external_body]
pub(crate) fn json_text(s: &str) -> (value: serde_json::Value)
    ensures
        json_of(value) == Json::Text(s@),
{
    serde_json::Value::String(s.to_owned())
}

/// `serde_json::Value::Array` makes the value that holds the given values in
/// their order.
#[verifier::external_body]
pub(crate) fn json_array(values: Vec<serde_json::Value>) -> (value: serde_json::Value)
    ensures
        json_of(value) == Json::Array(jsons_of(values@)),
{
    serde_json::Value::Array(values)
}

/// `serde_json::Value::Object` makes the value that holds the entries of the
/// given map.
#[verifier::external_body]
pub(crate) fn json_object(map: serde_json::Map<String, serde_json::Value>) -> (value:
    serde_json::Value)
    ensures
        json_of(value) == Json::Object(entries_of(map)),
{
    serde_json::Value::Object(map)
}

/// `serde_json::Map::new` makes a map without entries.
pub assume_specification[ serde_json::Map::<String, serde_json::Value>::new ]() -> (made: serde_json::Map<String, serde_json::Value>)
    ensures
        entries_of(made) == no_entries(),
;

/// `serde_json::Map::insert` sets the entry of the key to the value, whether
/// or not the key had one.
pub assume_specification[ serde_json::Map::<String, serde_json::Value>::insert ](
    map: &mut serde_json::Map<String, serde_json::Value>,
    k: String,
    v: serde_json::Value,
) -> (previous: Option<serde_json::Value>)
    ensures
        entries_of(*final(map)) == entries_of(*old(map)).insert(k@, json_of(v)),
;

} // verus!
