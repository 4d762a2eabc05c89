//! The few `serde_json` operations that tool-message truncation makes on a
//! JSON object: parse, look up, replace a string entry, serialize.
//!
//! A parsed object is held as `serde_json::Map`; its contents are seen here
//! as a map from each key to a `JsonDatum`: the value in full, except that
//! a floating-point number is seen only as being one.
use vstd::prelude::*;

verus! {

#[verifier::external_type_specification]
#[verifier::external_body]
#[verifier::reject_recursive_types(K)]
#[verifier::reject_recursive_types(V)]
pub struct ExJsonMap<K, V>(serde_json::Map<K, V>);

#[verifier::external_type_specification]
#[verifier::external_body]
pub struct ExJsonValue(serde_json::Value);

/// A JSON value as the library sees it. Null, booleans, integers (what
/// serde_json holds as `u64` or `i64`), strings, arrays and objects are
/// seen in full; a floating-point number is seen only as being one, and
/// which float it is is left unsaid.
pub enum JsonDatum {
    Null,
    Bool(bool),
    Int(int),
    Float,
    Str(Seq<char>),
    Array(Seq<JsonDatum>),
    Object(Map<Seq<char>, JsonDatum>),
}

/// What a `serde_json::Map` holds: each key, with the value stored under it
/// seen as a `JsonDatum`.
pub uninterp spec fn json_entries(m: serde_json::Map<String, serde_json::Value>) -> Map<Seq<char>, JsonDatum>;

/// How deeply a `serde_json::Map` nests: 1 for the map itself, plus the
/// deepest nesting of arrays and objects among its values.
pub uninterp spec fn json_depth(m: serde_json::Map<String, serde_json::Value>) -> nat;

/// The deepest nesting `serde_json::from_str` reads: its recursion limit
/// (128) refuses any array or object at the 128th level.
pub const JSON_MAX_DEPTH: u8 = 127;

/// What `serde_json::from_str::<Map<String, Value>>` makes of a text: the
/// entries of the object when the text is one JSON object, `None` otherwise.
pub uninterp spec fn json_object_of(text: Seq<char>) -> Option<Map<Seq<char>, JsonDatum>>;

/// Parses `text` as one JSON object with `serde_json::from_str`; `None` when
/// it is not valid JSON or not an object. The contract says only that the
/// outcome is the fixed function `json_object_of` of the text, and that a
/// map it reads nests no deeper than serde_json's recursion limit allows.
#[verifier::external_body]
pub fn parse_json_object(text: &str) -> (r: Option<serde_json::Map<String, serde_json::Value>>)
    ensures
        r is Some <==> json_object_of(text@) is Some,
        r matches Some(m) ==> json_object_of(text@) == Some(json_entries(m)),
        r matches Some(m) ==> json_depth(m) <= JSON_MAX_DEPTH,
{
    serde_json::from_str::<serde_json::Map<String, serde_json::Value>>(text).ok()
}

/// `serde_json::Map::contains_key`: whether the object has the key.
#[verifier::external_body]
pub fn json_has_key(m: &serde_json::Map<String, serde_json::Value>, key: &str) -> (r: bool)
    ensures
        r == json_entries(*m).dom().contains(key@),
{
    m.contains_key(key)
}

/// `serde_json::Map::get`, for a value that is a JSON string: the string, or
/// `None` when the key is absent or holds another kind of value.
#[verifier::external_body]
pub fn json_string_entry<'a>(m: &'a serde_json::Map<String, serde_json::Value>, key: &str) -> (r: Option<&'a str>)
    ensures
        r matches Some(s) ==> json_entries(*m).dom().contains(key@) && json_entries(*m)[key@] == JsonDatum::Str(s@),
        r is None ==> !json_entries(*m).dom().contains(key@) || !(json_entries(*m)[key@] is Str),
{
    match m.get(key) {
        Some(serde_json::Value::String(s)) => Some(s.as_str()),
        _ => None,
    }
}

/// `serde_json::Map::insert` of a JSON string: the key now holds `value`,
/// every other entry stays as it was. A string adds no nesting, so the map
/// nests no deeper than before.
#[verifier::external_body]
pub fn json_set_string(m: &mut serde_json::Map<String, serde_json::Value>, key: &str, value: String)
    ensures
        json_entries(*final(m)) == json_entries(*old(m)).insert(key@, JsonDatum::Str(value@)),
        json_depth(*final(m)) <= json_depth(*old(m)),
{
    m.insert(key.to_string(), serde_json::Value::String(value));
}

/// `serde_json::to_string` of an object. Writing a map with string keys
/// fails only when a value's serialization fails, which a `Value`'s never
/// does, so a text always comes out. Read back with `serde_json::from_str`
/// it gives the same entries (strings are escaped and unescaped
/// losslessly, integers are written as their digits, and a float is written
/// with a `.` or an exponent, so it reads back as a float), provided the map
/// nests within the parser's recursion limit.
/// Which of the equivalent texts (spacing, escapes, key order) is produced
/// is left unsaid.
#[verifier::external_body]
pub fn json_object_to_string(m: &serde_json::Map<String, serde_json::Value>) -> (r: Option<String>)
    ensures
        r is Some,
        r matches Some(s) ==> (json_depth(*m) <= JSON_MAX_DEPTH ==> json_object_of(s@) == Some(json_entries(*m))),
{
    serde_json::to_string(m).ok()
}

} // verus!
