//! JSON documents through `serde_json`. A `Value` is opaque to Verus: what
//! is known of a document is named (the document a text parses to, its
//! object members) and stated over those names.

use serde_json::Value;
use vstd::prelude::*;

verus! {

#[verifier::external_type_specification]
#[verifier::external_body]
pub struct ExJsonValue(Value);

#[verifier::external_type_specification]
#[verifier::external_body]
pub struct ExJsonError(serde_json::Error);

#[verifier::external_type_specification]
#[verifier::external_body]
#[verifier::reject_recursive_types(K)]
#[verifier::reject_recursive_types(V)]
pub struct ExJsonMap<K, V>(serde_json::Map<K, V>);

/// Whether `serde_json` accepts `text` as one JSON document (the outcome of
/// `serde_json::from_str::<Value>`, which depends on the text alone).
pub uninterp spec fn json_parses(text: Seq<char>) -> bool;

/// The document `serde_json::from_str::<Value>` makes of `text` (a function
/// of the text alone; meaningful where `json_parses(text)`).
pub uninterp spec fn json_value(text: Seq<char>) -> Value;

/// How deeply arrays and objects nest in a document: 0 for a scalar, one
/// more than its deepest member for an array or object.
pub uninterp spec fn json_depth(v: Value) -> nat;

/// How deeply the members of an object nest: the largest `json_depth` of a
/// member, 0 for an object without members.
pub uninterp spec fn json_map_depth(m: serde_json::Map<String, Value>) -> nat;

/// The deepest nesting `serde_json::from_str` reads: its recursion budget of
/// 128 is spent one level per array or object and fails on reaching zero.
pub open spec fn json_nesting_limit() -> nat {
    127
}

/// `serde_json::from_str::<Value>`: the parsed document, or the parse error.
/// It succeeds exactly when the text is JSON (within the nesting limit), with
/// the document of the text.
#[verifier::external_body]
pub(crate) fn json_parse(text: &str) -> (r: Result<Value, serde_json::Error>)
    ensures
        r is Ok <==> json_parses(text@),
        r matches Ok(v) ==> v == json_value(text@),
        r matches Ok(v) ==> json_depth(v) <= json_nesting_limit(),
{
    serde_json::from_str::<Value>(text)
}

/// The members of a document whose root is a JSON object, `None` for any
/// other document (what `Value::as_object` gives).
pub uninterp spec fn json_object(v: Value) -> Option<serde_json::Map<String, Value>>;

/// The document that is the object with members `m` (`Value::Object`).
pub uninterp spec fn json_object_value(m: serde_json::Map<String, Value>) -> Value;

/// The members `m` with `key` set to the JSON string `s` (what `Map::insert`
/// leaves): the member of that name replaced or added, the others as they
/// were.
pub uninterp spec fn json_map_with_str(
    m: serde_json::Map<String, Value>,
    key: Seq<char>,
    s: Seq<char>,
) -> serde_json::Map<String, Value>;

/// The indented text `serde_json::to_string_pretty` writes for a document.
pub uninterp spec fn json_pretty_text(v: Value) -> Seq<char>;

/// The members of a JSON object whose values are JSON strings, each with
/// its text (what the object holds, as far as strings go).
pub uninterp spec fn json_string_members(m: serde_json::Map<String, Value>) -> Map<
    Seq<char>,
    Seq<char>,
>;

/// The text of the string member `key` among `members`, if there is one.
pub open spec fn member_text(members: Map<Seq<char>, Seq<char>>, key: Seq<char>) -> Option<
    Seq<char>,
> {
    if members.contains_key(key) {
        Some(members[key])
    } else {
        None
    }
}

/// `Value::as_object`: the members of a JSON object, `None` for any other
/// value.
#[verifier::external_body]
pub(crate) fn json_as_object(v: &Value) -> (r: Option<&serde_json::Map<String, Value>>)
    ensures
        match r {
            Some(m) => json_object(*v) == Some(*m) && json_depth(*v) == 1 + json_map_depth(*m),
            None => json_object(*v) is None,
        },
{
    v.as_object()
}

/// `Map::get`, the member handed out as its text when it is a JSON string:
/// the text of the string member `key`, `None` when there is no member of
/// that name or it is not a string.
#[verifier::external_body]
pub(crate) fn json_map_get_str(m: &serde_json::Map<String, Value>, key: &str) -> (r: Option<
    String,
>)
    ensures
        match r {
            Some(t) => json_string_members(*m).contains_key(key@) && json_string_members(
                *m,
            )[key@] == t@,
            None => !json_string_members(*m).contains_key(key@),
        },
{
    match m.get(key) {
        Some(Value::String(t)) => Some(t.clone()),
        _ => None,
    }
}

/// The members of a JSON object whose values are integers that fit `u64`,
/// each with its number.
pub uninterp spec fn json_u64_members(m: serde_json::Map<String, Value>) -> Map<Seq<char>, u64>;

/// `Map::get`, the member handed out as its number when it is an integer
/// that fits `u64` (`Value::as_u64`): `None` when there is no member of that
/// name or it is not such a number.
#[verifier::external_body]
pub(crate) fn json_map_get_u64(m: &serde_json::Map<String, Value>, key: &str) -> (r: Option<u64>)
    ensures
        match r {
            Some(n) => json_u64_members(*m).contains_key(key@) && json_u64_members(*m)[key@] == n,
            None => !json_u64_members(*m).contains_key(key@),
        },
{
    match m.get(key) {
        Some(v) => v.as_u64(),
        None => None,
    }
}

/// `Value::as_object_mut`: the members of a JSON object, `None` for any
/// other value; what is done to the members is done to the document.
#[verifier::external_body]
pub(crate) fn json_as_object_mut(v: &mut Value) -> (r: Option<&mut serde_json::Map<String, Value>>)
    ensures
        match r {
            Some(m) => {
                &&& json_object(*old(v)) == Some(*m)
                &&& json_depth(*old(v)) == 1 + json_map_depth(*m)
                &&& *final(v) == json_object_value(*final(m))
                &&& json_object(*final(v)) == Some(*final(m))
                &&& json_depth(*final(v)) == 1 + json_map_depth(*final(m))
            },
            None => json_object(*old(v)) is None && *final(v) == *old(v),
        },
{
    v.as_object_mut()
}

/// Whether a document is JSON `null` (what `Value::is_null` gives).
pub uninterp spec fn json_null(v: Value) -> bool;

/// `Value::is_null`: whether the value is JSON `null`.
#[verifier::external_body]
pub(crate) fn json_is_null(v: &Value) -> (r: bool)
    ensures
        r == json_null(*v),
        r ==> json_object(*v) is None,
{
    v.is_null()
}

/// `Map::insert` of the JSON string `s` (`Value::String`) under `key`:
/// the member is set, replacing any member of that name.
#[verifier::external_body]
pub(crate) fn json_map_insert_str(m: &mut serde_json::Map<String, Value>, key: String, s: String)
    ensures
        *final(m) == json_map_with_str(*old(m), key@, s@),
        json_string_members(*final(m)) == json_string_members(*old(m)).insert(key@, s@),
        json_map_depth(*final(m)) <= json_map_depth(*old(m)),
{
    m.insert(key, Value::String(s));
}

/// Whether a document is an object without string members.
pub open spec fn json_empty_doc(doc: Value) -> bool {
    json_object(doc) matches Some(m) && json_string_members(m) =~= Map::empty()
}

/// `Value::Object(serde_json::Map::new())`: an empty JSON object.
#[verifier::external_body]
pub(crate) fn json_empty_object() -> (doc: Value)
    ensures
        json_empty_doc(doc),
        json_depth(doc) == 1,
{
    Value::Object(serde_json::Map::new())
}

/// The string members of the object a text parses to, `None` when its root
/// is not an object.
pub open spec fn doc_strings(text: Seq<char>) -> Option<Map<Seq<char>, Seq<char>>> {
    match json_object(json_value(text)) {
        Some(m) => Some(json_string_members(m)),
        None => None,
    }
}

/// `serde_json::to_string_pretty`: the document as indented JSON text. A
/// `Value` always serializes (its map keys are strings and its `Serialize`
/// never fails). When the document nests within what `from_str` reads, the
/// text parses again, and an object comes back as an object with the same
/// string members (strings are written escaped and read back unescaped).
/// Nothing more is stated of the read-back (a float need not come back to
/// the same value).
#[verifier::external_body]
pub(crate) fn json_to_string_pretty(v: &Value) -> (r: Result<String, serde_json::Error>)
    ensures
        r is Ok,
        r matches Ok(s) ==> s@ == json_pretty_text(*v),
        r matches Ok(s) ==> (json_depth(*v) <= json_nesting_limit() ==> json_parses(s@)),
        r matches Ok(s) ==> (json_depth(*v) <= json_nesting_limit() && json_object(*v) is Some
            ==> doc_strings(s@) == Some(json_string_members(json_object(*v)->0))),
{
    serde_json::to_string_pretty(v)
}

/// The `Display` text of a `serde_json` error. Nothing is stated of it.
#[verifier::external_body]
pub(crate) fn json_error_text(e: &serde_json::Error) -> String {
    e.to_string()
}

} // verus!
