//! JSON documents, built and serialised with `serde_json`.
//!
//! [`Value`] and its object type are opaque to the proofs. [`json_of`] and
//! [`entries_of`] name what they hold, as a [`Json`] tree; [`json_text`] names
//! the bytes that `serde_json` writes for a tree.

use serde_json::Value;
use vstd::prelude::*;

verus! {

/// `serde_json::Value`, a JSON document.
#[verifier::external_type_specification]
#[verifier::external_body]
pub struct ExValue(serde_json::Value);

/// `serde_json::Map`, the members of a JSON object.
#[verifier::external_type_specification]
#[verifier::external_body]
#[verifier::reject_recursive_types(K)]
#[verifier::reject_recursive_types(V)]
pub struct ExObject<K, V>(serde_json::Map<K, V>);

/// A JSON document as a mathematical value. The members of an object have no
/// order. A number is an integer below zero, an integer from zero on, or a
/// floating-point number given by its bits.
pub enum Json {
    Null,
    Bool(bool),
    Unsigned(u64),
    Negative(i64),
    Floating(u64),
    Text(Seq<char>),
    Array(Seq<Json>),
    Object(Map<Seq<char>, Json>),
}

/// The members of the empty object.
pub open spec fn no_entries() -> Map<Seq<char>, Json> {
    Map::empty()
}

/// The document that a [`Value`] holds.
pub uninterp spec fn json_of(v: Value) -> Json;

/// The members that a `serde_json::Map` holds, by name.
pub uninterp spec fn entries_of(m: serde_json::Map<String, Value>) -> Map<Seq<char>, Json>;

/// What `serde_json::to_vec` makes of a document: its compact text in UTF-8,
/// or nothing where it reports an error.
pub uninterp spec fn json_text(document: Json) -> Option<Seq<u8>>;

/// `<Value as From<u64>>::from`: the number `n`.
#[verifier::external_body]
pub(crate) fn number(n: u64) -> (r: Value)
    ensures
        json_of(r) == Json::Unsigned(n),
{
    Value::from(n)
}

/// `<Value as From<bool>>::from`: the truth value `b`.
#[verifier::external_body]
pub(crate) fn truth(b: bool) -> (r: Value)
    ensures
        json_of(r) == Json::Bool(b),
{
    Value::from(b)
}

/// `<Value as From<String>>::from`: the string `s`.
#[verifier::external_body]
pub(crate) fn string(s: String) -> (r: Value)
    ensures
        json_of(r) == Json::Text(s@),
{
    Value::from(s)
}

/// `Value::Object`: the object with the members of `m`.
#[verifier::external_body]
pub(crate) fn object(m: serde_json::Map<String, Value>) -> (r: Value)
    ensures
        json_of(r) == Json::Object(entries_of(m)),
{
    Value::Object(m)
}

/// Takes the members out of `Value::Object`; any other document has none.
#[verifier::external_body]
pub(crate) fn into_object(v: Value) -> (r: Option<serde_json::Map<String, Value>>)
    ensures
        (r is Some) == (json_of(v) is Object),
        r matches Some(m) ==> json_of(v) == Json::Object(entries_of(m)),
{
    match v {
        Value::Object(m) => Some(m),
        _ => None,
    }
}

/// `serde_json::Map::new`: no members.
#[verifier::external_body]
pub(crate) fn no_members() -> (r: serde_json::Map<String, Value>)
    ensures
        entries_of(r) == no_entries(),
{
    serde_json::Map::new()
}

/// `serde_json::Map::insert`: the member `name` becomes `v`, whether or not
/// there was one before.
#[verifier::external_body]
pub(crate) fn insert(m: &mut serde_json::Map<String, Value>, name: String, v: Value)
    ensures
        entries_of(*final(m)) == entries_of(*old(m)).insert(name@, json_of(v)),
{
    m.insert(name, v);
}

/// `<serde_json::Map as IntoIterator>::into_iter`: each member is handed out,
/// and nothing else.
#[verifier::external_body]
pub(crate) fn into_members(m: serde_json::Map<String, Value>) -> (r: Vec<(String, Value)>)
    ensures
        forall|i: int|
            0 <= i < r@.len() ==> entries_of(m).dom().contains((#[trigger] r@[i]).0@)
                && entries_of(m)[r@[i].0@] == json_of(r@[i].1),
        forall|name: Seq<char>| #[trigger]
            entries_of(m).dom().contains(name) ==> exists|i: int|
                0 <= i < r@.len() && (#[trigger] r@[i]).0@ == name,
{
    m.into_iter().collect()
}

/// `serde_json::to_vec` on a [`Value`]: the text that [`json_text`] names, and
/// nothing where the call reports an error.
#[verifier::external_body]
pub(crate) fn to_vec(v: &Value) -> (r: Option<Vec<u8>>)
    ensures
        (r is Some) == (json_text(json_of(*v)) is Some),
        r matches Some(text) ==> json_text(json_of(*v)) == Some(text@),
{
    serde_json::to_vec(v).ok()
}

/// The text of a document, and no bytes where it cannot be written.
pub open spec fn text_or_empty(document: Json) -> Seq<u8> {
    match json_text(document) {
        Some(text) => text,
        None => Seq::empty(),
    }
}

/// Serialises `v`. A document that cannot be written gives no bytes.
pub fn to_bytes(v: &Value) -> (r: Vec<u8>)
    ensures
        r@ == text_or_empty(json_of(*v)),
{
    match to_vec(v) {
        Some(text) => text,
        None => Vec::new(),
    }
}

/// An object with one member.
pub open spec fn object1(name: Seq<char>, v: Json) -> Json {
    Json::Object(no_entries().insert(name, v))
}

/// An object with two members.
pub open spec fn object2(name1: Seq<char>, v1: Json, name2: Seq<char>, v2: Json) -> Json {
    Json::Object(no_entries().insert(name1, v1).insert(name2, v2))
}

/// Adds a member to an object.
pub(crate) fn put(members: &mut serde_json::Map<String, Value>, name: &str, v: Value)
    ensures
        entries_of(*final(members)) == entries_of(*old(members)).insert(name@, json_of(v)),
{
    insert(members, name.to_owned(), v);
}

/// Makes an object with one member.
pub(crate) fn one(name: &str, v: Value) -> (r: Value)
    ensures
        json_of(r) == object1(name@, json_of(v)),
{
    let mut members = no_members();
    put(&mut members, name, v);
    object(members)
}

/// Makes an object with two members.
pub(crate) fn two(name1: &str, v1: Value, name2: &str, v2: Value) -> (r: Value)
    ensures
        json_of(r) == object2(name1@, json_of(v1), name2@, json_of(v2)),
{
    let mut members = no_members();
    put(&mut members, name1, v1);
    put(&mut members, name2, v2);
    object(members)
}

/// Makes a string out of a literal.
pub(crate) fn literal(s: &str) -> (r: Value)
    ensures
        json_of(r) == Json::Text(s@),
{
    string(s.to_owned())
}

} // verus!
