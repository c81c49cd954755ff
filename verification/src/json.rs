//! JSON documents. They are values of the `serde_json` crate; what the
//! verifier knows of such a value is the document that it holds, [`json_of`],
//! and what the functions in this file say of it.

use serde_json::Value;
use vstd::prelude::*;

verus! {

/// A number of a JSON document.
pub enum JsonNumber {
    /// An integer from 0 to the greatest `u64`.
    Natural(u64),
    /// A negative integer.
    Negative(i64),
    /// Any other number, by the bits of its floating-point form.
    Float(u64),
}

/// A JSON document.
pub enum Json {
    Null,
    Bool(bool),
    Number(JsonNumber),
    Text(Seq<char>),
    Array(Seq<Json>),
    Object(Map<Seq<char>, Json>),
}

/// The member of an object under a key.
pub open spec fn member(j: Json, key: Seq<char>) -> Option<Json> {
    match j {
        Json::Object(m) => if m.contains_key(key) {
            Some(m[key])
        } else {
            None
        },
        _ => None,
    }
}

/// The member under a key of a document that there may be.
pub open spec fn member_of(j: Option<Json>, key: Seq<char>) -> Option<Json> {
    match j {
        Some(d) => member(d, key),
        None => None,
    }
}

/// The text of a document that is one.
pub open spec fn text_of(j: Json) -> Option<Seq<char>> {
    match j {
        Json::Text(s) => Some(s),
        _ => None,
    }
}

/// The integer of a document that is one which fits `i64`.
pub open spec fn int_of(j: Json) -> Option<i64> {
    match j {
        Json::Number(JsonNumber::Natural(n)) => if n <= i64::MAX {
            Some(n as i64)
        } else {
            None
        },
        Json::Number(JsonNumber::Negative(n)) => Some(n),
        _ => None,
    }
}

/// The integer of a document that is one from 0 on.
pub open spec fn natural_of(j: Json) -> Option<u64> {
    match j {
        Json::Number(JsonNumber::Natural(n)) => Some(n),
        _ => None,
    }
}

/// The truth value of a document that is one.
pub open spec fn bool_of(j: Json) -> Option<bool> {
    match j {
        Json::Bool(b) => Some(b),
        _ => None,
    }
}

/// The items of a document that is an array.
pub open spec fn items_of(j: Json) -> Option<Seq<Json>> {
    match j {
        Json::Array(a) => Some(a),
        _ => None,
    }
}

/// The members of a document; none where it is no object.
pub open spec fn members(j: Json) -> Map<Seq<char>, Json> {
    match j {
        Json::Object(m) => m,
        _ => Map::empty(),
    }
}

/// Whether the document nests arrays and objects no deeper than `depth`, and
/// has no number with a fraction or an exponent.
pub open spec fn plain(j: Json, depth: nat) -> bool
    decreases depth,
{
    match j {
        Json::Number(JsonNumber::Float(_)) => false,
        Json::Array(a) => depth > 0 && forall|i: int|
            0 <= i < a.len() ==> plain(#[trigger] a[i], (depth - 1) as nat),
        Json::Object(m) => depth > 0 && forall|k: Seq<char>|
            m.contains_key(k) ==> plain(#[trigger] m[k], (depth - 1) as nat),
        _ => true,
    }
}

/// How deep a document may nest that is read from text.
pub const MAX_DEPTH: u8 = 127;

/// `serde_json::Value`, a JSON document in memory.
#[verifier::external_type_specification]
#[verifier::external_body]
pub struct ExValue(serde_json::Value);

/// The document that a value holds. An object maps each key to one member;
/// the order of its keys is not part of it, since `serde_json` keeps the
/// members of an object sorted by key.
pub uninterp spec fn json_of(v: Value) -> Json;

/// The document that a text denotes, as `serde_json::from_str` reads it, or what
/// that says of a text that denotes none.
pub uninterp spec fn reading(text: Seq<char>) -> Result<Json, Seq<char>>;

/// The document that a text denotes, if any.
pub open spec fn parsed(text: Seq<char>) -> Option<Json> {
    match reading(text) {
        Ok(j) => Some(j),
        Err(_) => None,
    }
}

/// What is said of a text that denotes no document.
pub open spec fn parse_error(text: Seq<char>) -> Seq<char> {
    match reading(text) {
        Ok(_) => seq![],
        Err(m) => m,
    }
}

/// The text of a document over several lines, as `serde_json::to_string_pretty`
/// writes it.
pub uninterp spec fn pretty_text(j: Json) -> Seq<char>;

/// The text of a document on one line, as the `Display` form of
/// `serde_json::Value` writes it.
pub uninterp spec fn compact_text(j: Json) -> Seq<char>;

/// `serde_json::from_str`, with the message of its error as text: whether a text
/// denotes a document, which one, and what the message says where it does not,
/// depends on the text alone. What JSON texts look like is not stated.
#[verifier::external_body]
pub(crate) fn parse(text: &str) -> (r: Result<Value, String>)
    ensures
        reading(text@) == (match r {
            Ok(v) => Ok(json_of(v)),
            Err(m) => Err(m@),
        }),
{
    serde_json::from_str::<Value>(text).map_err(|e| e.to_string())
}

/// `serde_json::to_string_pretty` on a value: it succeeds, the text depends on
/// the document alone, and reading it gives the document back, where that
/// nests no deeper than a reader accepts and has no number with a fraction or
/// an exponent. What the text looks like is not stated.
#[verifier::external_body]
pub(crate) fn pretty(v: &Value) -> (r: String)
    ensures
        r@ == pretty_text(json_of(*v)),
        plain(json_of(*v), MAX_DEPTH as nat) ==> parsed(r@) == Some(json_of(*v)),
{
    serde_json::to_string_pretty(v).unwrap()
}

/// The `Display` form of a `serde_json::Value`: the text depends on the
/// document alone, and reading it gives the document back, where that nests no
/// deeper than a reader accepts and has no number with a fraction or an
/// exponent. It is one line: a line feed in a string is written as an escape.
/// What the text looks like otherwise is not stated.
#[verifier::external_body]
pub(crate) fn compact(v: &Value) -> (r: String)
    ensures
        r@ == compact_text(json_of(*v)),
        !r@.contains('\n'),
        plain(json_of(*v), MAX_DEPTH as nat) ==> parsed(r@) == Some(json_of(*v)),
{
    v.to_string()
}

/// `Value::get` with a string: the member of an object under that key.
#[verifier::external_body]
pub(crate) fn get<'a>(v: &'a Value, key: &str) -> (r: Option<&'a Value>)
    ensures
        match r {
            Some(x) => member(json_of(*v), key@) == Some(json_of(*x)),
            None => member(json_of(*v), key@) is None,
        },
{
    v.get(key)
}

/// `Value::as_str`: the text of a string.
#[verifier::external_body]
pub(crate) fn as_text(v: &Value) -> (r: Option<&str>)
    ensures
        match r {
            Some(s) => text_of(json_of(*v)) == Some(s@),
            None => text_of(json_of(*v)) is None,
        },
{
    v.as_str()
}

/// `Value::as_i64`: the value of an integer that fits.
#[verifier::external_body]
pub(crate) fn as_int(v: &Value) -> (r: Option<i64>)
    ensures
        r == int_of(json_of(*v)),
{
    v.as_i64()
}

/// `Value::as_u64`: the value of an integer from 0 on.
#[verifier::external_body]
pub(crate) fn as_natural(v: &Value) -> (r: Option<u64>)
    ensures
        r == natural_of(json_of(*v)),
{
    v.as_u64()
}

/// `Value::as_bool`: the value of a boolean.
#[verifier::external_body]
pub(crate) fn as_truth(v: &Value) -> (r: Option<bool>)
    ensures
        r == bool_of(json_of(*v)),
{
    v.as_bool()
}

/// `Value::as_array`: the items of an array, in order.
#[verifier::external_body]
pub(crate) fn as_items(v: &Value) -> (r: Option<&Vec<Value>>)
    ensures
        match r {
            Some(a) => items_of(json_of(*v)) == Some(a@.map_values(|x: Value| json_of(x))),
            None => items_of(json_of(*v)) is None,
        },
{
    v.as_array()
}

/// `Value::is_object`.
#[verifier::external_body]
pub(crate) fn is_object(v: &Value) -> (r: bool)
    ensures
        r == (json_of(*v) is Object),
{
    v.is_object()
}

/// `Value::clone`: a value that holds the same document.
#[verifier::external_body]
pub(crate) fn copy(v: &Value) -> (r: Value)
    ensures
        json_of(r) == json_of(*v),
{
    v.clone()
}

/// `Value::Null`.
#[verifier::external_body]
pub(crate) fn null() -> (r: Value)
    ensures
        json_of(r) == Json::Null,
{
    Value::Null
}

/// An object of `serde_json::Map::new`: it has no member.
#[verifier::external_body]
pub(crate) fn object() -> (r: Value)
    ensures
        json_of(r) == Json::Object(Map::empty()),
{
    Value::Object(serde_json::Map::new())
}

/// `Value::String` of a text.
#[verifier::external_body]
pub(crate) fn string(s: &str) -> (r: Value)
    ensures
        json_of(r) == Json::Text(s@),
{
    Value::String(s.to_string())
}

/// `Value::Array` of the given items.
#[verifier::external_body]
pub(crate) fn array(items: Vec<Value>) -> (r: Value)
    ensures
        json_of(r) == Json::Array(items@.map_values(|x: Value| json_of(x))),
{
    Value::Array(items)
}

/// `Value::Bool` of a truth value.
#[verifier::external_body]
pub(crate) fn boolean(b: bool) -> (r: Value)
    ensures
        json_of(r) == Json::Bool(b),
{
    Value::Bool(b)
}

/// `Value::from` of a `u64`.
#[verifier::external_body]
pub(crate) fn natural(n: u64) -> (r: Value)
    ensures
        json_of(r) == Json::Number(JsonNumber::Natural(n)),
{
    Value::from(n)
}

/// `serde_json::Map::insert` on an object: the key has the new member, the
/// others stay.
#[verifier::external_body]
pub(crate) fn insert(v: &mut Value, key: &str, x: Value)
    requires
        json_of(*old(v)) is Object,
    ensures
        json_of(*final(v)) == Json::Object(
            members(json_of(*old(v))).insert(key@, json_of(x)),
        ),
{
    if let Value::Object(m) = v {
        m.insert(key.to_string(), x);
    }
}

/// `serde_json::Map::remove` on an object: the key has no member any more, the
/// others stay, and the member that it had is returned. A value that is no
/// object stays as it is.
#[verifier::external_body]
pub(crate) fn remove(v: &mut Value, key: &str) -> (r: Option<Value>)
    ensures
        json_of(*final(v)) == (match json_of(*old(v)) {
            Json::Object(m) => Json::Object(m.remove(key@)),
            j => j,
        }),
        match r {
            Some(x) => member(json_of(*old(v)), key@) == Some(json_of(x)),
            None => member(json_of(*old(v)), key@) is None,
        },
{
    match v {
        Value::Object(m) => m.remove(key),
        _ => None,
    }
}

/// `Vec::push` on the items of an array: the item comes last.
#[verifier::external_body]
pub(crate) fn add_item(v: &mut Value, x: Value)
    requires
        json_of(*old(v)) is Array,
    ensures
        json_of(*final(v)) == Json::Array(items_of(json_of(*old(v)))->0.push(json_of(x))),
{
    if let Value::Array(a) = v {
        a.push(x);
    }
}

} // verus!
