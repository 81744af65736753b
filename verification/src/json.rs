//! JSON: what a document holds, and the calls that read and write one.
//!
//! The records the player keeps and the replies it gets are JSON. The documents
//! themselves are `serde_json`'s; this module says what each call on one does,
//! over a model of what a document holds.

use serde_json::{Number, Value};
use vstd::prelude::*;

verus! {

/// A JSON document, parsed.
#[verifier::external_type_specification]
#[verifier::external_body]
pub struct ExValue(Value);

/// A number in a JSON document.
#[verifier::external_type_specification]
#[verifier::external_body]
pub struct ExNumber(Number);

/// What a number in a document is: a whole number that is not negative, one that
/// is, or the bits of a double-precision one.
pub enum Figure {
    Unsigned(u64),
    Negative(i64),
    Double(u64),
}

/// What a document holds.
pub enum Json {
    Null,
    Bool(bool),
    Number(Figure),
    Text(Seq<char>),
    Array(Seq<Json>),
    Object(Map<Seq<char>, Json>),
}

/// What a parsed document holds.
pub uninterp spec fn contents(v: Value) -> Json;

/// What a number is.
pub uninterp spec fn figure(n: Number) -> Figure;

/// What the bytes of a document hold, when they are one.
pub uninterp spec fn parsed(bytes: Seq<u8>) -> Option<Json>;

/// A document written out, with nothing between its parts.
pub uninterp spec fn printed(json: Json) -> Seq<u8>;

/// A document written out over several lines, for people to read.
pub uninterp spec fn printed_pretty(json: Json) -> Seq<u8>;

/// A whole number as the bits of the double-precision number closest to it.
pub uninterp spec fn nearest_double(n: Figure) -> u64;

/// What a list of documents holds.
pub open spec fn all_contents(values: Seq<Value>) -> Seq<Json> {
    values.map_values(|v: Value| contents(v))
}

/// What stands under a key, and `Null` where nothing does.
pub open spec fn member(json: Json, key: Seq<char>) -> Json {
    match json {
        Json::Object(fields) => if fields.contains_key(key) {
            fields[key]
        } else {
            Json::Null
        },
        _ => Json::Null,
    }
}

/// The entries of a list, where there is one.
pub open spec fn entries(json: Json) -> Option<Seq<Json>> {
    match json {
        Json::Array(items) => Some(items),
        _ => None,
    }
}

pub open spec fn text(json: Json) -> Option<Seq<char>> {
    match json {
        Json::Text(s) => Some(s),
        _ => None,
    }
}

pub open spec fn truth(json: Json) -> Option<bool> {
    match json {
        Json::Bool(b) => Some(b),
        _ => None,
    }
}

/// The whole number a document is, when it is one that is not negative.
pub open spec fn unsigned(json: Json) -> Option<u64> {
    match json {
        Json::Number(Figure::Unsigned(n)) => Some(n),
        _ => None,
    }
}

/// The whole number a document is, when it is one that a signed counter holds.
pub open spec fn signed(json: Json) -> Option<i64> {
    match json {
        Json::Number(Figure::Unsigned(n)) => if n <= i64::MAX {
            Some(n as i64)
        } else {
            None
        },
        Json::Number(Figure::Negative(n)) => Some(n),
        _ => None,
    }
}

/// The bits of a number in double precision.
pub open spec fn double(json: Json) -> Option<u64> {
    match json {
        Json::Number(Figure::Double(bits)) => Some(bits),
        Json::Number(n) => Some(nearest_double(n)),
        _ => None,
    }
}

/// Past this, the bits without the sign are those of no finite number.
pub const DOUBLE_INFINITE: u64 = 0x7ff0_0000_0000_0000;

pub const DOUBLE_SIGN: u64 = 0x8000_0000_0000_0000;

/// Whether the bits are those of a finite double-precision number.
pub open spec fn finite_double(bits: u64) -> bool {
    bits < DOUBLE_INFINITE || DOUBLE_SIGN <= bits < DOUBLE_SIGN + DOUBLE_INFINITE
}

/// The figure a signed whole number is.
pub open spec fn signed_figure(n: i64) -> Figure {
    if n < 0 {
        Figure::Negative(n)
    } else {
        Figure::Unsigned(n as u64)
    }
}

/// How many levels of lists and objects a reader goes into before it gives up.
pub const DEEPEST: u64 = 127;

/// Whether a document has lists and objects inside each other to at most so many
/// levels.
pub open spec fn nested_within(json: Json, levels: nat) -> bool
    decreases levels,
{
    match json {
        Json::Array(items) => levels > 0 && forall|i: int|
            0 <= i < items.len() ==> nested_within(#[trigger] items[i], (levels - 1) as nat),
        Json::Object(fields) => levels > 0 && forall|key: Seq<char>|
            fields.contains_key(key) ==> nested_within(
                #[trigger] fields[key],
                (levels - 1) as nat,
            ),
        _ => true,
    }
}

/// `serde_json::from_slice`: the document the bytes spell, or nothing when they
/// spell none.
#[verifier::external_body]
pub(crate) fn parse(bytes: &[u8]) -> (r: Option<Value>)
    ensures
        r is Some <==> parsed(bytes@) is Some,
        r matches Some(v) ==> parsed(bytes@) == Some(contents(v)),
{
    serde_json::from_slice(bytes).ok()
}

/// Indexing a `serde_json::Value` by a key: what stands under it, and `null` when
/// nothing does or the document is no object.
#[verifier::external_body]
pub(crate) fn field<'a>(v: &'a Value, key: &str) -> (r: &'a Value)
    ensures
        contents(*r) == member(contents(*v), key@),
{
    &v[key]
}

/// `Value::is_null`.
#[verifier::external_body]
pub(crate) fn is_null(v: &Value) -> (r: bool)
    ensures
        r == (contents(*v) is Null),
{
    v.is_null()
}

/// `Value::as_array`: the entries of a list, in order.
#[verifier::external_body]
pub(crate) fn as_array(v: &Value) -> (r: Option<&Vec<Value>>)
    ensures
        r is Some <==> entries(contents(*v)) is Some,
        r matches Some(items) ==> entries(contents(*v)) == Some(all_contents(items@)),
{
    v.as_array()
}

/// `Value::as_str`.
#[verifier::external_body]
pub(crate) fn as_str(v: &Value) -> (r: Option<&str>)
    ensures
        r is Some <==> text(contents(*v)) is Some,
        r matches Some(s) ==> text(contents(*v)) == Some(s@),
{
    v.as_str()
}

/// `Value::as_u64`: the number, when it is a whole one from nought to `u64::MAX`.
#[verifier::external_body]
pub(crate) fn as_u64(v: &Value) -> (r: Option<u64>)
    ensures
        r == unsigned(contents(*v)),
{
    v.as_u64()
}

/// `Value::as_i64`: the number, when it is a whole one that an `i64` holds.
#[verifier::external_body]
pub(crate) fn as_i64(v: &Value) -> (r: Option<i64>)
    ensures
        r == signed(contents(*v)),
{
    v.as_i64()
}

/// `Value::as_bool`.
#[verifier::external_body]
pub(crate) fn as_bool(v: &Value) -> (r: Option<bool>)
    ensures
        r == truth(contents(*v)),
{
    v.as_bool()
}

/// `Value::as_f64`, by its bits: a number in double precision, itself when it was
/// read as one and the closest there is when it was read as a whole number. A
/// document holds no number that is not finite.
#[verifier::external_body]
pub(crate) fn as_double(v: &Value) -> (r: Option<u64>)
    ensures
        r == (match contents(*v) {
            Json::Number(Figure::Double(bits)) => Some(bits),
            Json::Number(n) => Some(nearest_double(n)),
            _ => None,
        }),
        r matches Some(bits) ==> finite_double(bits),
{
    v.as_f64().map(|x| x.to_bits())
}

/// `Value::Null`.
#[verifier::external_body]
pub(crate) fn null() -> (v: Value)
    ensures
        contents(v) == Json::Null,
{
    Value::Null
}

/// `Value::Bool`.
#[verifier::external_body]
pub(crate) fn of_bool(b: bool) -> (v: Value)
    ensures
        contents(v) == Json::Bool(b),
{
    Value::Bool(b)
}

/// `Value::from` a `u64`.
#[verifier::external_body]
pub(crate) fn of_u64(n: u64) -> (v: Value)
    ensures
        contents(v) == Json::Number(Figure::Unsigned(n)),
{
    Value::from(n)
}

/// `Value::from` an `i64`, which keeps negative numbers apart from the others.
#[verifier::external_body]
pub(crate) fn of_i64(n: i64) -> (v: Value)
    ensures
        contents(v) == Json::Number(signed_figure(n)),
{
    Value::from(n)
}

/// `Value::from` a `&str`.
#[verifier::external_body]
pub(crate) fn of_str(s: &str) -> (v: Value)
    ensures
        contents(v) == Json::Text(s@),
{
    Value::from(s)
}

/// `Value::Number`, of a copy of the number.
#[verifier::external_body]
pub(crate) fn of_number(n: &Number) -> (v: Value)
    ensures
        contents(v) == Json::Number(figure(*n)),
{
    Value::Number(n.clone())
}

/// `Value::Array`.
#[verifier::external_body]
pub(crate) fn of_array(items: Vec<Value>) -> (v: Value)
    ensures
        contents(v) == Json::Array(all_contents(items@)),
{
    Value::Array(items)
}

/// `Value::Object` of an empty `serde_json::Map`.
#[verifier::external_body]
pub(crate) fn empty_object() -> (v: Value)
    ensures
        contents(v) == Json::Object(Map::empty()),
{
    Value::Object(serde_json::Map::new())
}

/// Assigning to a key of a `serde_json::Value` that is an object: the key is put
/// in where it was missing, and what it led to replaced where it was not. Any
/// other document has no keys to assign to.
#[verifier::external_body]
pub(crate) fn put(v: &mut Value, key: &str, item: Value)
    requires
        contents(*old(v)) is Object,
    ensures
        contents(*final(v)) == Json::Object(
            contents(*old(v))->Object_0.insert(key@, contents(item)),
        ),
{
    v[key] = item;
}

/// The fields of an object with a text put in under a key, when there is one to
/// put in. What is not there is left out rather than written as `null`.
pub open spec fn with_text(
    fields: Map<Seq<char>, Json>,
    key: Seq<char>,
    value: Option<Seq<char>>,
) -> Map<Seq<char>, Json> {
    match value {
        Some(s) => fields.insert(key, Json::Text(s)),
        None => fields,
    }
}

/// Puts a text in under a key, when there is one.
pub(crate) fn put_text(v: &mut Value, key: &str, value: Option<&str>)
    requires
        contents(*old(v)) is Object,
    ensures
        contents(*final(v)) == Json::Object(
            with_text(
                contents(*old(v))->Object_0,
                key@,
                match value {
                    Some(s) => Some(s@),
                    None => None,
                },
            ),
        ),
{
    if let Some(s) = value {
        put(v, key, of_str(s));
    }
}

/// `serde_json::to_vec`: the document written out. Writing to memory never fails,
/// and reading the bytes back gives the same document, provided that it does not
/// go deeper than a reader follows.
#[verifier::external_body]
pub(crate) fn print(v: &Value) -> (r: Option<Vec<u8>>)
    ensures
        r is Some,
        r->0@ == printed(contents(*v)),
        nested_within(contents(*v), DEEPEST as nat) ==> parsed(r->0@) == Some(contents(*v)),
{
    serde_json::to_vec(v).ok()
}

/// `serde_json::to_vec_pretty`: the document written out for people to read. As
/// with [`print`], it never fails and reads back as the same document.
#[verifier::external_body]
pub(crate) fn print_pretty(v: &Value) -> (r: Option<Vec<u8>>)
    ensures
        r is Some,
        r->0@ == printed_pretty(contents(*v)),
        nested_within(contents(*v), DEEPEST as nat) ==> parsed(r->0@) == Some(contents(*v)),
{
    serde_json::to_vec_pretty(v).ok()
}

} // verus!
