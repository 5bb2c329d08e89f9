//! Reading JSON documents.
//!
//! Documents are parsed by `serde_json`; the library reads the values it gives
//! through the functions of this module.

use vstd::prelude::*;
use vstd::string::*;
use crate::text::views;

verus! {

#[verifier::external_type_specification]
#[verifier::external_body]
pub struct ExValue(serde_json::Value);

/// What a JSON value is. Of numbers only those matter that are kept as whole
/// ones.
pub ghost enum Json {
    Null,
    Bool(bool),
    Number(Option<int>),
    Text(Seq<char>),
    List(Seq<Json>),
    Record(Map<Seq<char>, Json>),
}

/// What a [`serde_json::Value`] holds.
pub uninterp spec fn json_of(v: serde_json::Value) -> Json;

/// What [`serde_json::from_str`] makes of a text: a value, or the text of an
/// error.
pub uninterp spec fn parsed(text: Seq<char>) -> Result<Json, Seq<char>>;

/// [`serde_json::from_str`] for a [`serde_json::Value`]; of an error its text is
/// kept. The grammar of JSON is not stated, only that the outcome is determined
/// by the text.
#[verifier::external_body]
pub(crate) fn parse(text: &str) -> (r: Result<serde_json::Value, String>)
    ensures
        match r {
            Ok(v) => parsed(text@) == Ok::<Json, Seq<char>>(json_of(v)),
            Err(e) => parsed(text@) == Err::<Json, Seq<char>>(e@),
        },
{
    serde_json::from_str::<serde_json::Value>(text).map_err(|e| e.to_string())
}

/// The value under a key, if `j` is a record that has it.
pub open spec fn field(j: Json, key: Seq<char>) -> Option<Json> {
    match j {
        Json::Record(m) => if m.dom().contains(key) {
            Some(m[key])
        } else {
            None
        },
        _ => None,
    }
}

/// [`serde_json::Value::get`] with a string: the value under a key of an object;
/// nothing for a missing key or for a value that is no object.
#[verifier::external_body]
pub(crate) fn get<'a>(v: &'a serde_json::Value, key: &str) -> (r: Option<&'a serde_json::Value>)
    ensures
        match r {
            Some(x) => field(json_of(*v), key@) == Some(json_of(*x)),
            None => field(json_of(*v), key@) is None,
        },
{
    v.get(key)
}

pub open spec fn text_of(j: Json) -> Option<Seq<char>> {
    match j {
        Json::Text(s) => Some(s),
        _ => None,
    }
}

/// [`serde_json::Value::as_str`]: the text of a string, nothing otherwise.
#[verifier::external_body]
pub(crate) fn as_str<'a>(v: &'a serde_json::Value) -> (r: Option<&'a str>)
    ensures
        match r {
            Some(s) => json_of(*v) == Json::Text(s@),
            None => !(json_of(*v) is Text),
        },
{
    v.as_str()
}

/// [`serde_json::Value::as_u64`]: a whole number that is not negative, nothing
/// otherwise.
#[verifier::external_body]
pub(crate) fn as_u64(v: &serde_json::Value) -> (r: Option<u64>)
    ensures
        match r {
            Some(n) => json_of(*v) == Json::Number(Some(n as int)),
            None => !(json_of(*v) matches Json::Number(Some(n)) && 0 <= n <= u64::MAX),
        },
{
    v.as_u64()
}

/// [`serde_json::Value::as_i64`]: a whole number that fits, nothing otherwise.
#[verifier::external_body]
pub(crate) fn as_i64(v: &serde_json::Value) -> (r: Option<i64>)
    ensures
        match r {
            Some(n) => json_of(*v) == Json::Number(Some(n as int)),
            None => !(json_of(*v) matches Json::Number(Some(n)) && i64::MIN <= n <= i64::MAX),
        },
{
    v.as_i64()
}

/// [`serde_json::Value::is_null`].
#[verifier::external_body]
pub(crate) fn is_null(v: &serde_json::Value) -> (r: bool)
    ensures
        r == (json_of(*v) is Null),
{
    v.is_null()
}

/// What the values of an array hold.
pub open spec fn jsons_of(v: Seq<serde_json::Value>) -> Seq<Json> {
    v.map_values(|x: serde_json::Value| json_of(x))
}

/// [`serde_json::Value::as_array`]: the values of an array, nothing otherwise.
#[verifier::external_body]
pub(crate) fn as_array<'a>(v: &'a serde_json::Value) -> (r: Option<&'a Vec<serde_json::Value>>)
    ensures
        match r {
            Some(a) => json_of(*v) == Json::List(jsons_of(a@)),
            None => !(json_of(*v) is List),
        },
{
    v.as_array()
}

/// [`serde_json::Value::as_object`] and the keys it gives: each key of an object
/// once, nothing for other values.
#[verifier::external_body]
pub(crate) fn keys(v: &serde_json::Value) -> (r: Option<Vec<String>>)
    ensures
        match r {
            Some(k) => json_of(*v) matches Json::Record(m) && views(k@).no_duplicates()
                && views(k@).to_set() == m.dom(),
            None => !(json_of(*v) is Record),
        },
{
    v.as_object().map(|o| o.keys().cloned().collect())
}

/// The clone of a [`serde_json::Value`] holds the same.
pub assume_specification[ <serde_json::Value as Clone>::clone ](v: &serde_json::Value) -> (r:
    serde_json::Value)
    ensures
        json_of(r) == json_of(*v),
;

/// The text under `key`, if there is one.
pub open spec fn text_field(j: Json, key: Seq<char>) -> Option<Seq<char>> {
    match field(j, key) {
        Some(x) => text_of(x),
        None => None,
    }
}

pub(crate) fn get_text<'a>(v: &'a serde_json::Value, key: &str) -> (r: Option<&'a str>)
    ensures
        match r {
            Some(s) => text_field(json_of(*v), key@) == Some(s@),
            None => text_field(json_of(*v), key@) is None,
        },
{
    match get(v, key) {
        Some(x) => as_str(x),
        None => None,
    }
}

/// The values of a list under `key`, if there is one.
pub open spec fn list_field(j: Json, key: Seq<char>) -> Option<Seq<Json>> {
    match field(j, key) {
        Some(Json::List(a)) => Some(a),
        _ => None,
    }
}

pub(crate) fn get_list<'a>(v: &'a serde_json::Value, key: &str) -> (r: Option<
    &'a Vec<serde_json::Value>,
>)
    ensures
        match r {
            Some(a) => list_field(json_of(*v), key@) == Some(jsons_of(a@)),
            None => list_field(json_of(*v), key@) is None,
        },
{
    match get(v, key) {
        Some(x) => as_array(x),
        None => None,
    }
}

/// The number under `key`, or zero where there is none that is whole and not negative.
pub open spec fn number_field(j: Json, key: Seq<char>) -> u64 {
    match field(j, key) {
        Some(Json::Number(Some(n))) => if 0 <= n <= u64::MAX {
            n as u64
        } else {
            0
        },
        _ => 0,
    }
}

pub(crate) fn get_number(v: &serde_json::Value, key: &str) -> (r: u64)
    ensures
        r == number_field(json_of(*v), key@),
{
    match get(v, key) {
        Some(x) => match as_u64(x) {
            Some(n) => n,
            None => 0,
        },
        None => 0,
    }
}

} // verus!
