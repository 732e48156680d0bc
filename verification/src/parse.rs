//! The trusted boundary to the JSON parser: one wrapper around
//! `serde_json::from_str`, whose result is rebuilt as the library's own tree.

use vstd::prelude::*;
use crate::json::{obj_keys_unique, Json, JsonV};

verus! {

#[verifier::external_type_specification]
#[verifier::external_body]
pub struct ExValue(serde_json::Value);

/// What parsing a line yields: the parse is a function of the text alone,
/// `None` where the text is not one valid JSON document.
pub uninterp spec fn parse_of(s: Seq<char>) -> Option<JsonV>;

/// Maps each variant of `serde_json::Value` one for one onto the library's
/// own tree: null, booleans and strings as themselves, a number that is a
/// signed 64-bit integer as `Int`, any other number as its literal text,
/// arrays and objects element by element (object keys keep serde_json's
/// order, each key bound once).
#[verifier::external_body]
fn json_of_value(v: serde_json::Value) -> Json {
    match v {
        serde_json::Value::Null => Json::Null,
        serde_json::Value::Bool(b) => Json::Bool(b),
        serde_json::Value::Number(n) => match n.as_i64() {
            Some(i) => Json::Int(i),
            None => Json::Num(n.to_string()),
        },
        serde_json::Value::String(s) => Json::Str(s),
        serde_json::Value::Array(a) => Json::Arr(a.into_iter().map(json_of_value).collect()),
        serde_json::Value::Object(m) => Json::Obj(
            m.into_iter().map(|(k, w)| (k, json_of_value(w))).collect(),
        ),
    }
}

/// Relies on `serde_json::from_str`: it returns `Ok` exactly on the texts
/// that are one valid JSON document (RFC 8259) and `Err` on every other
/// text, and the value it returns is a function of the text alone. Its
/// objects are maps, so each object binds a key once.
#[verifier::external_body]
pub(crate) fn parse_json_line(line: &str) -> (r: Option<Json>)
    ensures
        match r {
            Some(j) => parse_of(line@) == Some(j@) && obj_keys_unique(j@),
            None => parse_of(line@) is None,
        },
{
    match serde_json::from_str::<serde_json::Value>(line) {
        Ok(v) => Some(json_of_value(v)),
        Err(_) => None,
    }
}

} // verus!
