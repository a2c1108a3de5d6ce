//! JSON values as the library builds and carries them (`serde_json::Value`).

use serde_json::Value;
use vstd::prelude::*;

verus! {

/// `serde_json::Value`, carried through the library without being inspected.
#[verifier::external_type_specification]
#[verifier::external_body]
pub struct ExValue(serde_json::Value);

/// The JSON string that `Value::String` makes of these chars.
pub uninterp spec fn json_text(s: Seq<char>) -> Value;

/// The JSON integer that `Value::from` makes of an `i64`.
pub uninterp spec fn json_integer(n: i64) -> Value;

/// The JSON array that `Value::Array` makes of these items.
pub uninterp spec fn json_array_of(items: Seq<Value>) -> Value;

/// The JSON object that `serde_json::Map`'s `FromIterator` makes of these fields.
pub uninterp spec fn json_object_of(fields: Seq<(Seq<char>, Value)>) -> Value;

/// What `Value::from` makes of an optional value.
pub uninterp spec fn json_option(o: Option<Value>) -> Value;

/// The JSON boolean that `Value::Bool` makes.
pub uninterp spec fn json_boolean(b: bool) -> Value;

/// The JSON number that `Value::from(usize)` makes.
pub uninterp spec fn json_count(n: nat) -> Value;

/// What `Value::is_null` says of a value.
pub uninterp spec fn json_null_test(v: Value) -> bool;

/// The fields of an object under construction, as texts and values.
pub open spec fn field_pairs(fields: Seq<(String, Value)>) -> Seq<(Seq<char>, Value)> {
    fields.map_values(|f: (String, Value)| (f.0@, f.1))
}

/// The empty JSON object.
pub open spec fn json_empty_object() -> Value {
    json_object_of(Seq::empty())
}

/// `Value::String`: the JSON string holding `s`.
#[verifier::external_body]
pub(crate) fn json_string(s: String) -> (v: Value)
    ensures
        v == json_text(s@),
{
    Value::String(s)
}

/// `Value::from(i64)`: the JSON number holding `n`.
#[verifier::external_body]
pub(crate) fn json_i64(n: i64) -> (v: Value)
    ensures
        v == json_integer(n),
{
    Value::from(n)
}

/// `Value::Bool`: the JSON boolean `b`.
#[verifier::external_body]
pub(crate) fn json_bool(b: bool) -> (v: Value)
    ensures
        v == json_boolean(b),
{
    Value::Bool(b)
}

/// `Value::from(usize)`: the JSON number holding `n`.
#[verifier::external_body]
pub(crate) fn json_usize(n: usize) -> (v: Value)
    ensures
        v == json_count(n as nat),
{
    Value::from(n)
}

/// `Value::Array`: the JSON array holding `items` in order.
#[verifier::external_body]
pub(crate) fn json_array(items: Vec<Value>) -> (v: Value)
    ensures
        v == json_array_of(items@),
{
    Value::Array(items)
}

/// `Value::Object` of the map that `serde_json::Map::from_iter` builds from `fields`.
#[verifier::external_body]
pub(crate) fn json_object(fields: Vec<(String, Value)>) -> (v: Value)
    ensures
        v == json_object_of(field_pairs(fields@)),
{
    Value::Object(fields.into_iter().collect())
}

/// `Value::from(Option<Value>)`: the inner value when there is one, JSON `null` otherwise.
#[verifier::external_body]
pub(crate) fn json_from_option(o: Option<Value>) -> (v: Value)
    ensures
        v == json_option(o),
        o matches Some(x) ==> v == x,
        o is None ==> json_null_test(v),
{
    Value::from(o)
}

/// `Value::is_null`.
#[verifier::external_body]
pub(crate) fn json_is_null(v: &Value) -> (b: bool)
    ensures
        b == json_null_test(*v),
{
    v.is_null()
}

/// `<Value as Clone>::clone`: a copy equal to the original.
#[verifier::external_body]
pub(crate) fn clone_value(v: &Value) -> (r: Value)
    ensures
        r == *v,
{
    v.clone()
}

/// The request parameters, with a missing (`null`) value read as the empty object.
pub fn params_or_object(params: Value) -> (r: Value)
    ensures
        r == (if json_null_test(params) {
            json_empty_object()
        } else {
            params
        }),
{
    if json_is_null(&params) {
        let fields: Vec<(String, Value)> = Vec::new();
        proof {
            assert(field_pairs(fields@) =~= Seq::<(Seq<char>, Value)>::empty());
        }
        json_object(fields)
    } else {
        params
    }
}

} // verus!
