//! The JSON document as the library sees it.
//!
//! A document is a `serde_json::Value`. Nothing inside such a value is visible
//! to the verifier, so what the accessors of `serde_json` return is given a
//! name here, and every contract that speaks of a document speaks of it
//! through these names.

use serde_json::Value;
use vstd::prelude::*;

verus! {

/// `serde_json::Value`, any JSON value.
#[verifier::external_type_specification]
#[verifier::external_body]
pub struct ExValue(Value);

/// `serde_json::Map`, the members of a JSON object.
#[verifier::external_type_specification]
#[verifier::external_body]
#[verifier::reject_recursive_types(K)]
#[verifier::reject_recursive_types(V)]
pub struct ExMap<K, V>(serde_json::Map<K, V>);

/// The members of `v` when it is a JSON object.
pub uninterp spec fn object_of(v: Value) -> Option<serde_json::Map<String, Value>>;

/// The value that the object `m` holds under `key`, if it holds one.
pub uninterp spec fn entry_of(m: serde_json::Map<String, Value>, key: Seq<char>) -> Option<Value>;

/// The elements of `v` when it is a JSON array.
pub uninterp spec fn items_of(v: Value) -> Option<Seq<Value>>;

/// The characters of `v` when it is a JSON string.
pub uninterp spec fn text_of(v: Value) -> Option<Seq<char>>;

/// The number held by `v` when it is an integer that fits in `i64`.
pub uninterp spec fn integer_of(v: Value) -> Option<i64>;

/// The member of `v` under `key`: present when `v` is an object that holds
/// the key.
pub open spec fn member_of(v: Value, key: Seq<char>) -> Option<Value> {
    match object_of(v) {
        Some(m) => entry_of(m, key),
        None => None,
    }
}

/// `Value::as_object`: the members if `v` is an object, `None` for every
/// other kind of value.
#[verifier::external_body]
pub(crate) fn object<'a>(v: &'a Value) -> (r: Option<&'a serde_json::Map<String, Value>>)
    ensures
        match r {
            Some(m) => object_of(*v) == Some(*m),
            None => object_of(*v) is None,
        },
{
    v.as_object()
}

/// `Map::get`: the value stored under `key`, `None` if the key is absent.
#[verifier::external_body]
pub(crate) fn entry<'a>(m: &'a serde_json::Map<String, Value>, key: &str) -> (r: Option<&'a Value>)
    ensures
        match r {
            Some(e) => entry_of(*m, key@) == Some(*e),
            None => entry_of(*m, key@) is None,
        },
{
    m.get(key)
}

/// `Value::as_array`: the elements if `v` is an array, `None` otherwise.
#[verifier::external_body]
pub(crate) fn items<'a>(v: &'a Value) -> (r: Option<&'a Vec<Value>>)
    ensures
        match r {
            Some(a) => items_of(*v) == Some(a@),
            None => items_of(*v) is None,
        },
{
    v.as_array()
}

/// `Value::as_str`: the text if `v` is a string, `None` otherwise.
#[verifier::external_body]
pub(crate) fn text<'a>(v: &'a Value) -> (r: Option<&'a str>)
    ensures
        match r {
            Some(s) => text_of(*v) == Some(s@),
            None => text_of(*v) is None,
        },
{
    v.as_str()
}

/// `Value::as_i64`: the number if `v` is an integer within `i64`, `None`
/// otherwise.
#[verifier::external_body]
pub(crate) fn integer(v: &Value) -> (r: Option<i64>)
    ensures
        r == integer_of(*v),
{
    v.as_i64()
}

/// The member of `v` under `key`, if `v` is an object that holds the key.
pub fn member<'a>(v: &'a Value, key: &str) -> (r: Option<&'a Value>)
    ensures
        match r {
            Some(m) => member_of(*v, key@) == Some(*m),
            None => member_of(*v, key@) is None,
        },
{
    match object(v) {
        Some(m) => entry(m, key),
        None => None,
    }
}

} // verus!
