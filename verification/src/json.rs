use serde_json::Error as SerdeJsonError;
use vstd::prelude::*;

verus! {

/// serde_json's parsed JSON value, held opaquely.
#[verifier::external_type_specification]
#[verifier::external_body]
pub struct ExValue(serde_json::Value);

/// serde_json's parse error, held opaquely.
#[verifier::external_type_specification]
#[verifier::external_body]
pub struct ExJsonError(SerdeJsonError);

/// The string fields of the JSON document held in `bytes`: `None` when the
/// bytes are not a well-formed JSON document; otherwise a map that holds, for
/// each key of the top-level object, `Some` of the key's value when that
/// value is a string and `None` when it has another type (the empty map for a
/// well-formed document that is not an object).
pub uninterp spec fn json_fields_of(bytes: Seq<u8>) -> Option<Map<Seq<char>, Option<Seq<char>>>>;

/// The same string-field map, read off an already parsed value.
pub uninterp spec fn value_fields(v: serde_json::Value) -> Map<Seq<char>, Option<Seq<char>>>;

/// Relies on serde_json::from_slice::<Value>: it parses exactly the
/// well-formed JSON documents, and its result is a function of the bytes
/// alone.
#[verifier::external_body]
pub(crate) fn parse_json(b: &Vec<u8>) -> (r: Result<serde_json::Value, SerdeJsonError>)
    ensures
        r is Ok <==> json_fields_of(b@) is Some,
        r is Ok ==> value_fields(r.unwrap()) == json_fields_of(b@).unwrap(),
{
    serde_json::from_slice::<serde_json::Value>(b.as_slice())
}

/// Whether the top-level object of `v` holds a string value at `key`.
pub open spec fn has_str_field(v: serde_json::Value, key: Seq<char>) -> bool {
    value_fields(v).contains_key(key) && value_fields(v)[key] is Some
}

/// Relies on serde_json::Value::get and Value::as_str: `get` with a string
/// index looks the key up in a top-level object (`None` on any other value),
/// and `as_str` yields the string behind a string value (`None` on any
/// other).
#[verifier::external_body]
pub(crate) fn get_str_field(v: &serde_json::Value, key: &str) -> (r: Option<String>)
    ensures
        r is Some <==> has_str_field(*v, key@),
        r is Some ==> r.unwrap()@ == value_fields(*v)[key@].unwrap(),
{
    match v.get(key) {
        None => None,
        Some(x) => match x.as_str() {
            None => None,
            Some(s) => Some(s.to_string()),
        },
    }
}

} // verus!
