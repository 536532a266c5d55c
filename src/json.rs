//! The JSON payloads of the status bus, read through `serde_json`.

use vstd::prelude::*;

verus! {

#[verifier::external_type_specification]
#[verifier::external_body]
pub struct ExValue(serde_json::Value);

#[verifier::external_type_specification]
#[verifier::external_body]
pub struct ExJsonError(serde_json::Error);

/// The JSON value that `bytes` holds, as `serde_json` reads it; `None` when
/// they hold no single JSON text.
pub uninterp spec fn json_of(bytes: Seq<u8>) -> Option<serde_json::Value>;

/// The member `key` of a JSON value, when it is an object that has one.
pub uninterp spec fn json_member(v: serde_json::Value, key: Seq<char>) -> Option<serde_json::Value>;

/// The text of a JSON value, when it is a string.
pub uninterp spec fn json_str(v: serde_json::Value) -> Option<Seq<char>>;

/// A JSON value as a `u64`, when it is an integer in that range.
pub uninterp spec fn json_u64(v: serde_json::Value) -> Option<u64>;

/// Relies on `serde_json::from_slice::<Value>`: it returns `Ok` exactly when
/// the bytes hold one JSON text, and the value depends on the bytes alone.
#[verifier::external_body]
pub(crate) fn parse_json(payload: &[u8]) -> (r: Result<serde_json::Value, serde_json::Error>)
    ensures
        r is Ok <==> json_of(payload@) is Some,
        r matches Ok(v) ==> json_of(payload@) == Some(v),
{
    serde_json::from_slice::<serde_json::Value>(payload)
}

/// Relies on `serde_json::Value::get`: the member `key` of a JSON object.
#[verifier::external_body]
pub(crate) fn json_get<'a>(v: &'a serde_json::Value, key: &str) -> (r: Option<&'a serde_json::Value>)
    ensures
        r is None <==> json_member(*v, key@) is None,
        r matches Some(m) ==> json_member(*v, key@) == Some(*m),
{
    v.get(key)
}

/// Relies on `serde_json::Value::as_str`: the text of a JSON string.
#[verifier::external_body]
pub(crate) fn json_as_str(v: &serde_json::Value) -> (r: Option<String>)
    ensures
        r is None <==> json_str(*v) is None,
        r matches Some(s) ==> json_str(*v) == Some(s@),
{
    v.as_str().map(|s| s.to_owned())
}

/// Relies on `serde_json::Value::as_u64`: a JSON integer that fits in a `u64`.
#[verifier::external_body]
pub(crate) fn json_as_u64(v: &serde_json::Value) -> (r: Option<u64>)
    ensures
        r == json_u64(*v),
{
    v.as_u64()
}

} // verus!
