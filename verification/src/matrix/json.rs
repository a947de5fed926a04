use vstd::prelude::*;

verus! {

/// The string under `key` when `json` is a JSON object holding a string
/// there.
pub uninterp spec fn json_string_at(json: Seq<char>, key: Seq<char>) -> Option<Seq<char>>;

/// Whether `json` is a JSON object holding a field `key`.
pub uninterp spec fn json_has_field(json: Seq<char>, key: Seq<char>) -> bool;

/// The JSON text of the object under `key` when `json` is a JSON object
/// holding an object there.
pub uninterp spec fn json_object_at(json: Seq<char>, key: Seq<char>) -> Option<Seq<char>>;

/// `serde_json::from_str` into a `Value`, then `get(key)` and `as_str`.
#[verifier::external_body]
pub(crate) fn json_string_field(json: &str, key: &str) -> (r: Option<String>)
    ensures
        match json_string_at(json@, key@) {
            Some(s) => r matches Some(v) && v@ == s,
            None => r is None,
        },
{
    serde_json::from_str::<serde_json::Value>(json)
        .ok()
        .and_then(|v| v.get(key).and_then(|f| f.as_str()).map(str::to_owned))
}

/// `serde_json::from_str` into a `Value`, then `get(key)`: whether the
/// object has the field.
#[verifier::external_body]
pub(crate) fn json_field_present(json: &str, key: &str) -> (r: bool)
    ensures
        r == json_has_field(json@, key@),
{
    serde_json::from_str::<serde_json::Value>(json).ok().is_some_and(|v| v.get(key).is_some())
}

/// `serde_json::from_str` into a `Value`, then `get(key)`, and the object
/// found there written back with `serde_json::to_string`.
#[verifier::external_body]
pub(crate) fn json_object_field(json: &str, key: &str) -> (r: Option<String>)
    ensures
        match json_object_at(json@, key@) {
            Some(s) => r matches Some(v) && v@ == s,
            None => r is None,
        },
{
    match serde_json::from_str::<serde_json::Value>(json) {
        Ok(value) => match value.get(key) {
            Some(field @ serde_json::Value::Object(_)) => Some(field.to_string()),
            _ => None,
        },
        Err(_) => None,
    }
}

} // verus!
