//! Trusted bridge to serde_json.
//!
//! The pipeline reads only a handful of things out of a message's JSON: the
//! numeric `id`, the `processId` of an `initialize` request, and the `uri`
//! strings of a goto response's `result` array. Each bridge function maps
//! plain bytes to plain values; what it returns is a function of its
//! arguments alone, named by an uninterpreted spec function, since spelling
//! out a JSON parser in a specification would be neither checkable nor
//! useful.

use vstd::prelude::*;

verus! {

/// The numeric `id` field of a JSON document: `None` when the bytes are not
/// JSON, `Some(None)` when they are JSON without a numeric `id`, and the id
/// otherwise.
pub uninterp spec fn json_id_of(b: Seq<u8>) -> Option<Option<u64>>;

/// Relies on `serde_json::from_slice`, `Value::get` and `Value::as_u64`:
/// the parse and the field lookup depend on the bytes alone.
#[verifier::external_body]
pub(crate) fn json_id(b: &[u8]) -> (r: Option<Option<u64>>)
    ensures
        r == json_id_of(b@),
{
    match serde_json::from_slice::<serde_json::Value>(b) {
        Err(_) => None,
        Ok(v) => Some(v.get("id").and_then(serde_json::Value::as_u64)),
    }
}

/// What nulling the process id yields: `None` when the bytes are not JSON
/// or carry no `params.processId`; otherwise the id found there (when it
/// was a number) and the document re-serialized with `null` in its place.
pub uninterp spec fn pid_patch_of(b: Seq<u8>) -> Option<(Option<u64>, Seq<u8>)>;

/// Relies on `serde_json::from_slice`, `Value::pointer_mut`,
/// `Value::as_u64` and `serde_json::to_vec`: the parse, the pointer lookup
/// and the serialization depend on the bytes alone.
#[verifier::external_body]
pub(crate) fn pid_patch(b: &[u8]) -> (r: Option<(Option<u64>, Vec<u8>)>)
    ensures
        match r {
            Some(p) => pid_patch_of(b@) == Some((p.0, p.1@)),
            None => pid_patch_of(b@) is None,
        },
{
    let mut v: serde_json::Value = serde_json::from_slice(b).ok()?;
    let slot = v.pointer_mut("/params/processId")?;
    let pid = slot.as_u64();
    *slot = serde_json::Value::Null;
    let out = serde_json::to_vec(&v).ok()?;
    Some((pid, out))
}

/// The `uri` strings of a response's `result` array: `None` when the bytes
/// are not JSON or `result` is not an array; otherwise one entry per array
/// element, holding the element's `uri` string when it has one.
pub uninterp spec fn result_uris_of(b: Seq<u8>) -> Option<Seq<Option<Seq<u8>>>>;

/// Relies on `serde_json::from_slice`, `Value::get`, `Value::as_array`,
/// `Value::as_str` and `str::as_bytes`: the parse and the lookups depend on
/// the bytes alone.
#[verifier::external_body]
pub(crate) fn result_uris(b: &[u8]) -> (r: Option<Vec<Option<Vec<u8>>>>)
    ensures
        match r {
            Some(v) => result_uris_of(b@) == Some(v.deep_view()),
            None => result_uris_of(b@) is None,
        },
{
    let v: serde_json::Value = serde_json::from_slice(b).ok()?;
    let arr = v.get("result")?.as_array()?;
    Some(
        arr.iter().map(
            |e| e.get("uri").and_then(|u| u.as_str()).map(|s| s.as_bytes().to_vec()),
        ).collect(),
    )
}

/// The document with the `uri` of each `result` entry replaced by the new
/// value given for it: `None` when the bytes are not JSON, `result` is not
/// an array, a replaced entry has no `uri`, or a new value is not UTF-8.
pub uninterp spec fn set_result_uris_of(b: Seq<u8>, uris: Seq<Option<Seq<u8>>>) -> Option<Seq<u8>>;

/// Relies on `serde_json::from_slice`, `Value::get_mut`,
/// `Value::as_array_mut`, `String::from_utf8` and `serde_json::to_vec`: the
/// rewrite and the serialization depend on the arguments alone.
#[verifier::external_body]
pub(crate) fn set_result_uris(b: &[u8], uris: &Vec<Option<Vec<u8>>>) -> (r: Option<Vec<u8>>)
    ensures
        match r {
            Some(out) => set_result_uris_of(b@, uris.deep_view()) == Some(out@),
            None => set_result_uris_of(b@, uris.deep_view()) is None,
        },
{
    let mut v: serde_json::Value = serde_json::from_slice(b).ok()?;
    let arr = v.get_mut("result")?.as_array_mut()?;
    for (e, u) in arr.iter_mut().zip(uris.iter()) {
        if let Some(bytes) = u {
            let s = String::from_utf8(bytes.clone()).ok()?;
            *e.get_mut("uri")? = serde_json::Value::String(s);
        }
    }
    serde_json::to_vec(&v).ok()
}

} // verus!
