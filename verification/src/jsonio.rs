//! Trusted reads of plain values out of a JSON document. Each read is a
//! pure function of the document text and a JSON pointer path, so its
//! result carries an uninterpreted name that the callers' contracts can
//! speak of exactly.

use vstd::prelude::*;

verus! {

/// The bytes of the JSON string value at a pointer path of a document;
/// `None` where the document does not parse, the path does not resolve,
/// or the value there is no string.
pub uninterp spec fn json_member_bytes_of(doc: Seq<char>, path: Seq<char>) -> Option<Seq<u8>>;

/// Relies on `serde_json::from_str`, `Value::pointer` and `Value::as_str`:
/// a deterministic lookup in the document text, with every failure mapped
/// to `None`.
#[verifier::external_body]
pub(crate) fn json_member_bytes(doc: &str, path: &str) -> (r: Option<Vec<u8>>)
    ensures
        r is Some <==> json_member_bytes_of(doc@, path@) is Some,
        r is Some ==> r->0@ == json_member_bytes_of(doc@, path@)->0,
{
    let v: serde_json::Value = match serde_json::from_str(doc) {
        Ok(v) => v,
        Err(_) => return None,
    };
    match v.pointer(path) {
        Some(m) => match m.as_str() {
            Some(s) => Some(s.as_bytes().to_vec()),
            None => None,
        },
        None => None,
    }
}

/// The value of the JSON number at a pointer path of a document, where it
/// is a non-negative integer; `None` otherwise.
pub uninterp spec fn json_member_u64_of(doc: Seq<char>, path: Seq<char>) -> Option<u64>;

/// Relies on `serde_json::from_str`, `Value::pointer` and `Value::as_u64`:
/// a deterministic lookup in the document text, with every failure mapped
/// to `None`.
#[verifier::external_body]
pub(crate) fn json_member_u64(doc: &str, path: &str) -> (r: Option<u64>)
    ensures
        r is Some <==> json_member_u64_of(doc@, path@) is Some,
        r is Some ==> r->0 == json_member_u64_of(doc@, path@)->0,
{
    let v: serde_json::Value = match serde_json::from_str(doc) {
        Ok(v) => v,
        Err(_) => return None,
    };
    match v.pointer(path) {
        Some(m) => m.as_u64(),
        None => None,
    }
}

} // verus!
