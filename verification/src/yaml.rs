//! Trusted boundary to the YAML parser.
//!
//! Structured metadata text is parsed by `serde_yaml_ng`; the value it
//! returns is opaque here, and what the contracts say about it goes
//! through `yaml_entries`, the name of the string-keyed fields that a
//! parsed document holds.
use vstd::prelude::*;

verus! {

/// What one string-keyed field of a parsed document holds: a boolean, a
/// string (as its UTF-8 bytes), a sequence of strings, or anything else.
pub enum YamlField {
    B { value: bool },
    S { bytes: Seq<u8> },
    L { items: Seq<Seq<u8>> },
    Other,
}

#[verifier::external_type_specification]
#[verifier::external_body]
pub struct ExYamlValue(serde_yaml_ng::Value);

/// The string-keyed fields of a parsed document: for a mapping, each key
/// that is a string, classified by the type its value untags to; for
/// anything that is not a mapping, the empty map.
pub uninterp spec fn yaml_entries(v: serde_yaml_ng::Value) -> Map<Seq<char>, YamlField>;

/// What parsing a text as one YAML document yields: `None` when the bytes
/// are not UTF-8 or not well-formed YAML, else the fields of the value.
pub uninterp spec fn yaml_doc(s: Seq<u8>) -> Option<Map<Seq<char>, YamlField>>;

/// The boolean under key `k`, when there is one.
pub open spec fn field_bool(d: Map<Seq<char>, YamlField>, k: Seq<char>) -> Option<bool> {
    if d.contains_key(k) {
        match d[k] {
            YamlField::B { value } => Some(value),
            _ => None,
        }
    } else {
        None
    }
}

/// The string under key `k`, when there is one.
pub open spec fn field_string(d: Map<Seq<char>, YamlField>, k: Seq<char>) -> Option<Seq<u8>> {
    if d.contains_key(k) {
        match d[k] {
            YamlField::S { bytes } => Some(bytes),
            _ => None,
        }
    } else {
        None
    }
}

/// The sequence of strings under key `k`, when there is one.
pub open spec fn field_list(d: Map<Seq<char>, YamlField>, k: Seq<char>) -> Option<Seq<Seq<u8>>> {
    if d.contains_key(k) {
        match d[k] {
            YamlField::L { items } => Some(items),
            _ => None,
        }
    } else {
        None
    }
}

/// Relies on serde_yaml_ng::from_str::<Value>: whether a text parses, and
/// the value it parses to, depend on the text alone.
#[verifier::external_body]
pub fn yaml_parse(s: &[u8]) -> (r: Result<serde_yaml_ng::Value, Vec<u8>>)
    ensures
        r is Ok <==> yaml_doc(s@) is Some,
        r matches Ok(v) ==> Some(yaml_entries(v)) == yaml_doc(s@),
{
    let text = match std::str::from_utf8(s) {
        Ok(t) => t,
        Err(e) => return Err(e.to_string().into_bytes()),
    };
    match serde_yaml_ng::from_str::<serde_yaml_ng::Value>(text) {
        Ok(v) => Ok(v),
        Err(e) => Err(e.to_string().into_bytes()),
    }
}

/// Relies on Value::get and Value::as_bool: the value under a string key,
/// when that value is a boolean.
#[verifier::external_body]
pub fn yaml_get_bool(v: &serde_yaml_ng::Value, key: &str) -> (r: Option<bool>)
    ensures
        r == field_bool(yaml_entries(*v), key@),
{
    v.get(key).and_then(|x| x.as_bool())
}

/// Relies on Value::get and Value::as_str: the value under a string key,
/// when that value is a string, as its UTF-8 bytes.
#[verifier::external_body]
pub fn yaml_get_string(v: &serde_yaml_ng::Value, key: &str) -> (r: Option<Vec<u8>>)
    ensures
        r.deep_view() == field_string(yaml_entries(*v), key@),
{
    v.get(key).and_then(|x| x.as_str()).map(|s| s.as_bytes().to_vec())
}

/// Relies on Value::get, Value::as_sequence and Value::as_str: the value
/// under a string key, when that value is a sequence of strings, as their
/// UTF-8 bytes in order.
#[verifier::external_body]
pub fn yaml_get_string_list(v: &serde_yaml_ng::Value, key: &str) -> (r: Option<Vec<Vec<u8>>>)
    ensures
        r.deep_view() == field_list(yaml_entries(*v), key@),
{
    let seq = match v.get(key).and_then(|x| x.as_sequence()) {
        Some(s) => s,
        None => return None,
    };
    seq.iter().map(|x| x.as_str().map(|s| s.as_bytes().to_vec())).collect::<Option<Vec<Vec<u8>>>>()
}

} // verus!
