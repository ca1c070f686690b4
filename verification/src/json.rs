//! JSON, read and quoted by the `serde_json` crate.

use vstd::prelude::*;

verus! {

/// Whether bytes are one JSON document.
pub uninterp spec fn json_valid(bytes: Seq<u8>) -> bool;

/// The natural number at a key of a JSON object.
pub uninterp spec fn json_number(bytes: Seq<u8>, key: Seq<char>) -> Option<u64>;

/// The string at a key of a JSON object.
pub uninterp spec fn json_string(bytes: Seq<u8>, key: Seq<char>) -> Option<Seq<char>>;

/// Whether a JSON object has a key.
pub uninterp spec fn json_has(bytes: Seq<u8>, key: Seq<char>) -> bool;

/// `serde_json::from_slice` into a `Value`: whether the bytes are one JSON
/// document, as `json_valid` names it.
#[verifier::external_body]
pub(crate) fn is_valid(bytes: &[u8]) -> (r: bool)
    ensures
        r == json_valid(bytes@),
{
    serde_json::from_slice::<serde_json::Value>(bytes).is_ok()
}

/// `serde_json::Value::as_u64` of the value at a key; nothing where the bytes
/// are no JSON object or hold no such number. `json_number` names it.
#[verifier::external_body]
pub(crate) fn number_at(bytes: &[u8], key: &str) -> (r: Option<u64>)
    ensures
        r == json_number(bytes@, key@),
{
    let value: serde_json::Value = serde_json::from_slice(bytes).ok()?;
    value.get(key)?.as_u64()
}

/// `serde_json::Value::as_str` of the value at a key; nothing where the bytes
/// are no JSON object or hold no such string. `json_string` names it.
#[verifier::external_body]
pub(crate) fn string_at(bytes: &[u8], key: &str) -> (r: Option<String>)
    ensures
        r is Some <==> json_string(bytes@, key@) is Some,
        r is Some ==> r->0@ == json_string(bytes@, key@)->0,
{
    let value: serde_json::Value = serde_json::from_slice(bytes).ok()?;
    value.get(key)?.as_str().map(str::to_owned)
}

/// `serde_json::Value::get`: whether the bytes are a JSON object with a key,
/// as `json_has` names it.
#[verifier::external_body]
pub(crate) fn has_key(bytes: &[u8], key: &str) -> (r: bool)
    ensures
        r == json_has(bytes@, key@),
{
    match serde_json::from_slice::<serde_json::Value>(bytes) {
        Ok(value) => value.get(key).is_some(),
        Err(_) => false,
    }
}

/// A hexadecimal digit.
pub open spec fn hex_digit(d: int) -> char {
    if d < 10 {
        (48 + d) as char
    } else {
        (87 + d) as char
    }
}

/// A character inside a JSON string. Only quotes, backslashes and control
/// characters below the space are escaped.
pub open spec fn escaped(c: char) -> Seq<char> {
    if c == '"' {
        seq!['\\', '"']
    } else if c == '\\' {
        seq!['\\', '\\']
    } else if c == '\n' {
        seq!['\\', 'n']
    } else if c == '\r' {
        seq!['\\', 'r']
    } else if c == '\t' {
        seq!['\\', 't']
    } else if c as int == 8 {
        seq!['\\', 'b']
    } else if c as int == 12 {
        seq!['\\', 'f']
    } else if (c as int) < 32 {
        seq!['\\', 'u', '0', '0', hex_digit(c as int / 16), hex_digit(c as int % 16)]
    } else {
        seq![c]
    }
}

/// Characters inside a JSON string.
pub open spec fn all_escaped(text: Seq<char>) -> Seq<char>
    decreases text.len(),
{
    if text.len() == 0 {
        Seq::empty()
    } else {
        all_escaped(text.drop_last()) + escaped(text.last())
    }
}

/// A JSON string.
pub open spec fn quoted(text: Seq<char>) -> Seq<char> {
    seq!['"'] + all_escaped(text) + seq!['"']
}

/// `serde_json::to_string` of a string: the text in quotes, with quotes,
/// backslashes and control characters escaped.
#[verifier::external_body]
pub(crate) fn quote(text: &str) -> (r: String)
    ensures
        r@ == quoted(text@),
{
    serde_json::to_string(text).unwrap()
}

} // verus!
