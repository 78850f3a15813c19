//! JSON text of the metadata the bridge publishes, through `serde_json`.
use vstd::prelude::*;
use serde_json::Value as JsonValue;

verus! {

#[verifier::external_type_specification]
#[verifier::external_body]
pub struct ExJsonValue(JsonValue);

#[verifier::external_type_specification]
#[verifier::external_body]
pub struct ExJsonError(serde_json::Error);

/// A lower-case hexadecimal digit.
pub open spec fn hex_digit(n: u32) -> char {
    if n < 10 {
        (('0' as u32) + n) as char
    } else {
        (('a' as u32) + (n - 10)) as char
    }
}

/// How `serde_json` writes one character inside a string literal: quote and
/// backslash are escaped, the control characters with a short escape get
/// it, the other control characters become `\u00XX`, and every other
/// character stands for itself.
pub open spec fn json_escape(c: char) -> Seq<char> {
    if c == '"' {
        seq!['\\', '"']
    } else if c == '\\' {
        seq!['\\', '\\']
    } else if c == '\u{8}' {
        seq!['\\', 'b']
    } else if c == '\t' {
        seq!['\\', 't']
    } else if c == '\n' {
        seq!['\\', 'n']
    } else if c == '\u{c}' {
        seq!['\\', 'f']
    } else if c == '\r' {
        seq!['\\', 'r']
    } else if (c as u32) < 0x20 {
        seq!['\\', 'u', '0', '0', hex_digit((c as u32) / 16), hex_digit((c as u32) % 16)]
    } else {
        seq![c]
    }
}

/// The escaped characters of a string literal's body.
pub open spec fn json_escaped(s: Seq<char>) -> Seq<char>
    decreases s.len(),
{
    if s.len() == 0 {
        Seq::empty()
    } else {
        json_escaped(s.drop_last()) + json_escape(s.last())
    }
}

/// A JSON string literal.
pub open spec fn json_string(s: Seq<char>) -> Seq<char> {
    seq!['"'] + json_escaped(s) + seq!['"']
}

/// String literals separated by commas, with no spaces.
pub open spec fn json_string_items(items: Seq<Seq<char>>) -> Seq<char>
    decreases items.len(),
{
    if items.len() == 0 {
        Seq::empty()
    } else if items.len() == 1 {
        json_string(items[0])
    } else {
        json_string_items(items.drop_last()) + seq![','] + json_string(items.last())
    }
}

/// The compact JSON array of the given strings, in order, as
/// `serde_json::to_string` writes it.
pub open spec fn json_string_array(items: Seq<Seq<char>>) -> Seq<char> {
    seq!['['] + json_string_items(items) + seq![']']
}

/// `serde_json::to_string` on a vector of strings. It succeeds: serde_json
/// fails only when a `Serialize` impl fails or a map has non-string keys,
/// and neither strings nor a vector of them do so, while writing into a
/// `Vec<u8>` cannot fail. The text is the compact JSON array of the strings
/// (serde_json's compact formatter and its escape table).
#[verifier::external_body]
pub(crate) fn json_encode_strings(items: &Vec<String>) -> (res: Result<String, serde_json::Error>)
    ensures
        res is Ok,
        res matches Ok(text) ==> text@ == json_string_array(crate::order::texts(items@)),
{
    serde_json::to_string(items)
}

/// The compact JSON text `serde_json::to_string` writes for a JSON value.
/// It depends on the value alone (an object's members in the order the
/// value holds them).
pub uninterp spec fn json_value_text(value: JsonValue) -> Seq<char>;

/// `serde_json::to_string` on a JSON value. It succeeds: a `Value`'s
/// `Serialize` never fails and its map keys are strings; the text is named
/// by `json_value_text`.
#[verifier::external_body]
pub(crate) fn json_encode_value(value: &JsonValue) -> (res: Result<String, serde_json::Error>)
    ensures
        res is Ok,
        res matches Ok(text) ==> text@ == json_value_text(*value),
{
    serde_json::to_string(value)
}

/// The display text of a `serde_json` error; not stated, as it depends on
/// the error's inner kind.
#[verifier::external_body]
pub(crate) fn json_error_text(error: &serde_json::Error) -> (text: String) {
    error.to_string()
}

} // verus!
