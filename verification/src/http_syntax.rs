//! What the `http` crate accepts as a method, a request target, a header
//! name and a header value, and the parsers themselves.
use vstd::prelude::*;
use axum::http::header::InvalidHeaderValue;
use axum::http::{HeaderName, HeaderValue, Method, Uri};

verus! {

#[verifier::external_type_specification]
#[verifier::external_body]
pub struct ExMethod(Method);

#[verifier::external_type_specification]
#[verifier::external_body]
pub struct ExUri(Uri);

#[verifier::external_type_specification]
#[verifier::external_body]
pub struct ExHeaderName(HeaderName);

#[verifier::external_type_specification]
#[verifier::external_body]
pub struct ExHeaderValue(HeaderValue);

#[verifier::external_type_specification]
#[verifier::external_body]
pub struct ExInvalidHeaderValue(InvalidHeaderValue);

/// A `tchar` of RFC 9110: the bytes the `http` crate's method and header
/// name tables map to a non-zero entry.
pub open spec fn is_token_byte(b: u8) -> bool {
    ||| b == 33  // !
    ||| 35 <= b <= 39  // # $ % & '
    ||| b == 42  // *
    ||| b == 43  // +
    ||| b == 45  // -
    ||| b == 46  // .
    ||| 48 <= b <= 57  // 0-9
    ||| 65 <= b <= 90  // A-Z
    ||| 94 <= b <= 96  // ^ _ `
    ||| 97 <= b <= 122  // a-z
    ||| b == 124  // |
    ||| b == 126  // ~
}

/// The UTF-8 bytes of a text, as `str::as_bytes` yields them.
pub open spec fn utf8_bytes(s: Seq<char>) -> Seq<u8> {
    vstd::utf8::encode_utf8(s)
}

/// An HTTP method: one or more token bytes.
pub open spec fn is_method_token(s: Seq<char>) -> bool {
    let b = utf8_bytes(s);
    &&& b.len() > 0
    &&& forall|i: int| 0 <= i < b.len() ==> is_token_byte(#[trigger] b[i])
}

/// The longest header name the `http` crate accepts, in bytes.
pub open spec fn max_header_name_len() -> int {
    65535
}

/// A header field name: between one and 65535 token bytes.
pub open spec fn is_header_name(s: Seq<char>) -> bool {
    let b = utf8_bytes(s);
    &&& 0 < b.len() <= max_header_name_len()
    &&& forall|i: int| 0 <= i < b.len() ==> is_token_byte(#[trigger] b[i])
}

/// A byte allowed in a header value: a tab, or any byte from 32 up except DEL.
pub open spec fn is_header_value_byte(b: u8) -> bool {
    (b >= 32 && b != 127) || b == 9
}

/// A header value the `http` crate accepts from a string.
pub open spec fn is_header_value(s: Seq<char>) -> bool {
    let b = utf8_bytes(s);
    forall|i: int| 0 <= i < b.len() ==> is_header_value_byte(#[trigger] b[i])
}

/// A visible ASCII byte, or a tab: what `HeaderValue::to_str` lets through.
pub open spec fn is_visible_ascii(b: u8) -> bool {
    (b >= 32 && b < 127) || b == 9
}

/// Whether `Uri::from_str` accepts the text as a request target. The URI
/// grammar the `http` crate implements takes pages to state; it depends on
/// the text alone.
pub uninterp spec fn uri_accepts(text: Seq<char>) -> bool;

/// `Method::from_str`: parses an HTTP method. The `http` crate accepts
/// exactly the non-empty strings of token bytes (the standard methods and
/// any extension method).
#[verifier::external_body]
pub(crate) fn parse_method(text: &str) -> (res: Option<Method>)
    ensures
        res is Some <==> is_method_token(text@),
{
    <Method as std::str::FromStr>::from_str(text).ok()
}

/// `Uri::from_str`: parses a request target; whether it succeeds is named
/// by `uri_accepts`.
#[verifier::external_body]
pub(crate) fn parse_uri(text: &str) -> (res: Option<Uri>)
    ensures
        res is Some <==> uri_accepts(text@),
{
    <Uri as std::str::FromStr>::from_str(text).ok()
}

/// `HeaderName::from_str`: parses a header name. The `http` crate accepts
/// between 1 and 65535 bytes, each a token byte (upper case letters are
/// lowered, which this contract does not speak of).
#[verifier::external_body]
pub(crate) fn parse_header_name(text: &str) -> (res: Option<HeaderName>)
    ensures
        res is Some <==> is_header_name(text@),
{
    <HeaderName as std::str::FromStr>::from_str(text).ok()
}

/// `HeaderValue::from_str`: parses a header value. The `http` crate accepts
/// a string whose bytes are all tabs or at least 32 and not 127.
#[verifier::external_body]
pub(crate) fn parse_header_value(text: &str) -> (res: Result<HeaderValue, InvalidHeaderValue>)
    ensures
        res is Ok <==> is_header_value(text@),
{
    HeaderValue::from_str(text)
}

/// The display text of `InvalidHeaderValue`, which the `http` crate writes
/// as a fixed sentence.
#[verifier::external_body]
pub(crate) fn invalid_header_value_text(error: &InvalidHeaderValue) -> (text: String)
    ensures
        text@ == "failed to parse header value"@,
{
    error.to_string()
}

} // verus!
