//! What the bridge hands back of a router's response: its status, the
//! headers whose values are text, and the body.
use vstd::prelude::*;
use vstd::string::StrSliceExecFns;
use vstd::utf8::{decode_utf8, partial_valid_utf8_extend_ascii_block, valid_utf8};
use crate::http_syntax::{is_visible_ascii, utf8_bytes};

verus! {

/// Result of dispatching a request through the bridge.
#[derive(Clone, Debug)]
pub struct DispatchResult {
    pub status: u16,
    pub headers: Vec<(String, String)>,
    pub body: Vec<u8>,
}

/// Result of dispatching a request through the bridge, with the body as
/// the chunks the router produced.
#[derive(Clone, Debug)]
pub struct DispatchStreamingResult {
    pub status: u16,
    pub headers: Vec<(String, String)>,
    pub chunks: Vec<Vec<u8>>,
}

/// Every byte is visible ASCII or a tab.
pub open spec fn all_visible(b: Seq<u8>) -> bool {
    forall|i: int| 0 <= i < b.len() ==> is_visible_ascii(#[trigger] b[i])
}

/// The texts of a list of string pairs.
pub open spec fn pair_texts(v: Seq<(String, String)>) -> Seq<(Seq<char>, Seq<char>)> {
    v.map_values(|p: (String, String)| (p.0@, p.1@))
}

/// The response headers as text: each header whose value is visible ASCII
/// (what `HeaderValue::to_str` accepts), in order, with its value decoded;
/// the others are left out.
pub open spec fn shown_headers(raw: Seq<(String, Vec<u8>)>) -> Seq<(Seq<char>, Seq<char>)>
    decreases raw.len(),
{
    if raw.len() == 0 {
        Seq::empty()
    } else {
        let rest = shown_headers(raw.drop_last());
        let h = raw.last();
        if all_visible(h.1@) {
            rest.push((h.0@, decode_utf8(h.1@)))
        } else {
            rest
        }
    }
}

/// `String::from_utf8`: the bytes as a string when they are valid UTF-8.
#[verifier::external_body]
fn string_from_utf8(bytes: Vec<u8>) -> (res: Option<String>)
    ensures
        res is Some <==> valid_utf8(bytes@),
        res matches Some(s) ==> s@ == decode_utf8(bytes@),
{
    String::from_utf8(bytes).ok()
}

/// Bytes that are all visible ASCII or tabs are valid UTF-8.
pub proof fn lemma_visible_is_utf8(b: Seq<u8>)
    requires
        all_visible(b),
    ensures
        valid_utf8(b),
{
    assert(valid_utf8(b.subrange(0, 0))) by {
        assert(b.subrange(0, 0).len() == 0);
    }
    assert forall|i: int| 0 <= 0 <= i < b.len() <= b.len() implies #[trigger] vstd::utf8::is_leading_byte_width_1(b[i]) by {
        assert(is_visible_ascii(b[i]));
    }
    partial_valid_utf8_extend_ascii_block(b, 0, b.len() as int);
    assert(b.subrange(0, b.len() as int) =~= b);
}

fn bytes_all_visible(b: &Vec<u8>) -> (ok: bool)
    ensures
        ok == all_visible(b@),
{
    let mut i: usize = 0;
    while i < b.len()
        invariant
            i <= b@.len(),
            forall|j: int| 0 <= j < i ==> is_visible_ascii(#[trigger] b@[j]),
        decreases b.len() - i,
    {
        let c = b[i];
        if !((c >= 32 && c < 127) || c == 9) {
            return false;
        }
        i = i + 1;
    }
    true
}

/// Keeps the response headers whose values are visible ASCII, as text, in
/// their order; a value with any other byte is dropped with its name.
pub fn text_headers(raw: Vec<(String, Vec<u8>)>) -> (out: Vec<(String, String)>)
    ensures
        pair_texts(out@) == shown_headers(raw@),
{
    let mut out: Vec<(String, String)> = Vec::new();
    let n = raw.len();
    let mut i: usize = 0;
    while i < n
        invariant
            n == raw@.len(),
            i <= n,
            pair_texts(out@) == shown_headers(raw@.take(i as int)),
        decreases n - i,
    {
        assert(raw@.take(i + 1).drop_last() =~= raw@.take(i as int));
        let name = raw[i].0.clone();
        let value = raw[i].1.clone();
        if bytes_all_visible(&value) {
            proof {
                lemma_visible_is_utf8(value@);
            }
            match string_from_utf8(value) {
                Some(text) => {
                    out.push((name, text));
                    assert(pair_texts(out@) =~= shown_headers(raw@.take(i as int)).push(
                        (raw@[i as int].0@, decode_utf8(raw@[i as int].1@)),
                    ));
                },
                None => {},
            }
        }
        i = i + 1;
    }
    assert(raw@.take(n as int) =~= raw@);
    out
}

impl DispatchResult {
    /// Assembles the result of a dispatch from the response's status, its
    /// raw headers and its collected body.
    pub fn from_response(status: u16, raw_headers: Vec<(String, Vec<u8>)>, body: Vec<u8>) -> (res:
        DispatchResult)
        ensures
            res.status == status,
            pair_texts(res.headers@) == shown_headers(raw_headers@),
            res.body == body,
    {
        DispatchResult { status, headers: text_headers(raw_headers), body }
    }
}

impl DispatchStreamingResult {
    /// Assembles the result of a dispatch from the response's status, its
    /// raw headers and its body chunks, in the order they came.
    pub fn from_response(
        status: u16,
        raw_headers: Vec<(String, Vec<u8>)>,
        chunks: Vec<Vec<u8>>,
    ) -> (res: DispatchStreamingResult)
        ensures
            res.status == status,
            pair_texts(res.headers@) == shown_headers(raw_headers@),
            res.chunks == chunks,
    {
        DispatchStreamingResult { status, headers: text_headers(raw_headers), chunks }
    }
}

/// The headers of an ASGI `http.response.start` event: each name and value
/// as its UTF-8 bytes, in order.
pub fn asgi_header_bytes(headers: &Vec<(String, String)>) -> (out: Vec<(Vec<u8>, Vec<u8>)>)
    ensures
        out@.len() == headers@.len(),
        forall|i: int|
            0 <= i < out@.len() ==> (#[trigger] out@[i]).0@ == utf8_bytes(headers@[i].0@)
                && out@[i].1@ == utf8_bytes(headers@[i].1@),
{
    let mut out: Vec<(Vec<u8>, Vec<u8>)> = Vec::new();
    let n = headers.len();
    let mut i: usize = 0;
    while i < n
        invariant
            n == headers@.len(),
            i <= n,
            out@.len() == i,
            forall|j: int|
                0 <= j < i ==> (#[trigger] out@[j]).0@ == utf8_bytes(headers@[j].0@) && out@[j].1@
                    == utf8_bytes(headers@[j].1@),
        decreases n - i,
    {
        let name = headers[i].0.as_str().as_bytes_vec();
        let value = headers[i].1.as_str().as_bytes_vec();
        out.push((name, value));
        i = i + 1;
    }
    out
}

/// The `body` and `more_body` of the next ASGI `http.response.body` event:
/// a chunk of the response goes out as it is with more to follow; once the
/// body is exhausted, an empty body ends the response.
pub fn response_body_frame(chunk: Option<Vec<u8>>) -> (frame: (Vec<u8>, bool))
    ensures
        chunk matches Some(c) ==> frame.0 == c && frame.1,
        chunk is None ==> frame.0@.len() == 0 && !frame.1,
{
    match chunk {
        Some(c) => (c, true),
        None => (Vec::new(), false),
    }
}

} // verus!
