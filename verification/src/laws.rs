//! Properties of the bridge that span several of its functions.
use vstd::prelude::*;
use vstd::utf8::{decode_utf8, decode_utf8_encode_utf8};
use crate::bridge::{nested_pattern, AxumAsgiBridge};
use crate::error::{spec_exception_kind, BridgeError, ExceptionKind};
use crate::json::json_string_array;
use crate::order::{lemma_ascending_determined_by_set, strictly_ascending};
use crate::request::{request_rejection, spec_request_target, AsgiHttpScope};
use crate::http_syntax::utf8_bytes;
use crate::response::{all_visible, lemma_visible_is_utf8, shown_headers};
use crate::websocket::{lemma_ws_kinds_distinct, spec_ws_next, spec_ws_sends, WsEvent, WsPhase, WsSend};

verus! {

/// Every error a request is rejected with while being validated is raised
/// in Python as an invalid-request error.
pub proof fn lemma_request_rejections_are_invalid_requests(scope: AsgiHttpScope, e: BridgeError)
    requires
        request_rejection(scope, e),
    ensures
        spec_exception_kind(e) == ExceptionKind::InvalidRequest,
{
}

/// A scope built from structured arguments targets the path alone when the
/// query string is empty, and the path, `?` and the query otherwise.
pub proof fn lemma_structured_target(
    method: String,
    path: String,
    query_string: String,
    headers: Vec<(String, String)>,
    scope: AsgiHttpScope,
)
    requires
        scope.method == method,
        scope.path == path,
        scope.headers == headers,
        scope.query_string == (if query_string@.len() == 0 {
            None
        } else {
            Some(query_string)
        }),
    ensures
        query_string@.len() == 0 ==> spec_request_target(scope) == path@,
        query_string@.len() > 0 ==> spec_request_target(scope) == path@ + "?"@ + query_string@,
{
}

/// Two bridges that declare the same set of route patterns, in whatever
/// order and with whatever repeats, report the same patterns and the same
/// JSON text of them.
pub proof fn lemma_patterns_depend_only_on_the_set(a: AxumAsgiBridge, b: AxumAsgiBridge)
    requires
        strictly_ascending(a.route_patterns()),
        strictly_ascending(b.route_patterns()),
        a.route_patterns().to_set() == b.route_patterns().to_set(),
    ensures
        a.route_patterns() == b.route_patterns(),
        json_string_array(a.route_patterns()) == json_string_array(b.route_patterns()),
{
    lemma_ascending_determined_by_set(a.route_patterns(), b.route_patterns());
}

/// Nesting under a prefix written with trailing slashes records the same
/// patterns as nesting under the prefix without them.
pub proof fn lemma_nested_pattern_ignores_trailing_slashes(prefix: Seq<char>, pattern: Seq<char>)
    ensures
        nested_pattern(prefix.push('/'), pattern) == nested_pattern(prefix, pattern),
{
    assert(prefix.push('/').drop_last() =~= prefix);
}

/// When every header value of a response is visible ASCII, every header is
/// handed back, in order, with its value as text.
pub proof fn lemma_visible_headers_all_kept(raw: Seq<(String, Vec<u8>)>)
    requires
        forall|i: int| 0 <= i < raw.len() ==> all_visible(#[trigger] raw[i].1@),
    ensures
        shown_headers(raw) == raw.map_values(
            |h: (String, Vec<u8>)| (h.0@, decode_utf8(h.1@)),
        ),
    decreases raw.len(),
{
    if raw.len() > 0 {
        let rest = raw.drop_last();
        assert forall|i: int| 0 <= i < rest.len() implies all_visible(#[trigger] rest[i].1@) by {
            assert(rest[i] == raw[i]);
        }
        lemma_visible_headers_all_kept(rest);
        assert(all_visible(raw[raw.len() - 1].1@));
        assert(raw.map_values(|h: (String, Vec<u8>)| (h.0@, decode_utf8(h.1@))) =~= rest.map_values(
            |h: (String, Vec<u8>)| (h.0@, decode_utf8(h.1@)),
        ).push((raw.last().0@, decode_utf8(raw.last().1@))));
    }
}

/// A header value handed back as text goes out to ASGI as exactly the
/// bytes the router produced.
pub proof fn lemma_text_header_bytes_round_trip(value: Seq<u8>)
    requires
        all_visible(value),
    ensures
        utf8_bytes(decode_utf8(value)) == value,
{
    lemma_visible_is_utf8(value);
    decode_utf8_encode_utf8(value);
}

/// Whether a header is handed back as text: its value is visible ASCII.
pub open spec fn header_is_text(h: (String, Vec<u8>)) -> bool {
    all_visible(h.1@)
}

/// A header as handed back: its name, and its value decoded.
pub open spec fn header_as_text(h: (String, Vec<u8>)) -> (Seq<char>, Seq<char>) {
    (h.0@, decode_utf8(h.1@))
}

/// Headers are kept or dropped one by one: the headers shown for two runs
/// of headers one after the other are those shown for the first run
/// followed by those shown for the second.
pub proof fn lemma_shown_headers_concat(a: Seq<(String, Vec<u8>)>, b: Seq<(String, Vec<u8>)>)
    ensures
        shown_headers(a + b) == shown_headers(a) + shown_headers(b),
    decreases b.len(),
{
    if b.len() == 0 {
        assert(a + b =~= a);
        assert(shown_headers(a) + shown_headers(b) =~= shown_headers(a));
    } else {
        lemma_shown_headers_concat(a, b.drop_last());
        assert((a + b).drop_last() =~= a + b.drop_last());
        assert((a + b).last() == b.last());
        if all_visible(b.last().1@) {
            assert(shown_headers(a) + shown_headers(b) =~= (shown_headers(a) + shown_headers(
                b.drop_last(),
            )).push((b.last().0@, decode_utf8(b.last().1@))));
        }
    }
}

/// A single header is shown, with its value as text, exactly when its
/// value is visible ASCII; otherwise nothing is shown for it.
pub proof fn lemma_shown_header_single(h: (String, Vec<u8>))
    ensures
        shown_headers(seq![h]) == (if header_is_text(h) {
            seq![header_as_text(h)]
        } else {
            Seq::empty()
        }),
{
    assert(seq![h].drop_last() =~= Seq::<(String, Vec<u8>)>::empty());
    assert(shown_headers(Seq::<(String, Vec<u8>)>::empty()) =~= Seq::<(Seq<char>, Seq<char>)>::empty());
    assert(seq![h].last() == h);
    assert(shown_headers(seq![h]) == (if all_visible(h.1@) {
        shown_headers(seq![h].drop_last()).push((h.0@, decode_utf8(h.1@)))
    } else {
        shown_headers(seq![h].drop_last())
    }));
    assert(Seq::<(Seq<char>, Seq<char>)>::empty().push(header_as_text(h)) =~= seq![header_as_text(h)]);
}

/// Appending a header appends it, as text, to the headers shown when its
/// own value is visible ASCII, and leaves them unchanged otherwise,
/// whatever the headers before it.
pub proof fn lemma_shown_headers_push(raw: Seq<(String, Vec<u8>)>, h: (String, Vec<u8>))
    ensures
        shown_headers(raw.push(h)) == shown_headers(raw) + (if header_is_text(h) {
            seq![header_as_text(h)]
        } else {
            Seq::empty()
        }),
{
    assert(raw.push(h) =~= raw + seq![h]);
    lemma_shown_headers_concat(raw, seq![h]);
    lemma_shown_header_single(h);
}

/// The headers shown are those whose value is visible ASCII, in their
/// order, each with its value as text.
pub proof fn lemma_shown_headers_filter(raw: Seq<(String, Vec<u8>)>)
    ensures
        shown_headers(raw) == raw.filter(|h: (String, Vec<u8>)| header_is_text(h)).map_values(
            |h: (String, Vec<u8>)| header_as_text(h),
        ),
    decreases raw.len(),
{
    reveal(Seq::filter);
    let pred = |h: (String, Vec<u8>)| header_is_text(h);
    let f = |h: (String, Vec<u8>)| header_as_text(h);
    if raw.len() > 0 {
        lemma_shown_headers_filter(raw.drop_last());
        let kept = raw.drop_last().filter(pred);
        if header_is_text(raw.last()) {
            assert(raw.filter(pred) == kept.push(raw.last()));
            assert(kept.push(raw.last()).map_values(f) =~= kept.map_values(f).push(f(raw.last())));
        } else {
            assert(raw.filter(pred) == kept);
        }
    } else {
        assert(raw.filter(pred).map_values(f) =~= Seq::<(Seq<char>, Seq<char>)>::empty());
    }
}

/// A message received on an open session is echoed whatever it holds: its
/// text first when it has text, its bytes last when it has bytes, and
/// nothing else; the session stays open.
pub proof fn lemma_ws_receive_echoes(event: WsEvent)
    requires
        event.kind@ == "websocket.receive"@,
    ensures
        spec_ws_next(WsPhase::Open, event) == WsPhase::Open,
        spec_ws_sends(WsPhase::Open, event).len() == (if event.text is Some {
            1int
        } else {
            0int
        }) + (if event.bytes is Some {
            1int
        } else {
            0int
        }),
        event.text matches Some(t) ==> spec_ws_sends(WsPhase::Open, event)[0] == WsSend::Text(t),
        event.bytes matches Some(b) ==> spec_ws_sends(WsPhase::Open, event)[spec_ws_sends(
            WsPhase::Open,
            event,
        ).len() - 1] == WsSend::Bytes(b),
{
    lemma_ws_kinds_distinct();
}

} // verus!
