//! The websocket side of the bridge: an echo session over ASGI events,
//! written as the decision taken on each event received. The host runs the
//! loop: it receives an event, asks for the step, sends what the step says
//! in order, and stops once the session is finished.
use vstd::prelude::*;

verus! {

/// Where a websocket session stands.
#[derive(Debug, Clone, Copy, PartialEq, Eq)]
pub enum WsPhase {
    /// Nothing received yet: the first event must be `websocket.connect`.
    AwaitingConnect,
    /// Accepted: messages are echoed.
    Open,
    /// Disconnected or closed: nothing more is received or sent.
    Finished,
}

/// An ASGI event received from the client side: its `type`, and the
/// `text` and `bytes` it carries, if any.
#[derive(Debug, Clone, PartialEq, Eq)]
pub struct WsEvent {
    pub kind: String,
    pub text: Option<String>,
    pub bytes: Option<Vec<u8>>,
}

/// An ASGI event the bridge sends.
#[derive(Debug, Clone, PartialEq, Eq)]
pub enum WsSend {
    /// `websocket.accept`.
    Accept,
    /// `websocket.send` with `text`.
    Text(String),
    /// `websocket.send` with `bytes`.
    Bytes(Vec<u8>),
    /// `websocket.close`.
    Close,
}

/// What to do after an event: the phase the session moves to and the
/// events to send, in order.
#[derive(Debug, Clone, PartialEq, Eq)]
pub struct WsTransition {
    pub phase: WsPhase,
    pub sends: Vec<WsSend>,
}

/// Whether the event may be taken in this phase: only the first event is
/// constrained, and it must be a connect.
pub open spec fn spec_ws_accepts(phase: WsPhase, event: WsEvent) -> bool {
    phase == WsPhase::AwaitingConnect ==> event.kind@ == "websocket.connect"@
}

/// The phase after an accepted event.
pub open spec fn spec_ws_next(phase: WsPhase, event: WsEvent) -> WsPhase {
    match phase {
        WsPhase::AwaitingConnect => WsPhase::Open,
        WsPhase::Open => if event.kind@ == "websocket.disconnect"@ || event.kind@
            == "websocket.close"@ {
            WsPhase::Finished
        } else {
            WsPhase::Open
        },
        WsPhase::Finished => WsPhase::Finished,
    }
}

/// The echo of a received message: its text, then its bytes, each when
/// present.
pub open spec fn spec_ws_echo(event: WsEvent) -> Seq<WsSend> {
    let text: Seq<WsSend> = match event.text {
        Some(t) => seq![WsSend::Text(t)],
        None => Seq::empty(),
    };
    let bytes: Seq<WsSend> = match event.bytes {
        Some(b) => seq![WsSend::Bytes(b)],
        None => Seq::empty(),
    };
    text + bytes
}

/// The events sent in answer to an accepted event: the accept for the
/// connect, the echo of a received message, the close for a close, and
/// nothing otherwise.
pub open spec fn spec_ws_sends(phase: WsPhase, event: WsEvent) -> Seq<WsSend> {
    match phase {
        WsPhase::AwaitingConnect => seq![WsSend::Accept],
        WsPhase::Open => if event.kind@ == "websocket.receive"@ {
            spec_ws_echo(event)
        } else if event.kind@ == "websocket.close"@ {
            seq![WsSend::Close]
        } else {
            Seq::empty()
        },
        WsPhase::Finished => Seq::empty(),
    }
}

/// The session over a run of events: the phase it ends in and every event
/// sent, or `None` when an event is refused.
pub open spec fn spec_ws_run(phase: WsPhase, events: Seq<WsEvent>) -> Option<(WsPhase, Seq<WsSend>)>
    decreases events.len(),
{
    if events.len() == 0 {
        Some((phase, Seq::empty()))
    } else if !spec_ws_accepts(phase, events[0]) {
        None
    } else {
        match spec_ws_run(spec_ws_next(phase, events[0]), events.drop_first()) {
            Some((last, sent)) => Some((last, spec_ws_sends(phase, events[0]) + sent)),
            None => None,
        }
    }
}

/// The event kinds the session tells apart are distinct texts.
pub proof fn lemma_ws_kinds_distinct()
    ensures
        "websocket.receive"@ != "websocket.disconnect"@,
        "websocket.receive"@ != "websocket.close"@,
        "websocket.close"@ != "websocket.disconnect"@,
{
    reveal_strlit("websocket.receive");
    reveal_strlit("websocket.disconnect");
    reveal_strlit("websocket.close");
    assert("websocket.receive"@.len() == 17);
    assert("websocket.disconnect"@.len() == 20);
    assert("websocket.close"@.len() == 15);
}

fn kind_is(kind: &String, expected: &str) -> (same: bool)
    ensures
        same == (kind@ == expected@),
{
    *kind == String::from_str(expected)
}

/// Decides what a websocket event leads to. The first event of a session
/// must be `websocket.connect`, which is accepted; afterwards a received
/// message is echoed, a close is answered with a close and ends the
/// session, a disconnect ends it silently, and other events are ignored.
/// A first event of another kind is refused with the message the host
/// raises.
pub fn ws_step(phase: WsPhase, event: WsEvent) -> (res: Result<WsTransition, String>)
    ensures
        res is Ok <==> spec_ws_accepts(phase, event),
        res matches Ok(t) ==> t.phase == spec_ws_next(phase, event) && t.sends@ == spec_ws_sends(
            phase,
            event,
        ),
        res matches Err(message) ==> message@ == "expected websocket.connect, got "@
            + event.kind@,
{
    proof {
        lemma_ws_kinds_distinct();
    }
    match phase {
        WsPhase::AwaitingConnect => {
            if kind_is(&event.kind, "websocket.connect") {
                let mut sends: Vec<WsSend> = Vec::new();
                sends.push(WsSend::Accept);
                assert(sends@ =~= seq![WsSend::Accept]);
                Ok(WsTransition { phase: WsPhase::Open, sends })
            } else {
                Err(String::from_str("expected websocket.connect, got ").concat(event.kind.as_str()))
            }
        },
        WsPhase::Open => {
            let mut sends: Vec<WsSend> = Vec::new();
            if kind_is(&event.kind, "websocket.disconnect") {
                assert(sends@ =~= Seq::<WsSend>::empty());
                Ok(WsTransition { phase: WsPhase::Finished, sends })
            } else if kind_is(&event.kind, "websocket.receive") {
                let ghost e = event;
                if let Some(text) = event.text {
                    sends.push(WsSend::Text(text));
                }
                if let Some(bytes) = event.bytes {
                    sends.push(WsSend::Bytes(bytes));
                }
                assert(sends@ =~= spec_ws_echo(e));
                Ok(WsTransition { phase: WsPhase::Open, sends })
            } else if kind_is(&event.kind, "websocket.close") {
                sends.push(WsSend::Close);
                assert(sends@ =~= seq![WsSend::Close]);
                Ok(WsTransition { phase: WsPhase::Finished, sends })
            } else {
                assert(sends@ =~= Seq::<WsSend>::empty());
                Ok(WsTransition { phase: WsPhase::Open, sends })
            }
        },
        WsPhase::Finished => {
            let sends: Vec<WsSend> = Vec::new();
            assert(sends@ =~= Seq::<WsSend>::empty());
            Ok(WsTransition { phase: WsPhase::Finished, sends })
        },
    }
}

/// Once a session is finished, no run of further events is refused, sends
/// anything, or reopens it.
pub proof fn lemma_ws_finished_is_final(events: Seq<WsEvent>)
    ensures
        spec_ws_run(WsPhase::Finished, events) == Some(
            (WsPhase::Finished, Seq::<WsSend>::empty()),
        ),
    decreases events.len(),
{
    if events.len() > 0 {
        lemma_ws_finished_is_final(events.drop_first());
        assert(spec_ws_sends(WsPhase::Finished, events[0]) + Seq::<WsSend>::empty() =~= Seq::<
            WsSend,
        >::empty());
    }
}

/// A session is refused at its first event exactly when that event is not
/// a connect; a connect is answered with an accept before anything else.
pub proof fn lemma_ws_session_starts_with_accept(events: Seq<WsEvent>)
    requires
        events.len() > 0,
    ensures
        spec_ws_run(WsPhase::AwaitingConnect, events) is None <==> events[0].kind@
            != "websocket.connect"@,
        spec_ws_run(WsPhase::AwaitingConnect, events) matches Some((_, sent)) ==> sent.len() > 0
            && sent[0] == WsSend::Accept,
{
    if events[0].kind@ == "websocket.connect"@ {
        lemma_ws_open_never_refused(events.drop_first());
    }
}

/// An open session takes every event: only the first event of a session can
/// be refused.
pub proof fn lemma_ws_open_never_refused(events: Seq<WsEvent>)
    ensures
        spec_ws_run(WsPhase::Open, events) is Some,
    decreases events.len(),
{
    if events.len() > 0 {
        let next = spec_ws_next(WsPhase::Open, events[0]);
        if next == WsPhase::Open {
            lemma_ws_open_never_refused(events.drop_first());
        } else {
            lemma_ws_finished_is_final(events.drop_first());
        }
    }
}

/// An open session that receives only messages echoes each of them, in
/// order, and stays open.
pub proof fn lemma_ws_echoes_messages_in_order(events: Seq<WsEvent>)
    requires
        forall|i: int| 0 <= i < events.len() ==> (#[trigger] events[i]).kind@
            == "websocket.receive"@,
    ensures
        spec_ws_run(WsPhase::Open, events) == Some((WsPhase::Open, echo_all(events))),
    decreases events.len(),
{
    if events.len() > 0 {
        assert forall|i: int| 0 <= i < events.drop_first().len() implies (
        #[trigger] events.drop_first()[i]).kind@ == "websocket.receive"@ by {
            assert(events.drop_first()[i] == events[i + 1]);
        }
        lemma_ws_echoes_messages_in_order(events.drop_first());
        assert(events[0].kind@ == "websocket.receive"@);
        lemma_ws_kinds_distinct();
    }
}

/// The echoes of a run of messages, one after the other.
pub open spec fn echo_all(events: Seq<WsEvent>) -> Seq<WsSend>
    decreases events.len(),
{
    if events.len() == 0 {
        Seq::empty()
    } else {
        spec_ws_echo(events[0]) + echo_all(events.drop_first())
    }
}

} // verus!
