use axum_asgi_bridge::{
    ws_step, BridgeError, ExceptionKind, WsEvent, WsPhase, WsSend, WsTransition,
};

fn event(kind: &str, text: Option<&str>, bytes: Option<&[u8]>) -> WsEvent {
    WsEvent {
        kind: kind.to_string(),
        text: text.map(|t| t.to_string()),
        bytes: bytes.map(|b| b.to_vec()),
    }
}

#[test]
fn every_error_has_its_exception_kind() {
    let cases = vec![
        (BridgeError::InvalidMethod("X Y".into()), ExceptionKind::InvalidRequest),
        (BridgeError::InvalidUri("/ x".into()), ExceptionKind::InvalidRequest),
        (BridgeError::InvalidHeaderName("a b".into()), ExceptionKind::InvalidRequest),
        (
            BridgeError::InvalidHeaderValue { name: "n".into(), message: "m".into() },
            ExceptionKind::InvalidRequest,
        ),
        (BridgeError::Service("down".into()), ExceptionKind::Dispatch),
        (BridgeError::ResponseBody("cut".into()), ExceptionKind::ResponseBody),
        (
            BridgeError::JsonEncode { context: "ctx", message: "m".into() },
            ExceptionKind::Config,
        ),
    ];
    for (err, kind) in cases {
        assert_eq!(err.exception_kind(), kind);
    }
}

#[test]
fn error_messages_match_their_display_text() {
    assert_eq!(BridgeError::InvalidUri("/ x".into()).message(), "invalid URI path/query: / x");
    assert_eq!(BridgeError::InvalidHeaderName("a b".into()).message(), "invalid header name: a b");
    assert_eq!(BridgeError::Service("down".into()).message(), "service dispatch failed: down");
    assert_eq!(
        BridgeError::ResponseBody("cut".into()).message(),
        "response body read failed: cut"
    );
    assert_eq!(
        BridgeError::JsonEncode { context: "openapi_schema_json", message: "m".into() }.message(),
        "JSON encoding failed (openapi_schema_json): m"
    );
}

#[test]
fn connect_is_accepted() {
    let step = ws_step(WsPhase::AwaitingConnect, event("websocket.connect", None, None));
    assert_eq!(step, Ok(WsTransition { phase: WsPhase::Open, sends: vec![WsSend::Accept] }));
}

#[test]
fn other_first_event_is_refused() {
    let step = ws_step(WsPhase::AwaitingConnect, event("websocket.receive", Some("hi"), None));
    assert_eq!(step, Err("expected websocket.connect, got websocket.receive".to_string()));
}

#[test]
fn received_message_is_echoed_text_then_bytes() {
    let step = ws_step(
        WsPhase::Open,
        event("websocket.receive", Some("hello"), Some(&[1, 2, 3])),
    );
    assert_eq!(
        step,
        Ok(WsTransition {
            phase: WsPhase::Open,
            sends: vec![WsSend::Text("hello".to_string()), WsSend::Bytes(vec![1, 2, 3])],
        })
    );
}

#[test]
fn empty_message_echoes_nothing() {
    let step = ws_step(WsPhase::Open, event("websocket.receive", None, None));
    assert_eq!(step, Ok(WsTransition { phase: WsPhase::Open, sends: vec![] }));
}

#[test]
fn close_is_answered_and_ends_the_session() {
    let step = ws_step(WsPhase::Open, event("websocket.close", None, None));
    assert_eq!(step, Ok(WsTransition { phase: WsPhase::Finished, sends: vec![WsSend::Close] }));
}

#[test]
fn disconnect_ends_the_session_silently() {
    let step = ws_step(WsPhase::Open, event("websocket.disconnect", None, None));
    assert_eq!(step, Ok(WsTransition { phase: WsPhase::Finished, sends: vec![] }));
}

#[test]
fn unknown_events_are_ignored() {
    let step = ws_step(WsPhase::Open, event("websocket.ping", Some("x"), None));
    assert_eq!(step, Ok(WsTransition { phase: WsPhase::Open, sends: vec![] }));
}

#[test]
fn finished_session_sends_nothing() {
    for kind in ["websocket.connect", "websocket.receive", "websocket.close"] {
        let step = ws_step(WsPhase::Finished, event(kind, Some("late"), None));
        assert_eq!(step, Ok(WsTransition { phase: WsPhase::Finished, sends: vec![] }));
    }
}

#[test]
fn session_echoes_messages_in_order() {
    let events = vec![
        event("websocket.connect", None, None),
        event("websocket.receive", Some("one"), None),
        event("websocket.receive", None, Some(b"two")),
        event("websocket.close", None, None),
        event("websocket.receive", Some("ignored"), None),
    ];
    let mut phase = WsPhase::AwaitingConnect;
    let mut sent = Vec::new();
    for e in events {
        let step = ws_step(phase, e).expect("accepted");
        phase = step.phase;
        sent.extend(step.sends);
    }
    assert_eq!(phase, WsPhase::Finished);
    assert_eq!(
        sent,
        vec![
            WsSend::Accept,
            WsSend::Text("one".to_string()),
            WsSend::Bytes(b"two".to_vec()),
            WsSend::Close,
        ]
    );
}
