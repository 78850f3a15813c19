use futures_util::FutureExt;
use http_body_util::BodyExt;
use axum_asgi_bridge::{scope_to_http_request, AsgiHttpScope, BridgeError, ExceptionKind};

fn scope(method: &str, path: &str, query: &str, headers: &[(&str, &str)]) -> AsgiHttpScope {
    AsgiHttpScope::from_structured(
        method.to_string(),
        path.to_string(),
        query.to_string(),
        headers
            .iter()
            .map(|(n, v)| (n.to_string(), v.to_string()))
            .collect(),
    )
}

#[test]
fn empty_query_string_means_no_query() {
    let s = scope("GET", "/items", "", &[]);
    assert_eq!(s.query_string, None);
    assert_eq!(s.request_target(), "/items");
}

#[test]
fn query_string_is_joined_with_question_mark() {
    let s = scope("GET", "/items", "page=2&size=10", &[]);
    assert_eq!(s.query_string, Some("page=2&size=10".to_string()));
    assert_eq!(s.request_target(), "/items?page=2&size=10");
}

#[test]
fn valid_scope_becomes_request_parts() {
    let s = scope(
        "GET",
        "/items",
        "x=1",
        &[("Content-Type", "application/json"), ("x-trace", "a\tb")],
    );
    let parts = scope_to_http_request(s, b"payload".to_vec()).expect("valid request");
    assert_eq!(parts.method(), "GET");
    assert_eq!(parts.target(), "/items?x=1");
    assert_eq!(
        parts.headers(),
        &vec![
            ("Content-Type".to_string(), "application/json".to_string()),
            ("x-trace".to_string(), "a\tb".to_string()),
        ]
    );
    assert_eq!(parts.body(), &b"payload".to_vec());
    let request = parts.into_http_request().expect("header map takes the headers");
    assert_eq!(request.method(), axum::http::Method::GET);
    assert_eq!(request.uri().to_string(), "/items?x=1");
    assert_eq!(request.headers().len(), 2);
    assert_eq!(request.headers()["content-type"], "application/json");
    assert_eq!(request.headers()["x-trace"].as_bytes(), b"a\tb");
}

#[test]
fn extension_method_is_accepted() {
    let parts = scope_to_http_request(scope("NOPE", "/", "", &[]), Vec::new()).expect("token");
    assert_eq!(parts.method(), "NOPE");
    assert_eq!(parts.into_http_request().expect("header map takes the headers").method().as_str(), "NOPE");
}

#[test]
fn method_with_space_is_rejected() {
    let err = scope_to_http_request(scope("GE T", "/", "", &[]), Vec::new()).err().unwrap();
    assert_eq!(err, BridgeError::InvalidMethod("GE T".to_string()));
    assert_eq!(err.exception_kind(), ExceptionKind::InvalidRequest);
    assert_eq!(err.message(), "invalid HTTP method: GE T");
}

#[test]
fn empty_method_is_rejected() {
    let err = scope_to_http_request(scope("", "/", "", &[]), Vec::new()).err().unwrap();
    assert_eq!(err, BridgeError::InvalidMethod(String::new()));
}

#[test]
fn bad_target_is_rejected_with_the_target() {
    let err = scope_to_http_request(scope("GET", "/a b", "q=1", &[]), Vec::new())
        .err()
        .unwrap();
    assert_eq!(err, BridgeError::InvalidUri("/a b?q=1".to_string()));
    assert_eq!(err.message(), "invalid URI path/query: /a b?q=1");
}

#[test]
fn bad_header_name_is_rejected() {
    let err = scope_to_http_request(
        scope("GET", "/", "", &[("ok", "1"), ("bad header", "x")]),
        Vec::new(),
    )
    .err()
    .unwrap();
    assert_eq!(err, BridgeError::InvalidHeaderName("bad header".to_string()));
    assert_eq!(err.exception_kind(), ExceptionKind::InvalidRequest);
}

#[test]
fn bad_header_value_is_rejected_with_http_message() {
    let err = scope_to_http_request(scope("GET", "/", "", &[("x-a", "line\nbreak")]), Vec::new())
        .err()
        .unwrap();
    assert_eq!(
        err,
        BridgeError::InvalidHeaderValue {
            name: "x-a".to_string(),
            message: "failed to parse header value".to_string(),
        }
    );
    assert_eq!(
        err.message(),
        "invalid header value for x-a: failed to parse header value"
    );
}

#[test]
fn non_ascii_header_value_is_accepted() {
    let parts = scope_to_http_request(scope("GET", "/", "", &[("x-name", "café")]), Vec::new())
        .expect("bytes above 127 are allowed");
    assert_eq!(parts.headers()[0].1, "café");
    assert_eq!(parts.into_http_request().expect("header map takes the headers").headers()["x-name"].as_bytes(), "café".as_bytes());
}

#[test]
fn method_is_checked_before_headers() {
    let err = scope_to_http_request(
        scope("BAD METHOD", "/a b", "", &[("bad header", "x")]),
        Vec::new(),
    )
    .err()
    .unwrap();
    assert_eq!(err, BridgeError::InvalidMethod("BAD METHOD".to_string()));
}

#[test]
fn target_is_checked_before_headers() {
    let err = scope_to_http_request(scope("GET", "/a b", "", &[("bad header", "x")]), Vec::new())
        .err()
        .unwrap();
    assert_eq!(err, BridgeError::InvalidUri("/a b".to_string()));
}

#[test]
fn first_bad_header_is_reported() {
    let err = scope_to_http_request(
        scope("GET", "/", "", &[("x-a", "bad\u{7f}"), ("bad name", "v")]),
        Vec::new(),
    )
    .err()
    .unwrap();
    assert!(matches!(err, BridgeError::InvalidHeaderValue { ref name, .. } if name == "x-a"));
}

#[test]
fn overlong_header_name_is_rejected() {
    let long = "a".repeat(65536);
    let err = scope_to_http_request(scope("GET", "/", "", &[(long.as_str(), "v")]), Vec::new())
        .err()
        .unwrap();
    assert_eq!(err, BridgeError::InvalidHeaderName(long.clone()));
    let longest = "a".repeat(65535);
    assert!(scope_to_http_request(scope("GET", "/", "", &[(longest.as_str(), "v")]), Vec::new())
        .is_ok());
}

#[test]
fn repeated_header_names_fold_into_one_entry() {
    let parts = scope_to_http_request(
        scope("GET", "/", "", &[("X-A", "1"), ("x-b", "b"), ("x-a", "2")]),
        Vec::new(),
    )
    .expect("valid request");
    assert_eq!(
        parts.headers(),
        &vec![
            ("X-A".to_string(), "1".to_string()),
            ("x-b".to_string(), "b".to_string()),
            ("x-a".to_string(), "2".to_string()),
        ]
    );
    let request = parts.into_http_request().expect("header map takes the headers");
    let values: Vec<_> = request.headers().get_all("x-a").iter().collect();
    assert_eq!(values, vec!["2"]);
    assert_eq!(request.headers().len(), 2);
}

#[test]
fn request_parts_carry_the_scope() {
    let parts = scope_to_http_request(
        scope("GET", "/items", "a=1&b=2", &[("x-a", "1")]),
        b"xy".to_vec(),
    )
    .expect("valid request");
    let request = parts.into_http_request().expect("header map takes the headers");
    assert_eq!(request.method(), axum::http::Method::GET);
    assert_eq!(request.uri(), "/items?a=1&b=2");
    assert_eq!(request.headers().len(), 1);
    assert_eq!(request.headers()["x-a"], "1");
}

#[test]
fn request_body_carries_the_scope_body() {
    let parts = scope_to_http_request(scope("POST", "/", "", &[]), b"xy".to_vec())
        .expect("valid request");
    let request = parts.into_http_request().expect("header map takes the headers");
    let bytes = request
        .into_body()
        .collect()
        .now_or_never()
        .expect("ready")
        .expect("body")
        .to_bytes();
    assert_eq!(&bytes[..], b"xy");
}

#[test]
fn header_map_refuses_past_its_size_limit() {
    let names: Vec<String> = (0..30000).map(|i| format!("x-h{i}")).collect();
    let pairs: Vec<(&str, &str)> = names.iter().map(|n| (n.as_str(), "v")).collect();
    let parts = scope_to_http_request(scope("GET", "/", "", &pairs), Vec::new())
        .expect("valid request");
    assert!(parts.into_http_request().is_none());
}

#[test]
fn many_distinct_headers_are_taken() {
    let names: Vec<String> = (0..6553).map(|i| format!("x-h{i}")).collect();
    let pairs: Vec<(&str, &str)> = names.iter().map(|n| (n.as_str(), "v")).collect();
    let parts = scope_to_http_request(scope("GET", "/", "", &pairs), Vec::new())
        .expect("valid request");
    let request = parts.into_http_request().expect("header map takes the headers");
    assert_eq!(request.headers().len(), 6553);
}
