use axum::routing::{get, post};
use axum::Router;
use axum_asgi_bridge::{AxumAsgiBridge, BridgeError, RouteRegistry};

async fn ok() -> &'static str {
    "ok"
}

fn patterns_json(bridge: &AxumAsgiBridge) -> String {
    bridge.provided_route_patterns_json().expect("patterns encode")
}

#[test]
fn registry_patterns_come_out_sorted_and_once() {
    let bridge = RouteRegistry::new()
        .route("/zeta", get(ok))
        .route("/alpha", get(ok))
        .route("/alpha", post(ok))
        .into_bridge();
    assert_eq!(patterns_json(&bridge), r#"["/alpha","/zeta"]"#);
}

#[test]
fn empty_registry_serves_no_patterns() {
    let bridge = RouteRegistry::new().into_bridge();
    assert_eq!(patterns_json(&bridge), "[]");
    assert_eq!(bridge.openapi_schema_json(), Ok(None));
}

#[test]
fn nest_records_patterns_behind_trimmed_prefix() {
    let nested = RouteRegistry::new().route("/items", get(ok)).route("/", get(ok));
    let bridge = RouteRegistry::new()
        .route("/health", get(ok))
        .nest("/api/", nested)
        .into_bridge();
    assert_eq!(patterns_json(&bridge), r#"["/api/","/api/items","/health"]"#);
}

#[test]
fn nest_with_and_without_trailing_slash_agree() {
    let with_slash = RouteRegistry::new()
        .nest("/v1/", RouteRegistry::new().route("/x", get(ok)))
        .into_bridge();
    let without_slash = RouteRegistry::new()
        .nest("/v1", RouteRegistry::new().route("/x", get(ok)))
        .into_bridge();
    assert_eq!(patterns_json(&with_slash), patterns_json(&without_slash));
    assert_eq!(patterns_json(&with_slash), r#"["/v1/x"]"#);
}

#[test]
fn merge_keeps_patterns_of_both() {
    let left = RouteRegistry::new().route("/b", get(ok));
    let right = RouteRegistry::new().route("/a", get(ok)).route("/c", get(ok));
    let bridge = left.merge(right).into_bridge();
    assert_eq!(patterns_json(&bridge), r#"["/a","/b","/c"]"#);
}

#[test]
fn declared_patterns_are_sorted_and_deduplicated() {
    let bridge = AxumAsgiBridge::new(Router::new()).with_route_patterns(vec![
        "/b".to_string(),
        "/a".to_string(),
        "/b".to_string(),
    ]);
    assert_eq!(patterns_json(&bridge), r#"["/a","/b"]"#);
}

#[test]
fn declaration_order_does_not_change_the_patterns() {
    let first = AxumAsgiBridge::new(Router::new())
        .with_route_patterns(vec!["/x".to_string(), "/y".to_string(), "/é".to_string()]);
    let second = AxumAsgiBridge::new(Router::new()).with_route_patterns(vec![
        "/é".to_string(),
        "/y".to_string(),
        "/x".to_string(),
        "/y".to_string(),
    ]);
    assert_eq!(patterns_json(&first), patterns_json(&second));
    assert_eq!(patterns_json(&first), "[\"/x\",\"/y\",\"/é\"]");
}

#[test]
fn declared_patterns_replace_earlier_ones() {
    let bridge = AxumAsgiBridge::new(Router::new())
        .with_route_patterns(vec!["/old".to_string()])
        .with_route_patterns(vec!["/new".to_string()]);
    assert_eq!(patterns_json(&bridge), r#"["/new"]"#);
}

#[test]
fn patterns_order_by_utf8_bytes() {
    // "Z" (0x5A) comes before "a" (0x61), and a prefix before its extensions.
    let bridge = AxumAsgiBridge::new(Router::new()).with_route_patterns(vec![
        "/ab".to_string(),
        "/a".to_string(),
        "/Z".to_string(),
    ]);
    assert_eq!(patterns_json(&bridge), r#"["/Z","/a","/ab"]"#);
}

#[test]
fn patterns_json_escapes_like_serde_json() {
    let tricky = "/q\"b\\s\n\t\u{1}".to_string();
    let bridge = AxumAsgiBridge::new(Router::new()).with_route_patterns(vec![tricky.clone()]);
    let text = patterns_json(&bridge);
    assert_eq!(text, "[\"/q\\\"b\\\\s\\n\\t\\u0001\"]");
    let back: Vec<String> = serde_json::from_str(&text).expect("valid json");
    assert_eq!(back, vec![tricky]);
}

#[test]
fn openapi_schema_round_trips_as_json() {
    let schema: serde_json::Value =
        serde_json::from_str(r#"{"openapi":"3.1.0","paths":{}}"#).expect("valid schema");
    let bridge = AxumAsgiBridge::new(Router::new()).with_openapi_schema(schema.clone());
    let text = bridge
        .openapi_schema_json()
        .expect("schema encodes")
        .expect("schema present");
    let back: serde_json::Value = serde_json::from_str(&text).expect("valid json");
    assert_eq!(back, schema);
}

#[test]
fn builders_keep_patterns_and_schema() {
    let schema: serde_json::Value = serde_json::from_str(r#"{"openapi":"3.1.0"}"#).unwrap();
    let bridge = RouteRegistry::new()
        .route("/", get(ok))
        .into_bridge()
        .with_openapi_schema(schema)
        .with_compression()
        .with_cors_permissive()
        .with_timeout(std::time::Duration::from_secs(1))
        .with_trace_http();
    assert_eq!(patterns_json(&bridge), r#"["/"]"#);
    assert!(bridge.openapi_schema_json().unwrap().is_some());
    let copy = bridge.clone();
    assert_eq!(patterns_json(&copy), r#"["/"]"#);
}

#[test]
fn json_encode_error_names_its_context() {
    let err = BridgeError::JsonEncode {
        context: "provided_route_patterns_json",
        message: "boom".to_string(),
    };
    assert_eq!(
        err.message(),
        "JSON encoding failed (provided_route_patterns_json): boom"
    );
}

#[test]
fn default_registry_is_empty() {
    let bridge = RouteRegistry::default().into_bridge();
    assert_eq!(patterns_json(&bridge), "[]");
}

#[test]
fn converted_schema_is_attached() {
    let value: serde_json::Value = serde_json::from_str(r#"{"openapi":"3.1.0"}"#).unwrap();
    let bridge = AxumAsgiBridge::new(Router::new()).with_converted_schema(Ok(value));
    assert_eq!(
        bridge.openapi_schema_json(),
        Ok(Some(r#"{"openapi":"3.1.0"}"#.to_string()))
    );
}

#[test]
fn failed_schema_conversion_attaches_null() {
    let error = serde_json::from_str::<serde_json::Value>("{").unwrap_err();
    let bridge = AxumAsgiBridge::new(Router::new()).with_converted_schema(Err(error));
    assert_eq!(bridge.openapi_schema_json(), Ok(Some("null".to_string())));
}
