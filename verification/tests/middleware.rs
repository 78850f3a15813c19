use axum::body::Body;
use axum::http::Request;
use axum::routing::get;
use axum_asgi_bridge::RouteRegistry;
use futures_util::FutureExt;
use tower::ServiceExt;

async fn long_text() -> String {
    "compressible ".repeat(64)
}

fn get_with(header: (&str, &str)) -> Request<Body> {
    Request::builder()
        .method("GET")
        .uri("/")
        .header(header.0, header.1)
        .body(Body::empty())
        .unwrap()
}

#[test]
fn cors_layer_answers_with_allow_origin() {
    let bridge = RouteRegistry::new().route("/", get(long_text)).into_bridge();
    let plain = bridge
        .router()
        .clone()
        .oneshot(get_with(("origin", "https://example.com")))
        .now_or_never()
        .expect("ready")
        .unwrap();
    assert!(plain.headers().get("access-control-allow-origin").is_none());

    let layered = bridge.with_cors_permissive();
    let response = layered
        .router()
        .clone()
        .oneshot(get_with(("origin", "https://example.com")))
        .now_or_never()
        .expect("ready")
        .unwrap();
    assert_eq!(response.status(), 200);
    assert_eq!(response.headers()["access-control-allow-origin"], "*");
}

#[test]
fn compression_layer_encodes_the_body() {
    let bridge = RouteRegistry::new().route("/", get(long_text)).into_bridge();
    let plain = bridge
        .router()
        .clone()
        .oneshot(get_with(("accept-encoding", "gzip")))
        .now_or_never()
        .expect("ready")
        .unwrap();
    assert!(plain.headers().get("content-encoding").is_none());

    let layered = bridge.with_compression();
    let response = layered
        .router()
        .clone()
        .oneshot(get_with(("accept-encoding", "gzip")))
        .now_or_never()
        .expect("ready")
        .unwrap();
    assert_eq!(response.status(), 200);
    assert_eq!(response.headers()["content-encoding"], "gzip");
}
