use axum::body::Body;
use axum::http::{Request, StatusCode};
use axum::routing::{get, post};
use axum::Router;
use axum_asgi_bridge::RouteRegistry;
use futures_util::FutureExt;
use tower::ServiceExt;

async fn ok() -> &'static str {
    "ok"
}

fn status_of(router: &Router, method: &str, uri: &str) -> StatusCode {
    let request = Request::builder()
        .method(method)
        .uri(uri)
        .body(Body::empty())
        .unwrap();
    router
        .clone()
        .oneshot(request)
        .now_or_never()
        .expect("ready")
        .unwrap()
        .status()
}

#[test]
fn new_registry_router_serves_nothing() {
    let bridge = RouteRegistry::new().into_bridge();
    assert_eq!(status_of(bridge.router(), "GET", "/"), StatusCode::NOT_FOUND);
    assert_eq!(status_of(bridge.router(), "GET", "/x"), StatusCode::NOT_FOUND);
}

#[test]
fn routed_paths_are_served_with_their_methods() {
    let bridge = RouteRegistry::new()
        .route("/a", get(ok))
        .route("/a", post(ok))
        .route("/b", get(ok))
        .into_bridge();
    let router = bridge.router();
    assert_eq!(status_of(router, "GET", "/a"), StatusCode::OK);
    assert_eq!(status_of(router, "POST", "/a"), StatusCode::OK);
    assert_eq!(status_of(router, "GET", "/b"), StatusCode::OK);
    assert_eq!(status_of(router, "POST", "/b"), StatusCode::METHOD_NOT_ALLOWED);
    assert_eq!(status_of(router, "GET", "/c"), StatusCode::NOT_FOUND);
}

#[test]
fn nested_routes_are_served_where_they_are_recorded() {
    let inner = RouteRegistry::new().route("/items", get(ok));
    let bridge = RouteRegistry::new()
        .route("/", get(ok))
        .nest("/api/", inner)
        .into_bridge();
    assert_eq!(
        bridge.provided_route_patterns_json().unwrap(),
        r#"["/","/api/items"]"#
    );
    let router = bridge.router();
    assert_eq!(status_of(router, "GET", "/api/items"), StatusCode::OK);
    assert_eq!(status_of(router, "GET", "/"), StatusCode::OK);
    assert_eq!(status_of(router, "GET", "/api//items"), StatusCode::NOT_FOUND);
}

#[test]
fn nested_root_behind_a_bare_prefix_is_served_at_the_prefix() {
    // The pattern is recorded with a trailing slash, while axum routes the
    // nested root at the prefix itself.
    let bridge = RouteRegistry::new()
        .nest("/api", RouteRegistry::new().route("/", get(ok)))
        .into_bridge();
    assert_eq!(bridge.provided_route_patterns_json().unwrap(), r#"["/api/"]"#);
    let router = bridge.router();
    assert_eq!(status_of(router, "GET", "/api"), StatusCode::OK);
    assert_eq!(status_of(router, "GET", "/api/"), StatusCode::NOT_FOUND);
}

#[test]
fn merged_routers_serve_the_routes_of_both() {
    let left = RouteRegistry::new().route("/a", get(ok));
    let right = RouteRegistry::new().route("/a", post(ok)).route("/b", get(ok));
    let bridge = left.merge(right).into_bridge();
    let router = bridge.router();
    assert_eq!(status_of(router, "GET", "/a"), StatusCode::OK);
    assert_eq!(status_of(router, "POST", "/a"), StatusCode::OK);
    assert_eq!(status_of(router, "GET", "/b"), StatusCode::OK);
}
