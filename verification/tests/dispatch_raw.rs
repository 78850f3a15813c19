use axum::routing::get;
use axum::Json;
use axum_asgi_bridge::RouteRegistry;

async fn handler() -> Json<serde_json::Value> {
    Json(serde_json::Value::Bool(true))
}

#[test]
fn route_registry_tracks_patterns() {
    let bridge = RouteRegistry::new()
        .route("/", get(handler))
        .route("/items", get(handler))
        .into_bridge();

    let routes_json = bridge
        .provided_route_patterns_json()
        .expect("routes should serialize");
    let routes: Vec<String> = serde_json::from_str(&routes_json).expect("valid json");
    assert!(routes.contains(&"/".to_string()));
    assert!(routes.contains(&"/items".to_string()));
}
