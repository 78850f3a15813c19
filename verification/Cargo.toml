[package]
name = "axum_asgi_bridge"
version = "0.1.0"
edition = "2021"
publish = false

[dependencies]
axum = "0.8"
futures-util = "0.3"
http-body-util = "0.1"
pyo3 = "*"
pyo3-async-runtimes = { version = "*", features = ["tokio-runtime"] }
serde_json = "1"
thiserror = "2"
tower = { version = "0.5", features = ["util"] }
tower-http = { version = "0.6", features = ["compression-gzip", "cors", "timeout", "trace"] }
tracing = "0.1"
utoipa = "5"
