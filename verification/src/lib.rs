//! Verified core of a bridge that embeds an axum router into a Python ASGI
//! host: request validation, response shaping, route bookkeeping and the
//! websocket echo protocol, each with its contract.

pub mod error;
pub mod order;
pub mod text;
pub mod http_syntax;
pub mod request;
pub mod response;
pub mod json;
pub mod bridge;
pub mod websocket;
pub mod laws;

pub use bridge::{AxumAsgiBridge, RouteRegistry};
pub use error::{BridgeError, ExceptionKind, Result};
pub use request::{scope_to_http_request, AsgiHttpScope, HttpRequestParts};
pub use response::{
    asgi_header_bytes, response_body_frame, text_headers, DispatchResult, DispatchStreamingResult,
};
pub use websocket::{ws_step, WsEvent, WsPhase, WsSend, WsTransition};
