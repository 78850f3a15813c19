use vstd::prelude::*;

verus! {

/// Every way a dispatch through the bridge can fail.
#[derive(Debug, Clone, PartialEq, Eq)]
pub enum BridgeError {
    /// The method string is not an HTTP method token.
    InvalidMethod(String),
    /// The path and query do not form a valid request target.
    InvalidUri(String),
    /// A request header name is not a valid field name.
    InvalidHeaderName(String),
    /// A request header value holds a forbidden byte.
    InvalidHeaderValue { name: String, message: String },
    /// The router or the request builder failed.
    Service(String),
    /// Reading the response body failed.
    ResponseBody(String),
    /// Encoding a value as JSON failed.
    JsonEncode { context: &'static str, message: String },
}

/// The result of the bridge's fallible operations.
pub type Result<T> = std::result::Result<T, BridgeError>;

/// The family of Python exception that a [`BridgeError`] surfaces as.
#[derive(Debug, Clone, Copy, PartialEq, Eq)]
pub enum ExceptionKind {
    /// Configuration problems (JSON encoding of metadata).
    Config,
    /// Malformed requests: method, URI, header name or value.
    InvalidRequest,
    /// Failures inside the router.
    Dispatch,
    /// Failures while reading the response body.
    ResponseBody,
}

/// The exception family each error maps to.
pub open spec fn spec_exception_kind(e: BridgeError) -> ExceptionKind {
    match e {
        BridgeError::InvalidMethod(_) => ExceptionKind::InvalidRequest,
        BridgeError::InvalidUri(_) => ExceptionKind::InvalidRequest,
        BridgeError::InvalidHeaderName(_) => ExceptionKind::InvalidRequest,
        BridgeError::InvalidHeaderValue { .. } => ExceptionKind::InvalidRequest,
        BridgeError::Service(_) => ExceptionKind::Dispatch,
        BridgeError::ResponseBody(_) => ExceptionKind::ResponseBody,
        BridgeError::JsonEncode { .. } => ExceptionKind::Config,
    }
}

/// The human-readable text of each error.
pub open spec fn spec_error_message(e: BridgeError) -> Seq<char> {
    match e {
        BridgeError::InvalidMethod(m) => "invalid HTTP method: "@ + m@,
        BridgeError::InvalidUri(u) => "invalid URI path/query: "@ + u@,
        BridgeError::InvalidHeaderName(n) => "invalid header name: "@ + n@,
        BridgeError::InvalidHeaderValue { name, message } =>
            "invalid header value for "@ + name@ + ": "@ + message@,
        BridgeError::Service(m) => "service dispatch failed: "@ + m@,
        BridgeError::ResponseBody(m) => "response body read failed: "@ + m@,
        BridgeError::JsonEncode { context, message } =>
            "JSON encoding failed ("@ + context@ + "): "@ + message@,
    }
}

impl BridgeError {
    /// Which Python exception family this error is raised as.
    pub fn exception_kind(&self) -> (kind: ExceptionKind)
        ensures
            kind == spec_exception_kind(*self),
    {
        match self {
            BridgeError::InvalidMethod(_) => ExceptionKind::InvalidRequest,
            BridgeError::InvalidUri(_) => ExceptionKind::InvalidRequest,
            BridgeError::InvalidHeaderName(_) => ExceptionKind::InvalidRequest,
            BridgeError::InvalidHeaderValue { .. } => ExceptionKind::InvalidRequest,
            BridgeError::Service(_) => ExceptionKind::Dispatch,
            BridgeError::ResponseBody(_) => ExceptionKind::ResponseBody,
            BridgeError::JsonEncode { .. } => ExceptionKind::Config,
        }
    }

    /// The error's message, as its display text.
    pub fn message(&self) -> (text: String)
        ensures
            text@ == spec_error_message(*self),
    {
        match self {
            BridgeError::InvalidMethod(m) => {
                String::from_str("invalid HTTP method: ").concat(m.as_str())
            },
            BridgeError::InvalidUri(u) => {
                String::from_str("invalid URI path/query: ").concat(u.as_str())
            },
            BridgeError::InvalidHeaderName(n) => {
                String::from_str("invalid header name: ").concat(n.as_str())
            },
            BridgeError::InvalidHeaderValue { name, message } => {
                String::from_str("invalid header value for ").concat(name.as_str()).concat(
                    ": ",
                ).concat(message.as_str())
            },
            BridgeError::Service(m) => {
                String::from_str("service dispatch failed: ").concat(m.as_str())
            },
            BridgeError::ResponseBody(m) => {
                String::from_str("response body read failed: ").concat(m.as_str())
            },
            BridgeError::JsonEncode { context, message } => {
                String::from_str("JSON encoding failed (").concat(context).concat("): ").concat(
                    message.as_str(),
                )
            },
        }
    }
}

} // verus!
