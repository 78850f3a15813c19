//! The bridge around an axum router, and the registry that builds one while
//! keeping track of the route patterns it serves.
use vstd::prelude::*;
use axum::routing::MethodRouter;
use axum::Router;
use serde_json::Value as JsonValue;
use crate::error::BridgeError;
use crate::json::{
    json_encode_strings, json_encode_value, json_error_text, json_string_array, json_value_text,
};
use crate::order::{ascending_unique, strictly_ascending, texts};
use crate::text::{join_prefix, spec_join_prefix, spec_trim_trailing_slashes, trim_trailing_slashes};

verus! {

#[verifier::external_type_specification]
#[verifier::external_body]
#[verifier::reject_recursive_types(S)]
pub struct ExRouter<S>(Router<S>);

#[verifier::external_type_specification]
#[verifier::external_body]
#[verifier::reject_recursive_types(S)]
#[verifier::reject_recursive_types(E)]
pub struct ExMethodRouter<S, E>(MethodRouter<S, E>);

/// `Router::clone`: another handle (an `Arc` clone) to the same router.
pub assume_specification<S>[ <Router<S> as Clone>::clone ](router: &Router<S>) -> (copy: Router<
    S,
>)
    ensures
        copy == *router,
;

/// `serde_json::Value::clone`: the derived clone, an equal value.
pub assume_specification[ <JsonValue as Clone>::clone ](value: &JsonValue) -> (copy: JsonValue)
    ensures
        copy == *value,
;

/// `serde_json::Value::Null`, the JSON `null` value.
#[verifier::external_body]
fn json_null() -> (null: JsonValue)
    ensures
        json_value_text(null) == "null"@,
{
    JsonValue::Null
}

/// A path axum's `Router::route` takes without panicking on its form: not
/// empty, starting with `/`, and with no segment that starts with `:` or
/// `*` (the checks axum keeps from its 0.7 syntax).
pub open spec fn route_path_ok(path: Seq<char>) -> bool {
    &&& path.len() > 0
    &&& path[0] == '/'
    &&& forall|i: int|
        0 <= i < path.len() - 1 && #[trigger] path[i] == '/' ==> path[i + 1] != ':' && path[i
            + 1] != '*'
}

/// A path of the right form with no capture: no `{` or `}` in it. Into a
/// tree of such paths `matchit` inserts any other such path.
pub open spec fn static_route_path(path: Seq<char>) -> bool {
    &&& route_path_ok(path)
    &&& !path.contains('{')
    &&& !path.contains('}')
}

/// A segment of `path` from index `a` up to `b` (a maximal run between
/// slashes) that is a wildcard capture `{*name}`.
pub open spec fn is_wildcard_segment(path: Seq<char>, a: int, b: int) -> bool {
    &&& 0 <= a
    &&& a + 3 <= b <= path.len()
    &&& (a == 0 || path[a - 1] == '/')
    &&& (b == path.len() || path[b] == '/')
    &&& forall|k: int| a <= k < b ==> #[trigger] path[k] != '/'
    &&& path[a] == '{'
    &&& path[a + 1] == '*'
    &&& path[b - 1] == '}'
    &&& path[b - 2] != '}'
}

/// A prefix axum's `Router::nest` takes without panicking on its form: a
/// route path other than `/` with no wildcard segment.
pub open spec fn nest_prefix_ok(prefix: Seq<char>) -> bool {
    &&& route_path_ok(prefix)
    &&& prefix.len() > 1
    &&& forall|a: int, b: int| !is_wildcard_segment(prefix, a, b)
}

/// The status a request that times out is answered with: 408 Request
/// Timeout.
pub const REQUEST_TIMEOUT_STATUS: u16 = 408;

/// A tower-http middleware layer the bridge can wrap its router in.
#[derive(Debug, Clone, Copy, PartialEq, Eq)]
pub enum MiddlewareLayer {
    /// Response compression (`CompressionLayer::new()`).
    Compression,
    /// CORS allowing every origin, method and header (`CorsLayer::permissive()`).
    CorsPermissive,
    /// A per-request timeout: a request still running after `duration` is
    /// answered with `status` (`TimeoutLayer::with_status_code`).
    Timeout { status: u16, duration: std::time::Duration },
    /// HTTP tracing (`TraceLayer::new_for_http()`).
    TraceHttp,
}

/// The middleware layers a router's routes are wrapped in, innermost
/// first: what the router holds besides its routes. `Router::new` starts
/// with none and `Router::layer` adds one outermost; what routing, nesting
/// and merging do to it is not stated.
pub uninterp spec fn router_layers(router: Router) -> Seq<MiddlewareLayer>;

/// What a path of a router is routed to: each HTTP method that has a
/// handler there, `AnyMethod` for a method router's own fallback (what
/// `any` sets), and `WholeService` for a path routed to a whole service
/// rather than to a method router.
#[derive(Debug, Clone, Copy, PartialEq, Eq)]
pub enum RouteMethod {
    Get,
    Head,
    Delete,
    Options,
    Patch,
    Post,
    Put,
    Trace,
    Connect,
    AnyMethod,
    WholeService,
}

/// The routes of a router: each path its path router routes, with what the
/// path is routed to. A request whose path matches none of them gets the
/// router's fallback.
pub uninterp spec fn router_routes(router: Router) -> Map<Seq<char>, Set<RouteMethod>>;

/// Whether the router answers unmatched requests with axum's default
/// `404 Not Found`, no fallback of its own having been set.
pub uninterp spec fn router_fallback_is_default(router: Router) -> bool;

/// Whether the router's route tree takes each path of `paths` that it does
/// not route to a method router yet as a new route, the paths added one
/// after another in any order: each passes axum's path checks and
/// `matchit` inserts it without a malformed capture or a conflict with the
/// routes before it.
pub uninterp spec fn router_admits(router: Router, paths: Set<Seq<char>>) -> bool;

/// What a method router handles: the methods it has a handler for, and
/// `AnyMethod` when it has a fallback of its own.
pub uninterp spec fn method_router_methods(method_router: MethodRouter) -> Set<RouteMethod>;

/// What `routes` routes `path` to; nothing for a path it does not route.
pub open spec fn methods_at(routes: Map<Seq<char>, Set<RouteMethod>>, path: Seq<char>) -> Set<
    RouteMethod,
> {
    if routes.dom().contains(path) {
        routes[path]
    } else {
        Set::empty()
    }
}

/// Whether two method routers for one path can be merged: no method is
/// handled by both, neither has a fallback of its own twice, and neither
/// side is a whole service.
pub open spec fn combinable(a: Set<RouteMethod>, b: Set<RouteMethod>) -> bool {
    &&& a.disjoint(b)
    &&& !a.contains(RouteMethod::WholeService)
    &&& !b.contains(RouteMethod::WholeService)
}

/// The routes of two routers merged: every path of either, routed to what
/// both route it to.
pub open spec fn merge_routes(
    a: Map<Seq<char>, Set<RouteMethod>>,
    b: Map<Seq<char>, Set<RouteMethod>>,
) -> Map<Seq<char>, Set<RouteMethod>> {
    Map::new(
        |p: Seq<char>| a.dom().contains(p) || b.dom().contains(p),
        |p: Seq<char>| methods_at(a, p).union(methods_at(b, p)),
    )
}

/// The text without the slashes that start it.
pub open spec fn trim_leading_slashes(s: Seq<char>) -> Seq<char>
    decreases s.len(),
{
    if s.len() > 0 && s[0] == '/' {
        trim_leading_slashes(s.drop_first())
    } else {
        s
    }
}

/// The path axum routes a nested route `path` at when nesting under
/// `prefix`: behind a prefix ending in `/`, the path without its leading
/// slashes; the nested root `/` at the prefix itself; otherwise the prefix
/// followed by the path.
pub open spec fn nested_route_path(prefix: Seq<char>, path: Seq<char>) -> Seq<char> {
    if prefix.len() > 0 && prefix.last() == '/' {
        prefix + trim_leading_slashes(path)
    } else if path == seq!['/'] {
        prefix
    } else {
        prefix + path
    }
}

/// The paths the routes of `nested` are routed at under `prefix`.
pub open spec fn nested_paths(prefix: Seq<char>, nested: Map<Seq<char>, Set<RouteMethod>>) -> Set<
    Seq<char>,
> {
    Set::new(
        |p: Seq<char>|
            exists|q: Seq<char>| nested.dom().contains(q) && #[trigger] nested_route_path(prefix, q) == p,
    )
}

/// What the routes of `nested` route `path` to once nested under `prefix`.
pub open spec fn nested_methods_at(
    prefix: Seq<char>,
    nested: Map<Seq<char>, Set<RouteMethod>>,
    path: Seq<char>,
) -> Set<RouteMethod> {
    Set::new(
        |m: RouteMethod|
            exists|q: Seq<char>|
                nested.dom().contains(q) && #[trigger] nested_route_path(prefix, q) == path
                    && nested[q].contains(m),
    )
}

/// The routes of a router after the routes of `nested` are nested under
/// `prefix`.
pub open spec fn nest_routes(
    routes: Map<Seq<char>, Set<RouteMethod>>,
    prefix: Seq<char>,
    nested: Map<Seq<char>, Set<RouteMethod>>,
) -> Map<Seq<char>, Set<RouteMethod>> {
    Map::new(
        |p: Seq<char>| routes.dom().contains(p) || nested_paths(prefix, nested).contains(p),
        |p: Seq<char>| methods_at(routes, p).union(nested_methods_at(prefix, nested, p)),
    )
}

/// Whether the routes of `nested` can be nested under `prefix` beside
/// `routes`: where a nested route lands on a path already routed, or two
/// land on the same path, the method routers there can be merged.
pub open spec fn nest_combinable(
    routes: Map<Seq<char>, Set<RouteMethod>>,
    prefix: Seq<char>,
    nested: Map<Seq<char>, Set<RouteMethod>>,
) -> bool {
    &&& forall|q: Seq<char>|
        nested.dom().contains(q) && routes.dom().contains(#[trigger] nested_route_path(prefix, q))
            ==> combinable(routes[nested_route_path(prefix, q)], nested[q])
    &&& forall|q1: Seq<char>, q2: Seq<char>|
        nested.dom().contains(q1) && nested.dom().contains(q2) && q1 != q2
            && #[trigger] nested_route_path(prefix, q1) == #[trigger] nested_route_path(prefix, q2)
            ==> combinable(nested[q1], nested[q2])
}

/// `Router::new`: a router with no routes, the default fallback and no
/// layers. Its route tree is empty, so it takes any set of paths without
/// captures as new routes: `matchit` rejects such a path only when it is
/// already routed.
#[verifier::external_body]
fn router_new() -> (router: Router)
    ensures
        router_routes(router).dom() == Set::<Seq<char>>::empty(),
        router_fallback_is_default(router),
        forall|paths: Set<Seq<char>>|
            (forall|p: Seq<char>| paths.contains(p) ==> static_route_path(p)) ==> #[trigger] router_admits(
                router,
                paths,
            ),
        router_layers(router) == Seq::<MiddlewareLayer>::empty(),
{
    Router::new()
}

/// `Router::route`. Axum panics on a path of the wrong form, on a path its
/// route tree does not take, and on a method router that cannot be merged
/// with the one already at the path; `requires` leaves all three out. The
/// path is then routed to what it was routed to and what `method_router`
/// handles; a set of paths the tree took together with `path` it still
/// takes.
#[verifier::external_body]
fn router_route(router: Router, path: &str, method_router: MethodRouter) -> (routed: Router)
    requires
        route_path_ok(path@),
        router_routes(router).dom().contains(path@) ==> combinable(
            router_routes(router)[path@],
            method_router_methods(method_router),
        ),
        router_admits(router, set![path@]),
    ensures
        router_routes(routed) == router_routes(router).insert(
            path@,
            methods_at(router_routes(router), path@).union(method_router_methods(method_router)),
        ),
        router_fallback_is_default(routed) == router_fallback_is_default(router),
        forall|paths: Set<Seq<char>>|
            router_admits(router, paths.insert(path@)) ==> #[trigger] router_admits(routed, paths),
{
    router.route(path, method_router)
}

/// `Router::nest`. Axum panics on a prefix of the wrong form, when a nested
/// route lands where it cannot be merged or where the route tree does not
/// take it, and (for a nested router with a fallback of its own) when the
/// fallbacks collide; `requires` leaves these out. Each route of `nested`
/// is then routed at `nested_route_path(prefix, ..)`; a set of paths the
/// tree took together with those it still takes.
#[verifier::external_body]
fn router_nest(router: Router, prefix: &str, nested: Router) -> (routed: Router)
    requires
        nest_prefix_ok(prefix@),
        router_fallback_is_default(nested),
        nest_combinable(router_routes(router), prefix@, router_routes(nested)),
        router_admits(router, nested_paths(prefix@, router_routes(nested))),
    ensures
        router_routes(routed) == nest_routes(
            router_routes(router),
            prefix@,
            router_routes(nested),
        ),
        router_fallback_is_default(routed) == router_fallback_is_default(router),
        forall|paths: Set<Seq<char>>|
            router_admits(router, paths.union(nested_paths(prefix@, router_routes(nested))))
                ==> #[trigger] router_admits(routed, paths),
{
    router.nest(prefix, nested)
}

/// `Router::merge`. Axum panics when both routers route a path to method
/// routers that cannot be merged, when the route tree does not take a path
/// of `other`, and when both carry a fallback of their own; `requires`
/// leaves these out (asking for the default fallback on both sides). Every
/// route of either router is then routed; a set of paths the tree took
/// together with the paths of `other` it still takes.
#[verifier::external_body]
fn router_merge(router: Router, other: Router) -> (merged: Router)
    requires
        router_fallback_is_default(router),
        router_fallback_is_default(other),
        forall|p: Seq<char>|
            router_routes(router).dom().contains(p) && #[trigger] router_routes(other).dom().contains(
                p,
            ) ==> combinable(router_routes(router)[p], router_routes(other)[p]),
        router_admits(router, router_routes(other).dom()),
    ensures
        router_routes(merged) == merge_routes(router_routes(router), router_routes(other)),
        router_fallback_is_default(merged),
        forall|paths: Set<Seq<char>>|
            router_admits(router, paths.union(router_routes(other).dom())) ==> #[trigger] router_admits(
                merged,
                paths,
            ),
{
    router.merge(other)
}

/// `Router::layer` with `tower_http`'s `CompressionLayer::new()`.
#[verifier::external_body]
fn router_with_compression(router: Router) -> (layered: Router)
    ensures
        router_layers(layered) == router_layers(router).push(MiddlewareLayer::Compression),
        router_routes(layered) == router_routes(router),
        router_fallback_is_default(layered) == router_fallback_is_default(router),
{
    router.layer(tower_http::compression::CompressionLayer::new())
}

/// `Router::layer` with `tower_http`'s `CorsLayer::permissive()`.
#[verifier::external_body]
fn router_with_cors_permissive(router: Router) -> (layered: Router)
    ensures
        router_layers(layered) == router_layers(router).push(MiddlewareLayer::CorsPermissive),
        router_routes(layered) == router_routes(router),
        router_fallback_is_default(layered) == router_fallback_is_default(router),
{
    router.layer(tower_http::cors::CorsLayer::permissive())
}

/// `Router::layer` with `tower_http`'s `TimeoutLayer::with_status_code`,
/// answering `status` when the duration elapses. The status is converted
/// with `StatusCode::from_u16`, which accepts exactly 100 to 999.
#[verifier::external_body]
fn router_with_timeout(router: Router, status: u16, duration: std::time::Duration) -> (layered:
    Router)
    requires
        100 <= status <= 999,
    ensures
        router_layers(layered) == router_layers(router).push(
            MiddlewareLayer::Timeout { status, duration },
        ),
        router_routes(layered) == router_routes(router),
        router_fallback_is_default(layered) == router_fallback_is_default(router),
{
    router.layer(
        tower_http::timeout::TimeoutLayer::with_status_code(
            axum::http::StatusCode::from_u16(status).expect("status between 100 and 999"),
            duration,
        ),
    )
}

/// `Router::layer` with `tower_http`'s `TraceLayer::new_for_http()`.
#[verifier::external_body]
fn router_with_trace_http(router: Router) -> (layered: Router)
    ensures
        router_layers(layered) == router_layers(router).push(MiddlewareLayer::TraceHttp),
        router_routes(layered) == router_routes(router),
        router_fallback_is_default(layered) == router_fallback_is_default(router),
{
    router.layer(tower_http::trace::TraceLayer::new_for_http())
}

/// The core bridge: an axum router, the OpenAPI schema it is documented
/// by, and the route patterns it serves, ascending and each once.
#[derive(Debug)]
pub struct AxumAsgiBridge {
    router: Router,
    openapi_schema: Option<JsonValue>,
    provided_route_patterns: Vec<String>,
}

impl Clone for AxumAsgiBridge {
    /// Another handle to the same router, with the same schema and route
    /// patterns.
    fn clone(&self) -> (copy: Self)
        ensures
            copy.route_patterns() == self.route_patterns(),
            copy.openapi_schema() == self.openapi_schema(),
            copy.spec_router() == self.spec_router(),
    {
        proof {
            use_type_invariant(self);
        }
        let patterns = self.provided_route_patterns.clone();
        assert(patterns@ =~= self.provided_route_patterns@);
        AxumAsgiBridge {
            router: self.router.clone(),
            openapi_schema: self.openapi_schema.clone(),
            provided_route_patterns: patterns,
        }
    }
}

impl AxumAsgiBridge {
    #[verifier::type_invariant]
    spec fn patterns_ascending(self) -> bool {
        strictly_ascending(texts(self.provided_route_patterns@))
    }

    /// The route patterns, ascending in the order of `String`s.
    pub closed spec fn route_patterns(self) -> Seq<Seq<char>> {
        texts(self.provided_route_patterns@)
    }

    /// The attached OpenAPI schema, if any.
    pub closed spec fn openapi_schema(self) -> Option<JsonValue> {
        self.openapi_schema
    }

    /// The router requests are dispatched to.
    pub closed spec fn spec_router(self) -> Router {
        self.router
    }

    /// A bridge around `router`, with no schema and no declared patterns.
    pub fn new(router: Router) -> (bridge: AxumAsgiBridge)
        ensures
            bridge.spec_router() == router,
            bridge.openapi_schema() is None,
            bridge.route_patterns() == Seq::<Seq<char>>::empty(),
            strictly_ascending(bridge.route_patterns()),
    {
        let bridge = AxumAsgiBridge {
            router,
            openapi_schema: None,
            provided_route_patterns: Vec::new(),
        };
        assert(texts(bridge.provided_route_patterns@) =~= Seq::<Seq<char>>::empty());
        bridge
    }

    /// The router requests are dispatched to.
    pub fn router(&self) -> (router: &Router)
        ensures
            *router == self.spec_router(),
    {
        &self.router
    }

    /// Attaches an OpenAPI schema, replacing any earlier one.
    pub fn with_openapi_schema(self, schema: JsonValue) -> (bridge: AxumAsgiBridge)
        ensures
            bridge.openapi_schema() == Some(schema),
            bridge.route_patterns() == self.route_patterns(),
            bridge.spec_router() == self.spec_router(),
    {
        proof {
            use_type_invariant(&self);
        }
        AxumAsgiBridge {
            router: self.router,
            openapi_schema: Some(schema),
            provided_route_patterns: self.provided_route_patterns,
        }
    }

    /// Attaches the schema converted from an OpenAPI document to JSON: the
    /// converted value, or JSON `null` when the conversion failed. Either
    /// way the bridge then carries a schema.
    pub fn with_converted_schema(self, converted: Result<JsonValue, serde_json::Error>) -> (bridge:
        AxumAsgiBridge)
        ensures
            bridge.openapi_schema() is Some,
            converted is Ok ==> bridge.openapi_schema() == Some(converted->Ok_0),
            converted is Err ==> (bridge.openapi_schema() matches Some(v) && json_value_text(v)
                == "null"@),
            bridge.route_patterns() == self.route_patterns(),
            bridge.spec_router() == self.spec_router(),
    {
        let schema = match converted {
            Ok(value) => value,
            Err(_) => json_null(),
        };
        self.with_openapi_schema(schema)
    }

    /// Declares the route patterns the bridge serves, replacing any earlier
    /// ones: they are kept ascending and each once, whatever the order and
    /// the repeats of `patterns`.
    pub fn with_route_patterns(self, patterns: Vec<String>) -> (bridge: AxumAsgiBridge)
        ensures
            strictly_ascending(bridge.route_patterns()),
            bridge.route_patterns().to_set() == texts(patterns@).to_set(),
            bridge.openapi_schema() == self.openapi_schema(),
            bridge.spec_router() == self.spec_router(),
    {
        AxumAsgiBridge {
            router: self.router,
            openapi_schema: self.openapi_schema,
            provided_route_patterns: ascending_unique(patterns),
        }
    }

    /// Wraps the router in response compression.
    pub fn with_compression(self) -> (bridge: AxumAsgiBridge)
        ensures
            bridge.route_patterns() == self.route_patterns(),
            bridge.openapi_schema() == self.openapi_schema(),
            router_layers(bridge.spec_router()) == router_layers(self.spec_router()).push(
                MiddlewareLayer::Compression,
            ),
            router_routes(bridge.spec_router()) == router_routes(self.spec_router()),
    {
        proof {
            use_type_invariant(&self);
        }
        AxumAsgiBridge {
            router: router_with_compression(self.router),
            openapi_schema: self.openapi_schema,
            provided_route_patterns: self.provided_route_patterns,
        }
    }

    /// Wraps the router in a CORS layer that allows everything.
    pub fn with_cors_permissive(self) -> (bridge: AxumAsgiBridge)
        ensures
            bridge.route_patterns() == self.route_patterns(),
            bridge.openapi_schema() == self.openapi_schema(),
            router_layers(bridge.spec_router()) == router_layers(self.spec_router()).push(
                MiddlewareLayer::CorsPermissive,
            ),
            router_routes(bridge.spec_router()) == router_routes(self.spec_router()),
    {
        proof {
            use_type_invariant(&self);
        }
        AxumAsgiBridge {
            router: router_with_cors_permissive(self.router),
            openapi_schema: self.openapi_schema,
            provided_route_patterns: self.provided_route_patterns,
        }
    }

    /// Wraps the router in a per-request timeout: a request still running
    /// after `duration` is answered with 408 Request Timeout.
    pub fn with_timeout(self, duration: std::time::Duration) -> (bridge: AxumAsgiBridge)
        ensures
            bridge.route_patterns() == self.route_patterns(),
            bridge.openapi_schema() == self.openapi_schema(),
            router_layers(bridge.spec_router()) == router_layers(self.spec_router()).push(
                MiddlewareLayer::Timeout { status: REQUEST_TIMEOUT_STATUS, duration },
            ),
            router_routes(bridge.spec_router()) == router_routes(self.spec_router()),
    {
        proof {
            use_type_invariant(&self);
        }
        AxumAsgiBridge {
            router: router_with_timeout(self.router, REQUEST_TIMEOUT_STATUS, duration),
            openapi_schema: self.openapi_schema,
            provided_route_patterns: self.provided_route_patterns,
        }
    }

    /// Wraps the router in HTTP tracing.
    pub fn with_trace_http(self) -> (bridge: AxumAsgiBridge)
        ensures
            bridge.route_patterns() == self.route_patterns(),
            bridge.openapi_schema() == self.openapi_schema(),
            router_layers(bridge.spec_router()) == router_layers(self.spec_router()).push(
                MiddlewareLayer::TraceHttp,
            ),
            router_routes(bridge.spec_router()) == router_routes(self.spec_router()),
    {
        proof {
            use_type_invariant(&self);
        }
        AxumAsgiBridge {
            router: router_with_trace_http(self.router),
            openapi_schema: self.openapi_schema,
            provided_route_patterns: self.provided_route_patterns,
        }
    }

    /// The attached schema as compact JSON text, or `None` when there is no
    /// schema; encoding a JSON value always succeeds.
    pub fn openapi_schema_json(&self) -> (res: Result<Option<String>, BridgeError>)
        ensures
            self.openapi_schema() is None ==> res == Ok::<Option<String>, BridgeError>(None),
            self.openapi_schema() matches Some(schema) ==> (res matches Ok(Some(text)) && text@
                == json_value_text(schema)),
    {
        match &self.openapi_schema {
            None => Ok(None),
            Some(schema) => match json_encode_value(schema) {
                Ok(text) => Ok(Some(text)),
                Err(error) => Err(
                    BridgeError::JsonEncode {
                        context: "openapi_schema_json",
                        message: json_error_text(&error),
                    },
                ),
            },
        }
    }

    /// The route patterns as a JSON array of strings, ascending; encoding
    /// always succeeds.
    pub fn provided_route_patterns_json(&self) -> (res: Result<String, BridgeError>)
        ensures
            strictly_ascending(self.route_patterns()),
            res matches Ok(text) && text@ == json_string_array(self.route_patterns()),
    {
        proof {
            use_type_invariant(self);
        }
        match json_encode_strings(&self.provided_route_patterns) {
            Ok(text) => Ok(text),
            Err(error) => Err(
                BridgeError::JsonEncode {
                    context: "provided_route_patterns_json",
                    message: json_error_text(&error),
                },
            ),
        }
    }
}

/// Builds a router while recording every route pattern it registers, so
/// that the bridge it becomes knows the patterns it serves.
#[derive(Debug)]
pub struct RouteRegistry {
    router: Router,
    patterns: Vec<String>,
}

/// The pattern a nested route is recorded under: the prefix, without its
/// trailing slashes, followed by the nested pattern.
pub open spec fn nested_pattern(prefix: Seq<char>, pattern: Seq<char>) -> Seq<char> {
    spec_join_prefix(spec_trim_trailing_slashes(prefix), pattern)
}

/// Whether each of `patterns`, nested under `prefix`, is recorded under the
/// path axum routes it at: behind a prefix that does not end in `/`, no
/// pattern is the root `/`; behind a prefix ending in a single `/`, every
/// pattern starts with a single `/`.
pub open spec fn records_served_paths(prefix: Seq<char>, patterns: Seq<Seq<char>>) -> bool {
    if prefix.len() > 0 && prefix.last() == '/' {
        &&& prefix.len() >= 2
        &&& prefix[prefix.len() - 2] != '/'
        &&& forall|i: int|
            0 <= i < patterns.len() ==> {
                let p = #[trigger] patterns[i];
                p.len() > 0 && p[0] == '/' && (p.len() < 2 || p[1] != '/')
            }
    } else {
        forall|i: int| 0 <= i < patterns.len() ==> #[trigger] patterns[i] != seq!['/']
    }
}

impl Clone for RouteRegistry {
    /// Another handle to the same router, with the same patterns.
    fn clone(&self) -> (copy: Self)
        ensures
            copy.patterns() == self.patterns(),
            copy.spec_router() == self.spec_router(),
    {
        proof {
            use_type_invariant(self);
        }
        let patterns = self.patterns.clone();
        assert(patterns@ =~= self.patterns@);
        RouteRegistry { router: self.router.clone(), patterns }
    }
}

impl Default for RouteRegistry {
    /// An empty registry.
    fn default() -> (registry: RouteRegistry)
        ensures
            registry.patterns() == Seq::<Seq<char>>::empty(),
            router_routes(registry.spec_router()) == Map::<Seq<char>, Set<RouteMethod>>::empty(),
    {
        RouteRegistry::new()
    }
}

impl RouteRegistry {
    #[verifier::type_invariant]
    spec fn fallback_is_default(self) -> bool {
        router_fallback_is_default(self.router)
    }

    /// The patterns registered so far, in the order of registration.
    pub closed spec fn patterns(self) -> Seq<Seq<char>> {
        texts(self.patterns@)
    }

    /// The router being built.
    pub closed spec fn spec_router(self) -> Router {
        self.router
    }

    /// The registry's router routes exactly the recorded patterns.
    pub open spec fn serves_its_patterns(self) -> bool {
        self.patterns().to_set() == router_routes(self.spec_router()).dom()
    }

    /// An empty registry: its router routes nothing, so every request gets
    /// the default `404 Not Found`.
    pub fn new() -> (registry: RouteRegistry)
        ensures
            registry.patterns() == Seq::<Seq<char>>::empty(),
            router_routes(registry.spec_router()) == Map::<Seq<char>, Set<RouteMethod>>::empty(),
            router_fallback_is_default(registry.spec_router()),
            router_layers(registry.spec_router()) == Seq::<MiddlewareLayer>::empty(),
            registry.serves_its_patterns(),
            forall|paths: Set<Seq<char>>|
                (forall|p: Seq<char>| paths.contains(p) ==> static_route_path(p))
                    ==> #[trigger] router_admits(registry.spec_router(), paths),
    {
        let registry = RouteRegistry { router: router_new(), patterns: Vec::new() };
        assert(texts(registry.patterns@) =~= Seq::<Seq<char>>::empty());
        assert(registry.patterns().to_set() =~= Set::<Seq<char>>::empty());
        registry
    }

    /// Routes `path` to `method_router` and records the path. The path must
    /// be one axum's router takes: of the right form, taken by its route
    /// tree, and with no method already handled there.
    pub fn route(self, path: &str, method_router: MethodRouter) -> (registry: RouteRegistry)
        requires
            route_path_ok(path@),
            router_routes(self.spec_router()).dom().contains(path@) ==> combinable(
                router_routes(self.spec_router())[path@],
                method_router_methods(method_router),
            ),
            router_admits(self.spec_router(), set![path@]),
        ensures
            registry.patterns() == self.patterns().push(path@),
            router_routes(registry.spec_router()) == router_routes(self.spec_router()).insert(
                path@,
                methods_at(router_routes(self.spec_router()), path@).union(
                    method_router_methods(method_router),
                ),
            ),
            self.serves_its_patterns() ==> registry.serves_its_patterns(),
            forall|paths: Set<Seq<char>>|
                router_admits(self.spec_router(), paths.insert(path@)) ==> #[trigger] router_admits(
                    registry.spec_router(),
                    paths,
                ),
    {
        proof {
            use_type_invariant(&self);
        }
        let ghost old_patterns = self.patterns();
        let ghost old_routes = router_routes(self.router);
        let mut patterns = self.patterns;
        patterns.push(String::from_str(path));
        let registry = RouteRegistry {
            router: router_route(self.router, path, method_router),
            patterns,
        };
        assert(texts(registry.patterns@) =~= old_patterns.push(path@));
        proof {
            if old_patterns.to_set() == old_routes.dom() {
                assert(registry.patterns().to_set() =~= router_routes(registry.router).dom()) by {
                    assert forall|x: Seq<char>|
                        registry.patterns().contains(x) <== old_patterns.contains(x) by {
                        if old_patterns.contains(x) {
                            let i = choose|i: int|
                                0 <= i < old_patterns.len() && old_patterns[i] == x;
                            assert(registry.patterns()[i] == x);
                        }
                    }
                    assert(registry.patterns()[old_patterns.len() as int] == path@);
                }
            }
        }
        registry
    }

    /// Nests the routes of `nested` under `prefix` and records each of its
    /// patterns behind the prefix stripped of its trailing slashes. The
    /// nested routes must land where axum's router takes them.
    pub fn nest(self, prefix: &str, nested: RouteRegistry) -> (registry: RouteRegistry)
        requires
            nest_prefix_ok(prefix@),
            nest_combinable(
                router_routes(self.spec_router()),
                prefix@,
                router_routes(nested.spec_router()),
            ),
            router_admits(
                self.spec_router(),
                nested_paths(prefix@, router_routes(nested.spec_router())),
            ),
        ensures
            registry.patterns() == self.patterns() + nested.patterns().map_values(
                |p: Seq<char>| nested_pattern(prefix@, p),
            ),
            router_routes(registry.spec_router()) == nest_routes(
                router_routes(self.spec_router()),
                prefix@,
                router_routes(nested.spec_router()),
            ),
            self.serves_its_patterns() && nested.serves_its_patterns() && records_served_paths(
                prefix@,
                nested.patterns(),
            ) ==> registry.serves_its_patterns(),
            forall|paths: Set<Seq<char>>|
                router_admits(
                    self.spec_router(),
                    paths.union(nested_paths(prefix@, router_routes(nested.spec_router()))),
                ) ==> #[trigger] router_admits(registry.spec_router(), paths),
    {
        proof {
            use_type_invariant(&self);
            use_type_invariant(&nested);
        }
        let ghost old_patterns = self.patterns();
        let ghost old_routes = router_routes(self.router);
        let ghost nested_patterns = nested.patterns();
        let ghost nested_routes = router_routes(nested.router);
        let normalized = trim_trailing_slashes(prefix);
        let mut patterns = self.patterns;
        let ghost before = texts(patterns@);
        let n = nested.patterns.len();
        let mut i: usize = 0;
        while i < n
            invariant
                n == nested.patterns@.len(),
                i <= n,
                normalized@ == spec_trim_trailing_slashes(prefix@),
                texts(patterns@) == before + texts(nested.patterns@).take(i as int).map_values(
                    |p: Seq<char>| nested_pattern(prefix@, p),
                ),
            decreases n - i,
        {
            let joined = join_prefix(&normalized, &nested.patterns[i]);
            let ghost done = texts(patterns@);
            patterns.push(joined);
            proof {
                let f = |p: Seq<char>| nested_pattern(prefix@, p);
                let src = texts(nested.patterns@);
                assert(src.take(i + 1) =~= src.take(i as int).push(src[i as int]));
                assert(src.take(i + 1).map_values(f) =~= src.take(i as int).map_values(f).push(
                    f(src[i as int]),
                ));
                assert(texts(patterns@) =~= done.push(joined@));
            }
            i = i + 1;
        }
        assert(texts(nested.patterns@).take(n as int) =~= texts(nested.patterns@));
        let registry = RouteRegistry {
            router: router_nest(self.router, prefix, nested.router),
            patterns,
        };
        proof {
            if old_patterns.to_set() == old_routes.dom() && nested_patterns.to_set()
                == nested_routes.dom() && records_served_paths(prefix@, nested_patterns) {
                lemma_nest_serves_patterns(
                    prefix@,
                    old_patterns,
                    old_routes,
                    nested_patterns,
                    nested_routes,
                );
            }
        }
        registry
    }

    /// Merges the routes of `other` into this registry; its patterns follow
    /// the ones already recorded. The routes of `other` must be ones axum's
    /// router takes beside those already there.
    pub fn merge(self, other: RouteRegistry) -> (registry: RouteRegistry)
        requires
            forall|p: Seq<char>|
                router_routes(self.spec_router()).dom().contains(p) && #[trigger] router_routes(
                    other.spec_router(),
                ).dom().contains(p) ==> combinable(
                    router_routes(self.spec_router())[p],
                    router_routes(other.spec_router())[p],
                ),
            router_admits(self.spec_router(), router_routes(other.spec_router()).dom()),
        ensures
            registry.patterns() == self.patterns() + other.patterns(),
            router_routes(registry.spec_router()) == merge_routes(
                router_routes(self.spec_router()),
                router_routes(other.spec_router()),
            ),
            self.serves_its_patterns() && other.serves_its_patterns()
                ==> registry.serves_its_patterns(),
            forall|paths: Set<Seq<char>>|
                router_admits(self.spec_router(), paths.union(router_routes(other.spec_router()).dom()))
                    ==> #[trigger] router_admits(registry.spec_router(), paths),
    {
        proof {
            use_type_invariant(&self);
            use_type_invariant(&other);
        }
        let ghost old_a = self.patterns();
        let ghost old_b = other.patterns();
        let ghost routes_a = router_routes(self.router);
        let ghost routes_b = router_routes(other.router);
        let mut patterns = self.patterns;
        let mut more = other.patterns;
        let ghost before = patterns@;
        let ghost added = more@;
        patterns.append(&mut more);
        assert(patterns@ == before + added);
        let registry = RouteRegistry { router: router_merge(self.router, other.router), patterns };
        assert(texts(registry.patterns@) =~= texts(before) + texts(added));
        proof {
            if old_a.to_set() == routes_a.dom() && old_b.to_set() == routes_b.dom() {
                let joined = old_a + old_b;
                assert(joined.to_set() =~= routes_a.dom().union(routes_b.dom())) by {
                    assert forall|x: Seq<char>| joined.contains(x) implies old_a.contains(x)
                        || old_b.contains(x) by {
                        let k = choose|k: int| 0 <= k < joined.len() && joined[k] == x;
                        if k < old_a.len() {
                            assert(old_a[k] == x);
                        } else {
                            assert(old_b[k - old_a.len()] == x);
                        }
                    }
                    assert forall|x: Seq<char>| old_a.contains(x) || old_b.contains(x) implies joined.contains(x) by {
                        if old_a.contains(x) {
                            let k = choose|k: int| 0 <= k < old_a.len() && old_a[k] == x;
                            assert(joined[k] == x);
                        } else {
                            let k = choose|k: int| 0 <= k < old_b.len() && old_b[k] == x;
                            assert(joined[k + old_a.len()] == x);
                        }
                    }
                }
                assert(router_routes(registry.router).dom() =~= routes_a.dom().union(
                    routes_b.dom(),
                ));
            }
        }
        registry
    }

    /// The bridge around the registry's router, serving exactly the
    /// registered patterns, ascending and each once.
    pub fn into_bridge(self) -> (bridge: AxumAsgiBridge)
        ensures
            bridge.spec_router() == self.spec_router(),
            strictly_ascending(bridge.route_patterns()),
            bridge.route_patterns().to_set() == self.patterns().to_set(),
            bridge.openapi_schema() is None,
            self.serves_its_patterns() ==> bridge.route_patterns().to_set() == router_routes(
                bridge.spec_router(),
            ).dom(),
    {
        AxumAsgiBridge::new(self.router).with_route_patterns(self.patterns)
    }
}

/// Nesting keeps a registry's router routing exactly its recorded patterns
/// when each nested pattern is recorded under the path axum routes it at.
proof fn lemma_nest_serves_patterns(
    prefix: Seq<char>,
    patterns: Seq<Seq<char>>,
    routes: Map<Seq<char>, Set<RouteMethod>>,
    nested_patterns: Seq<Seq<char>>,
    nested_routes: Map<Seq<char>, Set<RouteMethod>>,
)
    requires
        nest_prefix_ok(prefix),
        patterns.to_set() == routes.dom(),
        nested_patterns.to_set() == nested_routes.dom(),
        records_served_paths(prefix, nested_patterns),
    ensures
        (patterns + nested_patterns.map_values(|p: Seq<char>| nested_pattern(prefix, p))).to_set()
            == nest_routes(routes, prefix, nested_routes).dom(),
{
    let f = |p: Seq<char>| nested_pattern(prefix, p);
    let moved = nested_patterns.map_values(f);
    let all = patterns + moved;
    assert forall|i: int| 0 <= i < nested_patterns.len() implies nested_pattern(
        prefix,
        #[trigger] nested_patterns[i],
    ) == nested_route_path(prefix, nested_patterns[i]) by {
        lemma_recorded_is_routed(prefix, nested_patterns, i);
    }
    let target = nest_routes(routes, prefix, nested_routes).dom();
    assert forall|x: Seq<char>| all.contains(x) implies target.contains(x) by {
        let k = choose|k: int| 0 <= k < all.len() && all[k] == x;
        if k < patterns.len() {
            assert(patterns[k] == x);
            assert(patterns.to_set().contains(x));
        } else {
            let j = k - patterns.len();
            assert(moved[j] == x);
            let q = nested_patterns[j];
            assert(nested_patterns.to_set().contains(q));
            assert(nested_route_path(prefix, q) == x);
            assert(nested_paths(prefix, nested_routes).contains(x));
        }
    }
    assert forall|x: Seq<char>| target.contains(x) implies all.contains(x) by {
        if routes.dom().contains(x) {
            assert(patterns.to_set().contains(x));
            let k = choose|k: int| 0 <= k < patterns.len() && patterns[k] == x;
            assert(all[k] == x);
        } else {
            assert(nested_paths(prefix, nested_routes).contains(x));
            let q = choose|q: Seq<char>|
                nested_routes.dom().contains(q) && #[trigger] nested_route_path(prefix, q) == x;
            assert(nested_patterns.to_set().contains(q));
            let j = choose|j: int| 0 <= j < nested_patterns.len() && nested_patterns[j] == q;
            assert(moved[j] == x);
            assert(all[j + patterns.len()] == x);
        }
    }
    assert(all.to_set() =~= target);
}

/// Under `records_served_paths`, the pattern a nested route is recorded
/// under is the path axum routes it at.
proof fn lemma_recorded_is_routed(prefix: Seq<char>, patterns: Seq<Seq<char>>, i: int)
    requires
        nest_prefix_ok(prefix),
        records_served_paths(prefix, patterns),
        0 <= i < patterns.len(),
    ensures
        nested_pattern(prefix, patterns[i]) == nested_route_path(prefix, patterns[i]),
{
    let p = patterns[i];
    if prefix.len() > 0 && prefix.last() == '/' {
        let head = prefix.drop_last();
        assert(head.last() != '/');
        assert(spec_trim_trailing_slashes(head) == head);
        assert(spec_trim_trailing_slashes(prefix) == head);
        assert(head.len() > 0);
        assert(trim_leading_slashes(p.drop_first()) == p.drop_first()) by {
            reveal_with_fuel(trim_leading_slashes, 2);
        }
        assert(trim_leading_slashes(p) == p.drop_first());
        assert(head + p =~= prefix + p.drop_first());
    } else {
        assert(spec_trim_trailing_slashes(prefix) == prefix);
        assert(p != seq!['/']);
    }
}

} // verus!
