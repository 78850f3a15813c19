//! From the ASGI view of a request to the validated parts of an HTTP
//! request that the router is handed.
use vstd::prelude::*;
use vstd::string::StrSliceExecFns;
use axum::body::Body;
use axum::http::{HeaderName, HeaderValue, Method, Request, Uri};
use crate::error::BridgeError;
use crate::http_syntax::{
    invalid_header_value_text, is_header_name, is_header_value, is_method_token, parse_header_name,
    parse_header_value, parse_method, parse_uri, uri_accepts, utf8_bytes,
};

verus! {

/// In-memory form of an ASGI HTTP scope.
#[derive(Clone, Debug, Default, PartialEq, Eq)]
pub struct AsgiHttpScope {
    pub method: String,
    pub path: String,
    pub query_string: Option<String>,
    pub headers: Vec<(String, String)>,
}

#[verifier::external_type_specification]
#[verifier::external_body]
#[verifier::reject_recursive_types(T)]
pub struct ExRequest<T>(Request<T>);

#[verifier::external_type_specification]
#[verifier::external_body]
pub struct ExBody(Body);

/// A request whose method, target and headers the `http` crate accepts,
/// as text, with its headers in the order they were given.
pub struct HttpRequestParts {
    method: String,
    target: String,
    headers: Vec<(String, String)>,
    body: Vec<u8>,
}

/// The query of a scope; an absent query reads as the empty text.
pub open spec fn spec_query(scope: AsgiHttpScope) -> Seq<char> {
    match scope.query_string {
        Some(q) => q@,
        None => Seq::empty(),
    }
}

/// The request target: the path alone when there is no query, otherwise
/// the path, `?` and the query.
pub open spec fn spec_request_target(scope: AsgiHttpScope) -> Seq<char> {
    if spec_query(scope).len() == 0 {
        scope.path@
    } else {
        scope.path@ + "?"@ + spec_query(scope)
    }
}

/// A header pair whose name and value the `http` crate both accept.
pub open spec fn header_pair_ok(h: (String, String)) -> bool {
    is_header_name(h.0@) && is_header_value(h.1@)
}

/// The index of the first header at or after `i` that is not accepted, or
/// the number of headers when there is none.
pub open spec fn first_bad_header_from(hs: Seq<(String, String)>, i: int) -> int
    decreases hs.len() - i,
{
    if i < 0 || i >= hs.len() {
        hs.len() as int
    } else if !header_pair_ok(hs[i]) {
        i
    } else {
        first_bad_header_from(hs, i + 1)
    }
}

/// The index of the first header that is not accepted, or the number of
/// headers when all are.
pub open spec fn first_bad_header(hs: Seq<(String, String)>) -> int {
    first_bad_header_from(hs, 0)
}

/// The method, the target and every header are accepted.
pub open spec fn request_is_valid(scope: AsgiHttpScope) -> bool {
    &&& is_method_token(scope.method@)
    &&& uri_accepts(spec_request_target(scope))
    &&& first_bad_header(scope.headers@) == scope.headers@.len()
}

/// The error reported for a header that is not accepted: its name when the
/// name is bad, otherwise its value, with the `http` crate's message.
pub open spec fn header_rejection(h: (String, String), e: BridgeError) -> bool {
    if !is_header_name(h.0@) {
        e == BridgeError::InvalidHeaderName(h.0)
    } else {
        e matches BridgeError::InvalidHeaderValue { name, message } && name == h.0
            && message@ == "failed to parse header value"@
    }
}

/// The error reported for an invalid scope: the method is checked first,
/// then the target, then the headers in order.
pub open spec fn request_rejection(scope: AsgiHttpScope, e: BridgeError) -> bool {
    if !is_method_token(scope.method@) {
        e == BridgeError::InvalidMethod(scope.method)
    } else if !uri_accepts(spec_request_target(scope)) {
        e matches BridgeError::InvalidUri(u) && u@ == spec_request_target(scope)
    } else {
        let k = first_bad_header(scope.headers@);
        k < scope.headers@.len() && header_rejection(scope.headers@[k], e)
    }
}

/// The texts of a list of header pairs.
pub open spec fn header_texts(hs: Seq<(String, String)>) -> Seq<(Seq<char>, Seq<char>)> {
    hs.map_values(|h: (String, String)| (h.0@, h.1@))
}

/// A character with ASCII upper case letters lowered.
pub open spec fn ascii_lower_char(c: char) -> char {
    if 'A' <= c && c <= 'Z' {
        ((c as u32) + 32) as char
    } else {
        c
    }
}

/// A header name with its ASCII upper case letters lowered, as
/// `HeaderName` holds it.
pub open spec fn ascii_lower(s: Seq<char>) -> Seq<char> {
    s.map_values(|c: char| ascii_lower_char(c))
}

/// The headers a header map holds once the pairs of `hs` are inserted one
/// after the other: under each name, lowered, the value inserted last, as
/// bytes.
pub open spec fn header_map(hs: Seq<(Seq<char>, Seq<char>)>) -> Map<Seq<char>, Seq<Seq<u8>>>
    decreases hs.len(),
{
    if hs.len() == 0 {
        Map::empty()
    } else {
        header_map(hs.drop_last()).insert(ascii_lower(hs.last().0), seq![utf8_bytes(hs.last().1)])
    }
}

/// The most header names a header map is sure to take: up to this many,
/// no insertion makes it outgrow its size limit.
pub open spec fn header_names_always_taken() -> int {
    6553
}

/// The names a header map holds after the pairs of `hs`: the lowered name
/// of each pair, and no more.
proof fn lemma_header_map_dom(hs: Seq<(Seq<char>, Seq<char>)>)
    ensures
        header_map(hs).dom().finite(),
        forall|n: Seq<char>|
            header_map(hs).dom().contains(n) <==> exists|j: int|
                0 <= j < hs.len() && #[trigger] ascii_lower(hs[j].0) == n,
    decreases hs.len(),
{
    if hs.len() > 0 {
        let rest = hs.drop_last();
        lemma_header_map_dom(rest);
        assert forall|n: Seq<char>|
            header_map(hs).dom().contains(n) <==> exists|j: int|
                0 <= j < hs.len() && #[trigger] ascii_lower(hs[j].0) == n by {
            if header_map(hs).dom().contains(n) {
                if n == ascii_lower(hs.last().0) {
                    assert(ascii_lower(hs[hs.len() - 1].0) == n);
                } else {
                    let j = choose|j: int| 0 <= j < rest.len() && #[trigger] ascii_lower(rest[j].0) == n;
                    assert(ascii_lower(hs[j].0) == n);
                }
            }
            if exists|j: int| 0 <= j < hs.len() && #[trigger] ascii_lower(hs[j].0) == n {
                let j = choose|j: int| 0 <= j < hs.len() && #[trigger] ascii_lower(hs[j].0) == n;
                if j < hs.len() - 1 {
                    assert(ascii_lower(rest[j].0) == n);
                }
            }
        }
    }
}

/// The names a header map holds after a prefix of the pairs are among
/// those it holds after all of them, and no more of them.
proof fn lemma_header_map_prefix(hs: Seq<(Seq<char>, Seq<char>)>, i: int)
    requires
        0 <= i <= hs.len(),
    ensures
        header_map(hs).dom().finite(),
        header_map(hs.take(i)).dom().finite(),
        header_map(hs.take(i)).dom().len() <= header_map(hs).dom().len(),
{
    let pre = hs.take(i);
    lemma_header_map_dom(hs);
    lemma_header_map_dom(pre);
    assert forall|n: Seq<char>| header_map(pre).dom().contains(n) implies header_map(
        hs,
    ).dom().contains(n) by {
        let j = choose|j: int| 0 <= j < pre.len() && #[trigger] ascii_lower(pre[j].0) == n;
        assert(ascii_lower(hs[j].0) == n);
    }
    vstd::set_lib::lemma_len_subset(header_map(pre).dom(), header_map(hs).dom());
}

proof fn lemma_first_bad_header_skips_good(hs: Seq<(String, String)>, i: int)
    requires
        0 <= i <= hs.len(),
        forall|j: int| 0 <= j < i ==> header_pair_ok(#[trigger] hs[j]),
    ensures
        first_bad_header(hs) == first_bad_header_from(hs, i),
    decreases i,
{
    if i > 0 {
        lemma_first_bad_header_skips_good(hs, i - 1);
    }
}

impl AsgiHttpScope {
    /// The scope of a request given as structured arguments; an empty query
    /// string means that the request has no query.
    pub fn from_structured(
        method: String,
        path: String,
        query_string: String,
        headers: Vec<(String, String)>,
    ) -> (scope: AsgiHttpScope)
        ensures
            scope.method == method,
            scope.path == path,
            scope.headers == headers,
            scope.query_string == (if query_string@.len() == 0 {
                None
            } else {
                Some(query_string)
            }),
    {
        let query_string = if query_string.as_str().is_empty() {
            None
        } else {
            Some(query_string)
        };
        AsgiHttpScope { method, path, query_string, headers }
    }

    /// The request target: the path, followed by `?` and the query when the
    /// query is not empty.
    pub fn request_target(&self) -> (target: String)
        ensures
            target@ == spec_request_target(*self),
    {
        let query: &str = match &self.query_string {
            Some(q) => q.as_str(),
            None => "",
        };
        proof {
            reveal_strlit("");
        }
        if query.is_empty() {
            self.path.clone()
        } else {
            self.path.clone().concat("?").concat(query)
        }
    }
}

impl HttpRequestParts {
    #[verifier::type_invariant]
    spec fn accepted(self) -> bool {
        &&& is_method_token(self.method@)
        &&& uri_accepts(self.target@)
        &&& forall|k: int|
            0 <= k < self.headers@.len() ==> #[trigger] is_header_name(self.headers@[k].0@)
                && is_header_value(self.headers@[k].1@)
    }

    /// The method.
    pub closed spec fn method_text(self) -> Seq<char> {
        self.method@
    }

    /// The request target: path, and `?` and query when there is a query.
    pub closed spec fn target_text(self) -> Seq<char> {
        self.target@
    }

    /// The headers, in the order they were given.
    pub closed spec fn header_texts(self) -> Seq<(Seq<char>, Seq<char>)> {
        header_texts(self.headers@)
    }

    /// The body.
    pub closed spec fn body_bytes(self) -> Seq<u8> {
        self.body@
    }

    /// The method.
    pub fn method(&self) -> (m: &String)
        ensures
            m@ == self.method_text(),
    {
        &self.method
    }

    /// The request target.
    pub fn target(&self) -> (t: &String)
        ensures
            t@ == self.target_text(),
    {
        &self.target
    }

    /// The headers, in the order they were given.
    pub fn headers(&self) -> (h: &Vec<(String, String)>)
        ensures
            header_texts(h@) == self.header_texts(),
    {
        &self.headers
    }

    /// The body.
    pub fn body(&self) -> (b: &Vec<u8>)
        ensures
            b@ == self.body_bytes(),
    {
        &self.body
    }

    /// Assembles the `http::Request` the router is handed: its method, its
    /// URI (parsed from the target), its headers (inserted in order into its
    /// header map) and its body are those of the parts. `None` when the
    /// header map refuses a header for outgrowing its size limit (where
    /// `HeaderMap::insert` would panic), which takes more than
    /// `header_names_always_taken()` distinct names.
    pub fn into_http_request(self) -> (res: Option<Request<Body>>)
        ensures
            res matches Some(request) ==> {
                &&& request_method(request) == self.method_text()
                &&& request_uri(request) == uri_text(self.target_text())
                &&& request_headers(request) == header_map(self.header_texts())
                &&& request_body(request) == self.body_bytes()
            },
            header_map(self.header_texts()).dom().len() <= header_names_always_taken()
                ==> res is Some,
    {
        proof {
            use_type_invariant(&self);
        }
        let ghost hs = header_texts(self.headers@);
        let ghost body_bytes = self.body@;
        let HttpRequestParts { method, target, headers, body } = self;
        let mut request = request_with_body(body);
        request_set_method(&mut request, method.as_str());
        request_set_uri(&mut request, target.as_str());
        let n = headers.len();
        let mut i: usize = 0;
        while i < n
            invariant
                n == headers@.len(),
                i <= n,
                hs == header_texts(headers@),
                hs == self.header_texts(),
                forall|k: int|
                    0 <= k < headers@.len() ==> #[trigger] is_header_name(headers@[k].0@)
                        && is_header_value(headers@[k].1@),
                request_method(request) == method@,
                request_uri(request) == uri_text(target@),
                request_body(request) == body_bytes,
                request_headers(request) == header_map(hs.take(i as int)),
            decreases n - i,
        {
            proof {
                lemma_header_map_prefix(hs, i as int);
            }
            assert(is_header_name(headers@[i as int].0@) && is_header_value(headers@[i as int].1@));
            let inserted = request_insert_header(
                &mut request,
                headers[i].0.as_str(),
                headers[i].1.as_str(),
            );
            if !inserted {
                return None;
            }
            assert(hs.take(i + 1).drop_last() =~= hs.take(i as int));
            i = i + 1;
        }
        assert(hs.take(n as int) =~= hs);
        Some(request)
    }
}

/// The method of a request, as `Method::as_str` gives it.
pub uninterp spec fn request_method(request: Request<Body>) -> Seq<char>;

/// The URI of a request, as `Uri`'s `Display` writes it.
pub uninterp spec fn request_uri(request: Request<Body>) -> Seq<char>;

/// The headers of a request: under each name, as `HeaderName::as_str`
/// gives it, the values it holds in order, as bytes.
pub uninterp spec fn request_headers(request: Request<Body>) -> Map<Seq<char>, Seq<Seq<u8>>>;

/// The bytes the body of a request holds.
pub uninterp spec fn request_body(request: Request<Body>) -> Seq<u8>;

/// The text `Uri`'s `Display` writes for the URI `Uri::from_str` parses
/// from `text`: the text itself for most request targets, though the
/// `http` crate drops a fragment and writes an empty path as `/`.
pub uninterp spec fn uri_text(text: Seq<char>) -> Seq<char>;

/// `Request::new` with the body converted by `Body::from`: a request with
/// no headers whose body holds the given bytes.
#[verifier::external_body]
fn request_with_body(body: Vec<u8>) -> (request: Request<Body>)
    ensures
        request_headers(request).dom() == Set::<Seq<char>>::empty(),
        request_body(request) == body@,
{
    Request::new(Body::from(body))
}

/// `Request::method_mut`, set to what `Method::from_str` parses from
/// `method`, which keeps the text: `as_str` gives it back.
#[verifier::external_body]
fn request_set_method(request: &mut Request<Body>, method: &str)
    requires
        is_method_token(method@),
    ensures
        request_method(*final(request)) == method@,
        request_uri(*final(request)) == request_uri(*old(request)),
        request_headers(*final(request)) == request_headers(*old(request)),
        request_body(*final(request)) == request_body(*old(request)),
{
    if let Ok(parsed) = <Method as std::str::FromStr>::from_str(method) {
        *request.method_mut() = parsed;
    }
}

/// `Request::uri_mut`, set to what `Uri::from_str` parses from `target`.
#[verifier::external_body]
fn request_set_uri(request: &mut Request<Body>, target: &str)
    requires
        uri_accepts(target@),
    ensures
        request_uri(*final(request)) == uri_text(target@),
        request_method(*final(request)) == request_method(*old(request)),
        request_headers(*final(request)) == request_headers(*old(request)),
        request_body(*final(request)) == request_body(*old(request)),
{
    if let Ok(parsed) = <Uri as std::str::FromStr>::from_str(target) {
        *request.uri_mut() = parsed;
    }
}

/// `HeaderMap::try_insert` on the request's headers, with the name and the
/// value parsed by `HeaderName::from_str` (which lowers ASCII letters) and
/// `HeaderValue::from_str` (which keeps the bytes). On success the name
/// holds that one value, replacing any earlier ones. The map refuses only
/// when it would grow past its size limit: it grows to the next power of
/// two of slots when full (three quarters used) or when it judges its
/// probes too long (a fifth used), and refuses to go past 32768 slots, so
/// while it holds at most 6553 names every insertion is taken.
#[verifier::external_body]
fn request_insert_header(request: &mut Request<Body>, name: &str, value: &str) -> (inserted: bool)
    requires
        is_header_name(name@),
        is_header_value(value@),
    ensures
        inserted ==> request_headers(*final(request)) == request_headers(*old(request)).insert(
            ascii_lower(name@),
            seq![utf8_bytes(value@)],
        ),
        !inserted ==> request_headers(*final(request)) == request_headers(*old(request)),
        request_headers(*old(request)).dom().finite() && request_headers(*old(request)).dom().len()
            <= header_names_always_taken() ==> inserted,
        request_method(*final(request)) == request_method(*old(request)),
        request_uri(*final(request)) == request_uri(*old(request)),
        request_body(*final(request)) == request_body(*old(request)),
{
    match (<HeaderName as std::str::FromStr>::from_str(name), HeaderValue::from_str(value)) {
        (Ok(parsed_name), Ok(parsed_value)) => request.headers_mut().try_insert(
            parsed_name,
            parsed_value,
        ).is_ok(),
        _ => false,
    }
}

/// Validates a scope and turns it into the parts of an HTTP request: the
/// method must be a token, the target must parse as a URI, and every
/// header name and value must be accepted; the first failure in that order
/// is reported.
pub fn scope_to_http_request(scope: AsgiHttpScope, body: Vec<u8>) -> (res: Result<
    HttpRequestParts,
    BridgeError,
>)
    ensures
        res is Ok <==> request_is_valid(scope),
        res matches Err(e) ==> request_rejection(scope, e),
        res matches Ok(parts) ==> {
            &&& parts.method_text() == scope.method@
            &&& parts.target_text() == spec_request_target(scope)
            &&& parts.header_texts() == header_texts(scope.headers@)
            &&& parts.body_bytes() == body@
        },
{
    if parse_method(scope.method.as_str()).is_none() {
        return Err(BridgeError::InvalidMethod(scope.method.clone()));
    }
    let target = scope.request_target();
    if parse_uri(target.as_str()).is_none() {
        return Err(BridgeError::InvalidUri(target));
    }
    let n = scope.headers.len();
    let mut i: usize = 0;
    while i < n
        invariant
            n == scope.headers@.len(),
            i <= n,
            is_method_token(scope.method@),
            uri_accepts(spec_request_target(scope)),
            forall|j: int| 0 <= j < i ==> header_pair_ok(#[trigger] scope.headers@[j]),
        decreases n - i,
    {
        let name_text = &scope.headers[i].0;
        let value_text = &scope.headers[i].1;
        if parse_header_name(name_text.as_str()).is_none() {
            proof {
                lemma_first_bad_header_skips_good(scope.headers@, i as int);
            }
            return Err(BridgeError::InvalidHeaderName(name_text.clone()));
        }
        match parse_header_value(value_text.as_str()) {
            Ok(_) => {},
            Err(error) => {
                proof {
                    lemma_first_bad_header_skips_good(scope.headers@, i as int);
                }
                let message = invalid_header_value_text(&error);
                return Err(BridgeError::InvalidHeaderValue { name: name_text.clone(), message });
            },
        }
        i = i + 1;
    }
    proof {
        lemma_first_bad_header_skips_good(scope.headers@, n as int);
    }
    let headers = scope.headers;
    proof {
        assert forall|k: int| 0 <= k < headers@.len() implies #[trigger] is_header_name(
            headers@[k].0@,
        ) && is_header_value(headers@[k].1@) by {
            assert(header_pair_ok(headers@[k]));
        }
    }
    Ok(HttpRequestParts { method: scope.method, target, headers, body })
}

} // verus!
