//! The routing table and the handlers. Routes are tried in registration
//! order, first match wins; a route matches when its method equals the
//! request's and its path pattern matches under its comparison mode. The
//! handlers are a closed set of kinds; three of them compute a response
//! outright, while file retrieval names the file to read and a second step
//! turns the read's outcome into the response, so that the table itself
//! never touches the filesystem.

use vstd::prelude::*;

use crate::bytes_util::{append_slice, bytes_eq, bytes_starts_with, dec_of, usize_to_dec};
use crate::codec::{
    headers_view, spec_lookup, Header, HttpCode, Request, RequestView, Response, ResponseView,
};
use crate::wire::{
    content_length_bytes, content_type_bytes, echo_prefix_bytes, files_prefix_bytes,
    octet_stream_bytes, spec_content_length, spec_content_type, spec_echo_prefix,
    spec_files_prefix, spec_octet_stream, spec_text_plain, spec_user_agent_name, text_plain_bytes,
    user_agent_name_bytes,
};
use crate::HttpMethod;

verus! {

/// How a route's path pattern is compared against a request path.
#[derive(Clone, Copy, Debug, PartialEq, Eq, Structural)]
pub enum CompareType {
    Prefix,
    Exact,
}

/// The closed set of handlers a route can dispatch to.
#[derive(Clone, Copy, Debug, PartialEq, Eq, Structural)]
pub enum HandlerKind {
    Root,
    Echo,
    UserAgent,
    GetFile,
}

/// One routing entry: a method, a path pattern with its comparison mode,
/// and the handler to run on a match.
pub struct Route {
    pub path: Vec<u8>,
    pub method: HttpMethod,
    pub compare_type: CompareType,
    pub handler: HandlerKind,
}

/// The mathematical content of a [`Route`].
pub struct RouteView {
    pub path: Seq<u8>,
    pub method: HttpMethod,
    pub compare_type: CompareType,
    pub handler: HandlerKind,
}

impl View for Route {
    type V = RouteView;

    open spec fn view(&self) -> RouteView {
        RouteView {
            path: self.path@,
            method: self.method,
            compare_type: self.compare_type,
            handler: self.handler,
        }
    }
}

/// The route views a sequence of routes denotes.
pub open spec fn routes_view(rs: Seq<Route>) -> Seq<RouteView> {
    rs.map_values(|r: Route| r@)
}

/// Whether a request path satisfies a path pattern: exact mode asks for
/// byte-for-byte equality, prefix mode only that the request path begin
/// with the pattern, segment boundaries notwithstanding.
pub open spec fn spec_path_matches(mode: CompareType, pattern: Seq<u8>, path: Seq<u8>) -> bool {
    match mode {
        CompareType::Exact => pattern == path,
        CompareType::Prefix => pattern.is_prefix_of(path),
    }
}

/// Whether a route matches a request: same method, matching path.
pub open spec fn spec_route_matches(route: RouteView, req: RequestView) -> bool {
    route.method == req.method && spec_path_matches(route.compare_type, route.path, req.path)
}

impl Route {
    /// Build a route. The method is given as a raw token, with the same
    /// lenience as in a request's start-line.
    pub fn new(method: &[u8], path: &[u8], compare_type: CompareType, handler: HandlerKind) -> (r:
        Route)
        ensures
            r@ == (RouteView {
                path: path@,
                method: HttpMethod::spec_from_token(method@),
                compare_type,
                handler,
            }),
    {
        Route {
            method: HttpMethod::from_token(method),
            path: vstd::slice::slice_to_vec(path),
            compare_type,
            handler,
        }
    }

    /// The handler of this route when it matches the request, and nothing
    /// otherwise.
    pub fn matches(&self, req: &Request) -> (r: Option<HandlerKind>)
        ensures
            r == if spec_route_matches(self@, req@) {
                Some(self.handler)
            } else {
                None::<HandlerKind>
            },
    {
        let path_ok = match self.compare_type {
            CompareType::Exact => bytes_eq(self.path.as_slice(), req.path.as_slice()),
            CompareType::Prefix => bytes_starts_with(req.path.as_slice(), self.path.as_slice()),
        };
        if path_ok && self.method == req.method {
            Some(self.handler)
        } else {
            None
        }
    }
}

/// An `OK` response with no body and no headers.
pub open spec fn spec_ok_empty() -> ResponseView {
    ResponseView { code: HttpCode::OK, content: None, headers: None }
}

/// A `Not Found` response with no body and no headers.
pub open spec fn spec_not_found() -> ResponseView {
    ResponseView { code: HttpCode::NotFound, content: None, headers: None }
}

/// The two headers that accompany a body: its length in decimal and its
/// content type.
pub open spec fn spec_body_headers(body: Seq<u8>, ctype: Seq<u8>) -> Seq<(Seq<u8>, Seq<u8>)> {
    seq![(spec_content_length(), dec_of(body.len())), (spec_content_type(), ctype)]
}

/// The body the echo handler returns: the path with the literal `/echo/`
/// prefix removed, or the path itself when that prefix is absent.
pub open spec fn spec_echo_body(path: Seq<u8>) -> Seq<u8> {
    if spec_echo_prefix().is_prefix_of(path) {
        path.skip(6)
    } else {
        path
    }
}

/// What the echo handler returns: the stripped path as a `text/plain` body.
pub open spec fn spec_echo(req: RequestView) -> ResponseView {
    ResponseView {
        code: HttpCode::OK,
        content: Some(spec_echo_body(req.path)),
        headers: Some(spec_body_headers(spec_echo_body(req.path), spec_text_plain())),
    }
}

/// What the user-agent handler returns: the `User-Agent` header's value as a
/// `text/plain` body, or an empty `OK` when the header is absent — absence
/// is no error.
pub open spec fn spec_user_agent(req: RequestView) -> ResponseView {
    match spec_lookup(req.headers, spec_user_agent_name()) {
        Some(v) => ResponseView {
            code: HttpCode::OK,
            content: Some(v),
            headers: Some(spec_body_headers(v, spec_text_plain())),
        },
        None => spec_ok_empty(),
    }
}

/// The filesystem path the file handler reads: a slash, the base directory,
/// a slash, then the request path with its `/files/` prefix removed.
pub open spec fn spec_file_path(directory: Seq<u8>, path: Seq<u8>) -> Seq<u8> {
    seq![47u8] + directory + seq![47u8] + path.skip(7)
}

/// What the file handler returns once the read's outcome is known: the file
/// bytes as an `application/octet-stream` body, or `Not Found` when the file
/// could not be read, whatever the underlying cause.
pub open spec fn spec_file_response(read: Option<Seq<u8>>) -> ResponseView {
    match read {
        None => spec_not_found(),
        Some(b) => ResponseView {
            code: HttpCode::OK,
            content: Some(b),
            headers: Some(spec_body_headers(b, spec_octet_stream())),
        },
    }
}

/// What running a handler yields: either a finished response, or the name of
/// the file whose bytes the caller must fetch and hand to
/// [`file_response`].
pub enum Outcome {
    Done(Response),
    ReadFile(Vec<u8>),
}

/// The mathematical content of an [`Outcome`].
pub enum OutcomeView {
    Done(ResponseView),
    ReadFile(Seq<u8>),
}

impl View for Outcome {
    type V = OutcomeView;

    open spec fn view(&self) -> OutcomeView {
        match self {
            Outcome::Done(resp) => OutcomeView::Done(resp@),
            Outcome::ReadFile(p) => OutcomeView::ReadFile(p@),
        }
    }
}

/// What a handler of the given kind yields on a request.
pub open spec fn spec_handle(kind: HandlerKind, req: RequestView, directory: Seq<u8>) -> OutcomeView {
    match kind {
        HandlerKind::Root => OutcomeView::Done(spec_ok_empty()),
        HandlerKind::Echo => OutcomeView::Done(spec_echo(req)),
        HandlerKind::UserAgent => OutcomeView::Done(spec_user_agent(req)),
        HandlerKind::GetFile => if spec_files_prefix().is_prefix_of(req.path) {
            OutcomeView::ReadFile(spec_file_path(directory, req.path))
        } else {
            OutcomeView::Done(spec_not_found())
        },
    }
}

/// An `OK` response carrying `body` with its two accompanying headers.
fn body_response(body: Vec<u8>, ctype: Vec<u8>) -> (r: Response)
    ensures
        r@ == (ResponseView {
            code: HttpCode::OK,
            content: Some(body@),
            headers: Some(spec_body_headers(body@, ctype@)),
        }),
{
    let len_dec = usize_to_dec(body.len());
    let mut hs: Vec<Header> = Vec::new();
    hs.push(Header { name: content_length_bytes(), value: len_dec });
    hs.push(Header { name: content_type_bytes(), value: ctype });
    proof {
        assert(headers_view(hs@) =~= spec_body_headers(body@, hs@[1].value@));
    }
    Response { code: HttpCode::OK, content: Some(body), headers: Some(hs) }
}

/// A `Not Found` response with no body and no headers.
pub fn not_found_response() -> (r: Response)
    ensures
        r@ == spec_not_found(),
{
    Response { code: HttpCode::NotFound, content: None, headers: None }
}

/// The echo handler: strip the `/echo/` prefix off the path and return the
/// remainder as a `text/plain` body.
pub fn echo(req: &Request) -> (r: Response)
    ensures
        r@ == spec_echo(req@),
{
    let pfx = echo_prefix_bytes();
    let ps = req.path.as_slice();
    let body: Vec<u8> = if bytes_starts_with(ps, pfx.as_slice()) {
        let b = vstd::slice::slice_to_vec(&ps[6..ps.len()]);
        proof {
            assert(b@ =~= spec_echo_body(req.path@));
        }
        b
    } else {
        vstd::slice::slice_to_vec(ps)
    };
    body_response(body, text_plain_bytes())
}

/// The user-agent handler: reflect the `User-Agent` header's value, matched
/// with its exact case, as a `text/plain` body.
pub fn user_agent(req: &Request) -> (r: Response)
    ensures
        r@ == spec_user_agent(req@),
{
    let name = user_agent_name_bytes();
    match req.header(name.as_slice()) {
        Some(v) => body_response(v, text_plain_bytes()),
        None => Response { code: HttpCode::OK, content: None, headers: None },
    }
}

/// The second half of the file handler: the response once the read's
/// outcome is known. Any failure collapses into `Not Found`; a missing file
/// and a denied permission are indistinguishable to the client by design.
pub fn file_response(read: Option<Vec<u8>>) -> (r: Response)
    ensures
        r@ == spec_file_response(
            match read {
                None => None,
                Some(ref b) => Some(b@),
            },
        ),
{
    match read {
        None => not_found_response(),
        Some(b) => body_response(b, octet_stream_bytes()),
    }
}

/// Run a handler on a request: a finished response, except that file
/// retrieval yields the filesystem path to read.
pub fn run_handler(kind: HandlerKind, req: &Request, directory: &Vec<u8>) -> (r: Outcome)
    ensures
        r@ == spec_handle(kind, req@, directory@),
{
    match kind {
        HandlerKind::Root => Outcome::Done(
            Response { code: HttpCode::OK, content: None, headers: None },
        ),
        HandlerKind::Echo => Outcome::Done(echo(req)),
        HandlerKind::UserAgent => Outcome::Done(user_agent(req)),
        HandlerKind::GetFile => {
            let pfx = files_prefix_bytes();
            let ps = req.path.as_slice();
            if bytes_starts_with(ps, pfx.as_slice()) {
                let mut p: Vec<u8> = Vec::new();
                p.push(47);
                append_slice(&mut p, directory.as_slice());
                p.push(47);
                append_slice(&mut p, &ps[7..ps.len()]);
                proof {
                    assert(p@ =~= spec_file_path(directory@, req.path@));
                }
                Outcome::ReadFile(p)
            } else {
                Outcome::Done(not_found_response())
            }
        },
    }
}

/// Position of the first route that matches the request, if any.
pub open spec fn first_match(routes: Seq<RouteView>, req: RequestView) -> Option<int>
    decreases routes.len(),
{
    if routes.len() == 0 {
        None
    } else if spec_route_matches(routes[0], req) {
        Some(0)
    } else {
        match first_match(routes.drop_first(), req) {
            None => None,
            Some(i) => Some(i + 1),
        }
    }
}

/// `first_match` returns the least position of a matching route, and `None`
/// exactly when no route matches.
pub proof fn lemma_first_match(routes: Seq<RouteView>, req: RequestView)
    ensures
        match first_match(routes, req) {
            Some(i) => 0 <= i < routes.len() && spec_route_matches(routes[i], req) && (forall|
                j: int,
            | 0 <= j < i ==> !spec_route_matches(routes[j], req)),
            None => forall|j: int| 0 <= j < routes.len() ==> !spec_route_matches(routes[j], req),
        },
    decreases routes.len(),
{
    if routes.len() == 0 {
    } else if spec_route_matches(routes[0], req) {
    } else {
        let sub = routes.drop_first();
        lemma_first_match(sub, req);
        match first_match(sub, req) {
            None => {
                assert forall|j: int| 0 <= j < routes.len() implies !spec_route_matches(
                    routes[j],
                    req,
                ) by {
                    if j >= 1 {
                        assert(sub[j - 1] == routes[j]);
                        assert(!spec_route_matches(sub[j - 1], req));
                    }
                }
            },
            Some(i) => {
                assert(sub[i] == routes[i + 1]);
                assert forall|j: int| 0 <= j < i + 1 implies !spec_route_matches(
                    routes[j],
                    req,
                ) by {
                    if j >= 1 {
                        assert(sub[j - 1] == routes[j]);
                        assert(!spec_route_matches(sub[j - 1], req));
                    }
                }
            },
        }
    }
}

/// If route `i` matches and none before it does, the first match is `i`.
pub proof fn lemma_first_match_at(routes: Seq<RouteView>, req: RequestView, i: int)
    requires
        0 <= i < routes.len(),
        spec_route_matches(routes[i], req),
        forall|j: int| 0 <= j < i ==> !spec_route_matches(routes[j], req),
    ensures
        first_match(routes, req) == Some(i),
{
    lemma_first_match(routes, req);
    match first_match(routes, req) {
        Some(k) => {
            if k < i {
                assert(spec_route_matches(routes[k], req));
            }
            if k > i {
                assert(!spec_route_matches(routes[i], req));
            }
        },
        None => {
            assert(!spec_route_matches(routes[i], req));
        },
    }
}

/// The ordered routing table, with the base directory the file handler
/// serves from. Both are fixed at startup and read-only afterwards.
pub struct Routes {
    pub routes: Vec<Route>,
    pub directory: Vec<u8>,
}

/// What executing the table on a request yields: the first matching route's
/// handler decides; with no match, `Not Found` with no body, whatever the
/// table holds.
pub open spec fn spec_execute(
    routes: Seq<RouteView>,
    directory: Seq<u8>,
    req: RequestView,
) -> OutcomeView {
    match first_match(routes, req) {
        None => OutcomeView::Done(spec_not_found()),
        Some(i) => spec_handle(routes[i].handler, req, directory),
    }
}

impl Routes {
    /// An empty table serving files from `directory`.
    pub fn new(directory: Vec<u8>) -> (r: Routes)
        ensures
            r.routes@.len() == 0,
            r.directory@ == directory@,
    {
        Routes { routes: Vec::new(), directory }
    }

    /// Append a route; it ranks after every route already present.
    pub fn add(&mut self, route: Route)
        ensures
            final(self).routes@ == old(self).routes@.push(route),
            final(self).directory == old(self).directory,
    {
        self.routes.push(route);
    }

    /// Walk the table in registration order and run the first matching
    /// route's handler; `Not Found` when no route matches.
    pub fn execute(&self, req: &Request) -> (r: Outcome)
        ensures
            r@ == spec_execute(routes_view(self.routes@), self.directory@, req@),
    {
        let ghost rv = routes_view(self.routes@);
        let mut i: usize = 0;
        while i < self.routes.len()
            invariant
                i <= self.routes@.len(),
                rv == routes_view(self.routes@),
                forall|j: int| 0 <= j < i ==> !spec_route_matches(rv[j], req@),
            decreases self.routes@.len() - i,
        {
            let route = &self.routes[i];
            match route.matches(req) {
                Some(kind) => {
                    proof {
                        lemma_first_match_at(rv, req@, i as int);
                    }
                    return run_handler(kind, req, &self.directory);
                },
                None => {
                    i += 1;
                },
            }
        }
        proof {
            lemma_first_match(rv, req@);
            if first_match(rv, req@) is Some {
                let k = first_match(rv, req@)->Some_0;
                assert(!spec_route_matches(rv[k], req@));
            }
        }
        Outcome::Done(not_found_response())
    }
}

/// First-match-wins, order-sensitively: when two routes both match a
/// request, the earlier-registered one decides what the table yields; the
/// later one's handler is never the one consulted.
pub proof fn lemma_first_match_order(
    routes: Seq<RouteView>,
    directory: Seq<u8>,
    req: RequestView,
    i: int,
    j: int,
)
    requires
        0 <= i < j < routes.len(),
        spec_route_matches(routes[i], req),
        spec_route_matches(routes[j], req),
    ensures
        first_match(routes, req) is Some,
        first_match(routes, req)->Some_0 <= i < j,
        spec_route_matches(routes[first_match(routes, req)->Some_0], req),
        spec_execute(routes, directory, req) == spec_handle(
            routes[first_match(routes, req)->Some_0].handler,
            req,
            directory,
        ),
{
    lemma_first_match(routes, req);
    match first_match(routes, req) {
        Some(k) => {
            if k > i {
                assert(!spec_route_matches(routes[i], req));
            }
        },
        None => {
            assert(!spec_route_matches(routes[i], req));
        },
    }
}

} // verus!
