use http_server::codec::{HttpCode, Request, Response};
use http_server::routing::{
    echo, file_response, user_agent, CompareType, HandlerKind, Outcome, Route, Routes,
};
use http_server::HttpMethod;

fn request(data: &[u8]) -> Request {
    match Request::parse(data) {
        Ok(req) => req,
        Err(_) => panic!("expected a successful decode"),
    }
}

fn standard_routes(directory: &[u8]) -> Routes {
    let mut routes = Routes::new(directory.to_vec());
    routes.add(Route::new(b"GET", b"/", CompareType::Exact, HandlerKind::Root));
    routes.add(Route::new(b"GET", b"/echo", CompareType::Prefix, HandlerKind::Echo));
    routes.add(Route::new(b"GET", b"/user-agent", CompareType::Exact, HandlerKind::UserAgent));
    routes.add(Route::new(b"GET", b"/files", CompareType::Prefix, HandlerKind::GetFile));
    routes
}

fn done(outcome: Outcome) -> Response {
    match outcome {
        Outcome::Done(resp) => resp,
        Outcome::ReadFile(_) => panic!("expected a finished response"),
    }
}

#[test]
fn exact_match_requires_full_equality() {
    let route = Route::new(b"GET", b"/", CompareType::Exact, HandlerKind::Root);
    assert_eq!(route.matches(&request(b"GET / HTTP/1.1\r\n\r\n")), Some(HandlerKind::Root));
    assert_eq!(route.matches(&request(b"GET /x HTTP/1.1\r\n\r\n")), None);
}

#[test]
fn prefix_match_accepts_non_segment_aligned_paths() {
    let route = Route::new(b"GET", b"/echo", CompareType::Prefix, HandlerKind::Echo);
    assert_eq!(route.matches(&request(b"GET /echo HTTP/1.1\r\n\r\n")), Some(HandlerKind::Echo));
    assert_eq!(
        route.matches(&request(b"GET /echo/abc HTTP/1.1\r\n\r\n")),
        Some(HandlerKind::Echo)
    );
    assert_eq!(route.matches(&request(b"GET /echoXYZ HTTP/1.1\r\n\r\n")), Some(HandlerKind::Echo));
    assert_eq!(route.matches(&request(b"GET /ech HTTP/1.1\r\n\r\n")), None);
}

#[test]
fn match_requires_equal_method() {
    let route = Route::new(b"POST", b"/echo", CompareType::Prefix, HandlerKind::Echo);
    assert_eq!(route.matches(&request(b"GET /echo/a HTTP/1.1\r\n\r\n")), None);
    assert_eq!(route.matches(&request(b"POST /echo/a HTTP/1.1\r\n\r\n")), Some(HandlerKind::Echo));
}

#[test]
fn routing_is_first_match_order_sensitive() {
    let req = request(b"GET /echo/hi HTTP/1.1\r\n\r\n");

    let mut first_wins = Routes::new(b"tmp".to_vec());
    first_wins.add(Route::new(b"GET", b"/", CompareType::Prefix, HandlerKind::UserAgent));
    first_wins.add(Route::new(b"GET", b"/echo", CompareType::Prefix, HandlerKind::Echo));
    let resp = done(first_wins.execute(&req));
    // the user-agent handler ran: no User-Agent header, so an empty OK
    assert_eq!(resp.into_bytes(), b"HTTP/1.1 200 OK\r\n\r\n".to_vec());

    let mut reversed = Routes::new(b"tmp".to_vec());
    reversed.add(Route::new(b"GET", b"/echo", CompareType::Prefix, HandlerKind::Echo));
    reversed.add(Route::new(b"GET", b"/", CompareType::Prefix, HandlerKind::UserAgent));
    let resp = done(reversed.execute(&req));
    // now the echo handler ran instead
    assert_eq!(
        resp.into_bytes(),
        b"HTTP/1.1 200 OK\r\nContent-Length: 2\r\nContent-Type: text/plain\r\n\r\nhi".to_vec()
    );
}

#[test]
fn root_scenario() {
    let routes = standard_routes(b"tmp");
    let resp = done(routes.execute(&request(b"GET / HTTP/1.1\r\n\r\n")));
    assert_eq!(resp.into_bytes(), b"HTTP/1.1 200 OK\r\n\r\n".to_vec());
}

#[test]
fn echo_scenario() {
    let routes = standard_routes(b"tmp");
    let resp = done(routes.execute(&request(b"GET /echo/abc HTTP/1.1\r\n\r\n")));
    assert_eq!(resp.code, HttpCode::OK);
    assert_eq!(
        resp.into_bytes(),
        b"HTTP/1.1 200 OK\r\nContent-Length: 3\r\nContent-Type: text/plain\r\n\r\nabc".to_vec()
    );
}

#[test]
fn echo_without_trailing_slash_returns_path_unchanged() {
    let req = request(b"GET /echoXYZ HTTP/1.1\r\n\r\n");
    let resp = echo(&req);
    assert_eq!(resp.content, Some(b"/echoXYZ".to_vec()));
}

#[test]
fn user_agent_scenario() {
    let routes = standard_routes(b"tmp");
    let resp = done(routes.execute(&request(
        b"GET /user-agent HTTP/1.1\r\nUser-Agent: curl/8\r\n\r\n",
    )));
    assert_eq!(resp.content, Some(b"curl/8".to_vec()));
    assert_eq!(
        resp.into_bytes(),
        b"HTTP/1.1 200 OK\r\nContent-Length: 6\r\nContent-Type: text/plain\r\n\r\ncurl/8".to_vec()
    );
}

#[test]
fn user_agent_absent_header_is_empty_ok() {
    let req = request(b"GET /user-agent HTTP/1.1\r\n\r\n");
    let resp = user_agent(&req);
    assert_eq!(resp.code, HttpCode::OK);
    assert_eq!(resp.content, None);
    assert!(resp.headers.is_none());
}

#[test]
fn missing_file_scenario() {
    let routes = standard_routes(b"tmp");
    let outcome = routes.execute(&request(b"GET /files/missing.txt HTTP/1.1\r\n\r\n"));
    let target = match outcome {
        Outcome::ReadFile(p) => p,
        Outcome::Done(_) => panic!("expected a file read request"),
    };
    assert_eq!(target, b"/tmp/missing.txt".to_vec());
    // the base directory exists but the file does not: the read fails
    let resp = file_response(None);
    assert_eq!(resp.into_bytes(), b"HTTP/1.1 404 Not Found\r\n\r\n".to_vec());
}

#[test]
fn found_file_is_served_verbatim() {
    let resp = file_response(Some(b"contents\n".to_vec()));
    assert_eq!(
        resp.into_bytes(),
        b"HTTP/1.1 200 OK\r\nContent-Length: 9\r\nContent-Type: application/octet-stream\r\n\r\ncontents\n"
            .to_vec()
    );
}

#[test]
fn get_file_without_files_prefix_is_not_found() {
    let req = request(b"GET /other HTTP/1.1\r\n\r\n");
    let mut routes = Routes::new(b"tmp".to_vec());
    routes.add(Route::new(b"GET", b"/", CompareType::Prefix, HandlerKind::GetFile));
    let resp = done(routes.execute(&req));
    assert_eq!(resp.code, HttpCode::NotFound);
}

#[test]
fn unmatched_request_is_not_found() {
    let routes = standard_routes(b"tmp");
    let resp = done(routes.execute(&request(b"GET /unknown HTTP/1.1\r\n\r\n")));
    assert_eq!(resp.into_bytes(), b"HTTP/1.1 404 Not Found\r\n\r\n".to_vec());

    let empty = Routes::new(b"tmp".to_vec());
    let resp = done(empty.execute(&request(b"GET /unknown HTTP/1.1\r\n\r\n")));
    assert_eq!(resp.into_bytes(), b"HTTP/1.1 404 Not Found\r\n\r\n".to_vec());
}

#[test]
fn method_from_token_maps_known_tokens() {
    assert_eq!(HttpMethod::from_token(b"GET"), HttpMethod::GET);
    assert_eq!(HttpMethod::from_token(b"POST"), HttpMethod::POST);
    assert_eq!(HttpMethod::from_token(b"DELETE"), HttpMethod::GET);
}
