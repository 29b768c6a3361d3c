use http_server::codec::{read_progress, DecodeError, Header, HttpCode, ReadState, Request, Response};
use http_server::HttpMethod;

fn parse_ok(data: &[u8]) -> Request {
    match Request::parse(data) {
        Ok(req) => req,
        Err(_) => panic!("expected a successful decode"),
    }
}

#[test]
fn parse_root_request() {
    let req = parse_ok(b"GET / HTTP/1.1\r\n\r\n");
    assert_eq!(req.method, HttpMethod::GET);
    assert_eq!(req.path, b"/".to_vec());
    assert_eq!(req.headers.len(), 0);
}

#[test]
fn parse_post_method() {
    let req = parse_ok(b"POST /submit HTTP/1.1\r\n\r\n");
    assert_eq!(req.method, HttpMethod::POST);
    assert_eq!(req.path, b"/submit".to_vec());
}

#[test]
fn parse_unrecognized_method_defaults_to_get() {
    let req = parse_ok(b"BREW /pot HTTP/1.1\r\n\r\n");
    assert_eq!(req.method, HttpMethod::GET);
    assert_eq!(req.path, b"/pot".to_vec());
}

#[test]
fn parse_missing_version_token_still_succeeds() {
    let req = parse_ok(b"GET /x\r\n\r\n");
    assert_eq!(req.method, HttpMethod::GET);
    assert_eq!(req.path, b"/x".to_vec());
}

#[test]
fn parse_start_line_without_space_is_malformed() {
    assert!(matches!(
        Request::parse(b"GETPATH\r\n\r\n"),
        Err(DecodeError::MalformedStartLine)
    ));
}

#[test]
fn parse_empty_input_is_malformed() {
    assert!(matches!(
        Request::parse(b""),
        Err(DecodeError::MalformedStartLine)
    ));
}

#[test]
fn parse_invalid_utf8_is_encoding_error() {
    assert!(matches!(
        Request::parse(&[0xff, 0xfe, 0x20]),
        Err(DecodeError::EncodingError)
    ));
}

#[test]
fn parse_collects_headers() {
    let req = parse_ok(b"GET / HTTP/1.1\r\nHost: here\r\nUser-Agent: curl/8\r\n\r\n");
    assert_eq!(req.headers.len(), 2);
    assert_eq!(req.header(b"Host"), Some(b"here".to_vec()));
    assert_eq!(req.header(b"User-Agent"), Some(b"curl/8".to_vec()));
    assert_eq!(req.header(b"Absent"), None);
}

#[test]
fn parse_header_lookup_is_case_sensitive() {
    let req = parse_ok(b"GET / HTTP/1.1\r\nUser-Agent: curl/8\r\n\r\n");
    assert_eq!(req.header(b"user-agent"), None);
}

#[test]
fn parse_header_line_without_separator_is_discarded() {
    let req = parse_ok(b"GET / HTTP/1.1\r\nnonsense\r\nHost: here\r\n\r\n");
    assert_eq!(req.headers.len(), 1);
    assert_eq!(req.header(b"Host"), Some(b"here".to_vec()));
}

#[test]
fn parse_header_value_runs_from_first_separator() {
    let req = parse_ok(b"GET / HTTP/1.1\r\nVia: a: b\r\n\r\n");
    assert_eq!(req.header(b"Via"), Some(b"a: b".to_vec()));
}

#[test]
fn parse_duplicate_header_last_occurrence_wins() {
    let req = parse_ok(b"GET / HTTP/1.1\r\nTag: one\r\nTag: two\r\n\r\n");
    assert_eq!(req.header(b"Tag"), Some(b"two".to_vec()));
}

#[test]
fn parse_ignores_body_section() {
    let req = parse_ok(b"GET / HTTP/1.1\r\nHost: h\r\n\r\nIgnored: body\r\nmore");
    assert_eq!(req.headers.len(), 1);
    assert_eq!(req.header(b"Ignored"), None);
}

#[test]
fn read_progress_waits_for_blank_line() {
    assert_eq!(read_progress(b"GET / HT", 2048), ReadState::NeedMore);
    assert_eq!(read_progress(b"GET / HTTP/1.1\r\n", 2048), ReadState::NeedMore);
    assert_eq!(read_progress(b"GET / HTTP/1.1\r\n\r\n", 2048), ReadState::Complete);
    assert_eq!(read_progress(b"GET / HTTP/1.1\r\n\r\nbody", 2048), ReadState::Complete);
}

#[test]
fn read_progress_rules_oversized_requests_too_large() {
    assert_eq!(read_progress(b"GET /aaaaaa", 8), ReadState::TooLarge);
    // a complete head wins even at the ceiling
    assert_eq!(read_progress(b"GET /\r\n\r\n", 9), ReadState::Complete);
}

#[test]
fn encode_ok_without_body() {
    let resp = Response { code: HttpCode::OK, content: None, headers: None };
    assert_eq!(resp.into_bytes(), b"HTTP/1.1 200 OK\r\n\r\n".to_vec());
}

#[test]
fn encode_not_found_without_body() {
    let resp = Response { code: HttpCode::NotFound, content: None, headers: None };
    assert_eq!(resp.into_bytes(), b"HTTP/1.1 404 Not Found\r\n\r\n".to_vec());
}

#[test]
fn encode_with_headers_and_body() {
    let resp = Response {
        code: HttpCode::OK,
        content: Some(b"abc".to_vec()),
        headers: Some(vec![
            Header { name: b"Content-Length".to_vec(), value: b"3".to_vec() },
            Header { name: b"Content-Type".to_vec(), value: b"text/plain".to_vec() },
        ]),
    };
    assert_eq!(
        resp.into_bytes(),
        b"HTTP/1.1 200 OK\r\nContent-Length: 3\r\nContent-Type: text/plain\r\n\r\nabc".to_vec()
    );
}

#[test]
fn encoded_body_section_length_matches_content_length() {
    let body = b"hello".to_vec();
    let resp = Response {
        code: HttpCode::OK,
        content: Some(body.clone()),
        headers: Some(vec![Header {
            name: b"Content-Length".to_vec(),
            value: body.len().to_string().into_bytes(),
        }]),
    };
    let out = resp.into_bytes();
    let blank = b"\r\n\r\n";
    let head_end = out
        .windows(blank.len())
        .position(|w| w == blank)
        .expect("encoded response has a blank line");
    let body_section = &out[head_end + blank.len()..];
    assert_eq!(body_section.len(), body.len());
    assert_eq!(body_section, body.as_slice());
}
