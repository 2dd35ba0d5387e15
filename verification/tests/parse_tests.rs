use httpserve::request::{HttpRequest, HttpHeader, Method, Version, Route};

fn body_string(r: &HttpRequest) -> String {
    r.body().to_string()
}

#[test]
fn parses_full_get_request() {
    let raw = "GET /index.html HTTP/1.1\r\nHost: local\r\nX-Tag: y\r\n\r\nhello";
    let req = HttpRequest::new(raw).expect("well-formed request");
    assert!(matches!(req.method(), Method::Get));
    assert!(matches!(req.version(), Version::V1_1));
    assert_eq!(req.route().path(), "index.html");
    assert_eq!(req.headers().get("Host").unwrap(), "local");
    assert_eq!(req.headers().get("X-Tag").unwrap(), "y");
    assert_eq!(body_string(&req), "hello");
}

#[test]
fn method_is_case_insensitive() {
    let req = HttpRequest::new("gEt / HTTP/1.1\r\n\r\n").expect("parses");
    assert!(matches!(req.method(), Method::Get));
    assert!(matches!(Method::from_str("posT"), Ok(Method::Post)));
    assert!(Method::from_str("FOOBAR").is_err());
}

#[test]
fn version_match_is_exact() {
    assert!(matches!(Version::from_str("HTTP/1.1"), Ok(Version::V1_1)));
    assert!(matches!(Version::from_str("HTTP/2.0"), Ok(Version::V2_0)));
    assert!(Version::from_str("http/1.1").is_err());
    assert!(Version::from_str("HTTP/1.0").is_err());
}

#[test]
fn unknown_method_fails_parsing() {
    assert!(HttpRequest::new("FOOBAR / HTTP/1.1\r\n\r\n").is_none());
}

#[test]
fn first_line_must_have_three_tokens() {
    assert!(HttpRequest::new("GET /\r\n\r\n").is_none());
    assert!(HttpRequest::new("GET / HTTP/1.1 extra\r\n\r\n").is_none());
    assert!(HttpRequest::new("").is_none());
}

#[test]
fn request_without_any_crlf_fails() {
    assert!(HttpRequest::new("GET / HTTP/1.1").is_none());
}

#[test]
fn header_line_without_colon_rejects_request() {
    assert!(HttpRequest::new("GET / HTTP/1.1\r\nHost local\r\n\r\n").is_none());
}

#[test]
fn header_names_and_values_are_trimmed() {
    let req = HttpRequest::new("GET / HTTP/1.1\r\n  Host :  here \r\n\r\n").expect("parses");
    assert_eq!(req.headers().get("Host").unwrap(), "here");
}

#[test]
fn duplicate_request_headers_keep_last_value() {
    let req = HttpRequest::new("GET / HTTP/1.1\r\nA: 1\r\nA: 2\r\n\r\n").expect("parses");
    assert_eq!(req.headers().get("A").unwrap(), "2");
}

#[test]
fn body_is_everything_after_first_blank_line() {
    let req = HttpRequest::new("POST /x HTTP/1.1\r\nA: 1\r\n\r\nline1\r\n\r\nline2").expect("parses");
    assert_eq!(body_string(&req), "line1\r\n\r\nline2");
}

#[test]
fn missing_blank_line_gives_empty_body() {
    let req = HttpRequest::new("GET / HTTP/1.1\r\nA: 1").expect("parses");
    assert_eq!(body_string(&req), "");
}

#[test]
fn route_strips_exactly_one_leading_slash() {
    let r = Route::new("/a/b");
    assert_eq!(r.path(), "a/b");
    let r2 = Route::new("//twice");
    assert_eq!(r2.path(), "/twice");
    let r3 = Route::new("bare");
    assert_eq!(r3.path(), "bare");
}

#[test]
fn http_header_parses_block() {
    assert!(HttpHeader::new("GET / HTTP/1.1\r\nA: 1\r\n\r\n").is_some());
    assert!(HttpHeader::new("no terminator at all").is_none());
}

#[test]
fn extra_whitespace_between_tokens_is_accepted() {
    let req = HttpRequest::new("GET   /a   HTTP/1.1\r\n\r\n").expect("parses");
    assert_eq!(req.route().path(), "a");
}
