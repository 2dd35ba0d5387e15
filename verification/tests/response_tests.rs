use httpserve::request::Version;
use httpserve::response::{HttpResponse, ResponseStatus};

fn wire_string(r: &HttpResponse) -> String {
    String::from_utf8(r.to_string()).expect("head is valid text")
}

#[test]
fn status_codes_and_reasons() {
    assert_eq!(ResponseStatus::OK.code(), 200);
    assert_eq!(ResponseStatus::NotFound.code(), 404);
    assert_eq!(ResponseStatus::BadRequest.code(), 400);
    assert_eq!(ResponseStatus::Forbidden.code(), 403);
    assert_eq!(ResponseStatus::InternalServerError.code(), 500);
    assert_eq!(ResponseStatus::OK.reason(), "OK");
    assert_eq!(ResponseStatus::NotFound.reason(), "Not Found");
    assert_eq!(ResponseStatus::BadRequest.reason(), "Bad Request");
    assert_eq!(ResponseStatus::Forbidden.reason(), "Forbidden");
    assert_eq!(ResponseStatus::InternalServerError.reason(), "Internal Server Error");
}

#[test]
fn new_response_advertises_accept_ranges() {
    let r = HttpResponse::new(Version::V1_1, ResponseStatus::OK, String::from("/x"));
    assert_eq!(r.headers.get("accept-ranges").unwrap(), "bytes");
    assert_eq!(r.current_path, "x");
    let wire = wire_string(&r);
    assert!(wire.starts_with("HTTP/1.1 200 OK\r\n"));
    assert!(wire.contains("accept-ranges: bytes\r\n"));
}

#[test]
fn set_body_tracks_content_length() {
    let mut r = HttpResponse::new(Version::V1_1, ResponseStatus::OK, String::new());
    r.set_body(b"hello".to_vec());
    assert_eq!(r.headers.get("content-length").unwrap(), "5");
    r.set_body(Vec::new());
    assert_eq!(r.headers.get("content-length").unwrap(), "0");
    r.set_body(vec![0u8; 12345]);
    assert_eq!(r.headers.get("content-length").unwrap(), "12345");
}

#[test]
fn serialization_recovers_body_after_blank_line() {
    let mut r = HttpResponse::new(Version::V1_1, ResponseStatus::OK, String::new());
    r.add_header("Content-Type", "text/plain");
    r.set_body(b"hello\r\n\r\nworld".to_vec());
    let wire = r.to_string();
    let pos = wire
        .windows(4)
        .position(|w| w == b"\r\n\r\n")
        .expect("has a blank line");
    assert_eq!(&wire[pos + 4..], b"hello\r\n\r\nworld");
    let head = String::from_utf8(wire[..pos + 4].to_vec()).unwrap();
    assert!(head.contains("content-length: 14\r\n"));
}

#[test]
fn add_header_overwrites_any_case() {
    let mut r = HttpResponse::new(Version::V1_1, ResponseStatus::OK, String::new());
    r.add_header("X-Thing", "a");
    r.add_header("x-THING", "b");
    assert_eq!(r.headers.get("x-thing").unwrap(), "b");
    let wire = wire_string(&r);
    assert_eq!(wire.matches("x-thing:").count(), 1);
    assert!(wire.contains("x-thing: b\r\n"));
}

#[test]
fn header_names_are_stored_lowercase() {
    let mut r = HttpResponse::new(Version::V1_1, ResponseStatus::OK, String::new());
    r.add_header("Content-Type", "text/html");
    assert_eq!(r.headers.get("content-type").unwrap(), "text/html");
    assert!(r.headers.get("zzz").is_none());
}

#[test]
fn formatted_output_describes_fields() {
    let mut r = HttpResponse::new(Version::V1_1, ResponseStatus::NotFound, String::from("/a/b"));
    r.set_body(b"xyz".to_vec());
    assert_eq!(
        r.formatted_output(),
        "HttpResponse{ version: V1_1, status: NotFound, content_length: 3, accept_ranges: bytes, response_body: <3 bytes>, current_path: \"a/b\" }"
    );
}

#[test]
fn http_response_string_summarizes() {
    let mut r = HttpResponse::new(Version::V2_0, ResponseStatus::OK, String::new());
    r.set_body(b"12".to_vec());
    assert_eq!(
        r.http_response_string(),
        "HTTP/2.0 200 OK\naccept-ranges: bytes\ncontent-length: 2"
    );
}

#[test]
fn status_line_uses_version_token() {
    let r = HttpResponse::new(Version::V2_0, ResponseStatus::Forbidden, String::new());
    assert!(wire_string(&r).starts_with("HTTP/2.0 403 Forbidden\r\n"));
}
