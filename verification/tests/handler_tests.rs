use httpserve::handlers::{
    handle_directory_listing, handle_file_request, handle_get_request, handle_post_request,
    DirEntry, FileError, GetOutcome,
};
use httpserve::request::{HttpRequest, Version};
use httpserve::resolve::{is_safe_path, resolve_request_path, FsResolution, PathSafety};
use httpserve::response::ResponseStatus;

fn body_text(bytes: &[u8]) -> String {
    String::from_utf8(bytes.to_vec()).expect("body is text")
}

#[test]
fn traversal_outside_root_is_unsafe() {
    let res = FsResolution::Resolved {
        canonical: String::from("/etc/passwd"),
    };
    assert_eq!(is_safe_path("/srv", &res), PathSafety::Unsafe);
    let missing = FsResolution::MissingWithParent {
        parent_canonical: String::from("/etc"),
    };
    assert_eq!(is_safe_path("/srv", &missing), PathSafety::Unsafe);
}

#[test]
fn paths_under_root_are_safe() {
    let res = FsResolution::Resolved {
        canonical: String::from("/srv/site/index.html"),
    };
    assert_eq!(is_safe_path("/srv", &res), PathSafety::Safe);
    let same = FsResolution::Resolved {
        canonical: String::from("/srv"),
    };
    assert_eq!(is_safe_path("/srv", &same), PathSafety::Safe);
    let sibling = FsResolution::Resolved {
        canonical: String::from("/srvx"),
    };
    assert_eq!(is_safe_path("/srv", &sibling), PathSafety::Unsafe);
}

#[test]
fn resolution_failures_surface_as_errors() {
    assert_eq!(is_safe_path("/srv", &FsResolution::Failure), PathSafety::ResolutionError);
    assert_eq!(is_safe_path("/srv", &FsResolution::NoParent), PathSafety::Unsafe);
}

#[test]
fn request_paths_are_decoded_and_joined() {
    assert_eq!(resolve_request_path("/srv", "../etc/passwd"), "/srv/../etc/passwd");
    assert_eq!(resolve_request_path("/srv", "f%41le"), "/srv/fAle");
    assert_eq!(resolve_request_path("/srv/", "a.txt"), "/srv/a.txt");
    assert_eq!(resolve_request_path("/srv", "%2e%2e/secret"), "/srv/../secret");
    assert_eq!(resolve_request_path("/srv", "//doubled"), "/srv/doubled");
}

#[test]
fn unsafe_path_returns_forbidden() {
    let r = handle_get_request(Version::V1_1, "/srv/../etc", GetOutcome::Unsafe);
    assert_eq!(r.status.code(), 403);
    assert!(r.response_body.is_empty());
    assert_eq!(r.current_path, "Forbidden");
}

#[test]
fn missing_target_returns_not_found() {
    let r = handle_get_request(Version::V1_1, "/srv/nope.txt", GetOutcome::Missing);
    assert_eq!(r.status.code(), 404);
    assert_eq!(r.current_path, "Not Found");
    assert_eq!(body_text(&r.response_body), "File not found");
    assert_eq!(r.headers.get("content-length").unwrap(), "14");
    let e = handle_get_request(Version::V1_1, "/srv/x", GetOutcome::ResolutionError);
    assert_eq!(e.status.code(), 404);
}

#[test]
fn missing_file_body_says_file_not_found() {
    let r = handle_file_request(
        Version::V1_1,
        "/srv/nope.txt",
        Err(FileError::NotFound(String::from("No such file"))),
    );
    assert_eq!(r.status.code(), 404);
    assert_eq!(body_text(&r.response_body), "File not found");
    assert_eq!(r.headers.get("content-length").unwrap(), "14");
}

#[test]
fn unreadable_file_is_forbidden_with_message() {
    let r = handle_file_request(
        Version::V1_1,
        "/srv/secret",
        Err(FileError::PermissionDenied(String::from("denied"))),
    );
    assert_eq!(r.status.code(), 403);
    assert_eq!(body_text(&r.response_body), "Access denied: denied");
}

#[test]
fn other_read_errors_are_internal_errors() {
    let r = handle_file_request(
        Version::V1_1,
        "/srv/fifo",
        Err(FileError::Other(String::from("broken"))),
    );
    assert_eq!(r.status.code(), 500);
    assert_eq!(body_text(&r.response_body), "An error occurred: broken");
}

#[test]
fn serving_a_file_returns_its_exact_bytes() {
    let content = b"<html><body>welcome</body></html>".to_vec();
    let r = handle_file_request(Version::V1_1, "/srv/index.html", Ok(content.clone()));
    assert_eq!(r.status.code(), 200);
    assert_eq!(r.response_body, content);
    assert_eq!(r.headers.get("content-type").unwrap(), "text/html");
    assert_eq!(
        r.headers.get("content-length").unwrap(),
        &content.len().to_string()
    );
}

#[test]
fn sniffed_types_win_over_extensions() {
    let png: Vec<u8> = vec![
        0x89, 0x50, 0x4E, 0x47, 0x0D, 0x0A, 0x1A, 0x0A, 0, 0, 0, 0,
    ];
    let r = handle_file_request(Version::V1_1, "/srv/picture.txt", Ok(png));
    assert_eq!(r.headers.get("content-type").unwrap(), "image/png");
}

#[test]
fn unknown_extensions_fall_back_to_octet_stream() {
    let r = handle_file_request(Version::V1_1, "/srv/data.weird", Ok(b"plain".to_vec()));
    assert_eq!(r.headers.get("content-type").unwrap(), "application/octet-stream");
}

#[test]
fn directory_listing_names_entries_with_icons() {
    let entries = vec![
        DirEntry { name: String::from("a.txt"), is_dir: false },
        DirEntry { name: String::from("sub"), is_dir: true },
    ];
    let r = handle_directory_listing(Version::V1_1, "/root/dir", Ok(entries));
    assert_eq!(r.status.code(), 200);
    assert_eq!(r.headers.get("content-type").unwrap(), "text/html");
    let body = body_text(&r.response_body);
    assert!(body.contains("<li><a href=\"a.txt\"><span class=\"file-icon\"></span>a.txt</a></li>"));
    assert!(body.contains("<li><a href=\"sub\"><span class=\"folder-icon\"></span>sub</a></li>"));
    assert!(body.contains("<li><a href=\"/root\" class=\"parent-dir\"><span class=\"folder-icon\"></span>Parent Directory</a></li>"));
    assert!(body.contains("<h1>Directory listing for /root/dir</h1>"));
}

#[test]
fn root_directory_listing_has_no_parent_link() {
    let r = handle_directory_listing(Version::V1_1, "/", Ok(Vec::new()));
    let body = body_text(&r.response_body);
    assert!(!body.contains("Parent Directory"));
}

#[test]
fn unreadable_directory_degrades_to_forbidden() {
    let r = handle_directory_listing(
        Version::V1_1,
        "/root/dir",
        Err(FileError::PermissionDenied(String::from("no"))),
    );
    assert_eq!(r.status.code(), 403);
    assert!(body_text(&r.response_body).contains("<p>Access denied: no</p>"));
    let other = handle_directory_listing(
        Version::V1_1,
        "/root/dir",
        Err(FileError::Other(String::from("io"))),
    );
    assert_eq!(other.status.code(), 500);
    assert!(body_text(&other.response_body).contains("<p>An error occurred: io</p>"));
}

#[test]
fn post_echoes_the_request_body() {
    let req = HttpRequest::new("POST /submit HTTP/1.1\r\nA: 1\r\n\r\npayload").expect("parses");
    let r = handle_post_request(&req);
    assert_eq!(r.status.code(), 200);
    assert_eq!(r.headers.get("content-type").unwrap(), "text/html");
    assert_eq!(
        body_text(&r.response_body),
        "<html><body><h1>Received POST request</h1><p>Body: payload</p></body></html>"
    );
}

#[test]
fn get_dispatch_serves_file_outcome() {
    let r = handle_get_request(
        Version::V2_0,
        "/srv/notes.txt",
        GetOutcome::File { content: Ok(b"note".to_vec()) },
    );
    assert_eq!(r.status.code(), 200);
    assert_eq!(r.response_body, b"note".to_vec());
    assert_eq!(r.headers.get("content-type").unwrap(), "text/plain");
}

#[test]
fn extension_table_maps_known_types() {
    let cases = [
        ("style.css", "text/css"),
        ("app.js", "application/javascript"),
        ("data.json", "application/json"),
        ("movie.mp4", "video/mp4"),
        ("page.htm", "text/html"),
    ];
    for (name, expected) in cases {
        let r = handle_file_request(Version::V1_1, name, Ok(b"x".to_vec()));
        assert_eq!(r.headers.get("content-type").unwrap(), expected, "{}", name);
    }
}

#[test]
fn dotfiles_have_no_extension() {
    let r = handle_file_request(Version::V1_1, "/srv/.hidden", Ok(b"x".to_vec()));
    assert_eq!(r.headers.get("content-type").unwrap(), "application/octet-stream");
}

#[test]
fn listing_of_nested_directory_links_grandparent() {
    let r = handle_directory_listing(Version::V1_1, "/a/b/c", Ok(Vec::new()));
    assert!(body_text(&r.response_body).contains("<li><a href=\"/a/b\" class=\"parent-dir\""));
}

#[test]
fn join_keeps_empty_root_relative() {
    assert_eq!(resolve_request_path("", "x.txt"), "x.txt");
}
