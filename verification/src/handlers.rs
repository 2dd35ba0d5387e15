//! Request handlers: GET served from plain filesystem answers (file bytes,
//! directory entries, path classification), POST echo, and the responses for
//! unsafe, missing and unresolvable paths.

use vstd::prelude::*;
use vstd::string::*;
use vstd::utf8::encode_utf8;
use crate::text::{lower_seq, dec_str, strip_all_slashes};
use crate::request::{HttpRequest, Version};
use crate::response::{HttpResponse, ResponseStatus};
use crate::resolve::{parent_path, parent_of};
use crate::mime::{content_type_of, content_type_for};

verus! {

/// The headers every fresh response carries.
pub open spec fn base_headers() -> Map<Seq<char>, Seq<char>> {
    Map::<Seq<char>, Seq<char>>::empty().insert("accept-ranges"@, "bytes"@)
}

/// Why a filesystem operation failed, with the reported error text.
#[derive(Debug)]
pub enum FileError {
    PermissionDenied(String),
    NotFound(String),
    Other(String),
}

/// One entry of a directory: its file name and whether it is a directory.
#[derive(Debug)]
pub struct DirEntry {
    pub name: String,
    pub is_dir: bool,
}

/// The character-level view of a directory entry list.
pub open spec fn entries_view(es: Seq<DirEntry>) -> Seq<(Seq<char>, bool)> {
    es.map_values(|d: DirEntry| (d.name@, d.is_dir))
}

/// The fixed page opening of a directory listing.
pub open spec fn page_head_text() -> Seq<char> {
    "<!DOCTYPE html>\n<html lang=\"en\">\n<head>\n    <meta charset=\"utf-8\">\n    <meta name=\"viewport\" content=\"width=device-width, initial-scale=1.0\">\n    <title>Directory listing</title>\n    <style>\n    /* Insert the CSS code here */\n    body {\n        font-family: Arial, sans-serif;\n        line-height: 1.6;\n        color: #333;\n        max-width: 800px;\n        margin: 0 auto;\n        padding: 20px;\n        background-color: #f4f4f4;\n    }\n    h1 {\n        color: #2c3e50;\n        border-bottom: 2px solid #3498db;\n        padding-bottom: 10px;\n    }\n    ul {\n        list-style-type: none;\n        padding: 0;\n    }\n    li {\n        margin-bottom: 10px;\n        background-color: #fff;\n        border-radius: 4px;\n        overflow: hidden;\n    }\n    li a {\n        display: block;\n        padding: 10px 15px;\n        color: #2980b9;\n        text-decoration: none;\n        transition: background-color 0.3s ease;\n    }\n    li a:hover {\n        background-color: #ecf0f1;\n    }\n    .parent-dir {\n        font-weight: bold;\n    }\n    .file-icon, .folder-icon {\n        margin-right: 10px;\n    }\n    .file-icon::before {\n        content: \"📄\";\n    }\n    .folder-icon::before {\n        content: \"📁\";\n    }\n    </style>\n</head>\n<body>"@
}

/// The listing line of one directory entry, tagged with its icon class.
pub open spec fn entry_li(e: (Seq<char>, bool)) -> Seq<char> {
    "<li><a href=\""@ + e.0 + "\"><span class=\""@ + (if e.1 {
        "folder-icon"@
    } else {
        "file-icon"@
    }) + "\"></span>"@ + e.0 + "</a></li>"@
}

/// The listing lines of a directory's entries, in order.
pub open spec fn entries_html(es: Seq<(Seq<char>, bool)>) -> Seq<char>
    decreases es.len(),
{
    if es.len() == 0 {
        Seq::empty()
    } else {
        entries_html(es.drop_last()) + entry_li(es.last())
    }
}

/// The parent-directory link, when the listed directory has a parent.
pub open spec fn parent_li(parent: Option<Seq<char>>) -> Seq<char> {
    match parent {
        None => Seq::empty(),
        Some(pp) => "<li><a href=\""@ + pp
            + "\" class=\"parent-dir\"><span class=\"folder-icon\"></span>Parent Directory</a></li>"@,
    }
}

/// What stands between the listing's `<ul>` tags after the parent link: the
/// entry lines, or the error paragraph when the entries could not be read.
pub open spec fn listing_inner(res: Result<Vec<DirEntry>, FileError>) -> Seq<char> {
    match res {
        Ok(es) => entries_html(entries_view(es@)),
        Err(FileError::PermissionDenied(m)) => "<p>Access denied: "@ + m@ + "</p>"@,
        Err(FileError::NotFound(m)) => "<p>An error occurred: "@ + m@ + "</p>"@,
        Err(FileError::Other(m)) => "<p>An error occurred: "@ + m@ + "</p>"@,
    }
}

/// The whole listing page for a directory.
pub open spec fn listing_body(dir_path: Seq<char>, res: Result<Vec<DirEntry>, FileError>) -> Seq<
    char,
> {
    page_head_text() + "<h1>Directory listing for "@ + dir_path + "</h1>"@ + "<ul>"@ + parent_li(
        parent_path(dir_path),
    ) + listing_inner(res) + "</ul></body></html>"@
}

/// The status of a listing: degraded to 403 when the entries could not be
/// read for permission, to 500 on any other read error.
pub open spec fn listing_status(res: Result<Vec<DirEntry>, FileError>) -> ResponseStatus {
    match res {
        Ok(_) => ResponseStatus::OK,
        Err(FileError::PermissionDenied(_)) => ResponseStatus::Forbidden,
        Err(FileError::NotFound(_)) => ResponseStatus::InternalServerError,
        Err(FileError::Other(_)) => ResponseStatus::InternalServerError,
    }
}

/// The headers of a listing response.
pub open spec fn listing_headers(dir_path: Seq<char>, res: Result<Vec<DirEntry>, FileError>) -> Map<
    Seq<char>,
    Seq<char>,
> {
    base_headers().insert("content-type"@, "text/html"@).insert(
        "content-length"@,
        dec_str(encode_utf8(listing_body(dir_path, res)).len()),
    )
}

/// Serves a directory listing from the directory's path and the outcome of
/// reading its entries.
pub fn handle_directory_listing(
    version: Version,
    dir_path: &str,
    entries: Result<Vec<DirEntry>, FileError>,
) -> (r: HttpResponse)
    ensures
        r.wf(),
        r.version == version,
        r.status == listing_status(entries),
        r.current_path@ == strip_all_slashes(dir_path@),
        r.response_body@ == encode_utf8(listing_body(dir_path@, entries)),
        r.headers@ == listing_headers(dir_path@, entries),
{
    let ghost res0 = entries;
    let mut response = HttpResponse::new(version, ResponseStatus::OK, dir_path.to_owned());
    let mut content = String::new();
    content.append("<!DOCTYPE html>\n<html lang=\"en\">\n<head>\n    <meta charset=\"utf-8\">\n    <meta name=\"viewport\" content=\"width=device-width, initial-scale=1.0\">\n    <title>Directory listing</title>\n    <style>\n    /* Insert the CSS code here */\n    body {\n        font-family: Arial, sans-serif;\n        line-height: 1.6;\n        color: #333;\n        max-width: 800px;\n        margin: 0 auto;\n        padding: 20px;\n        background-color: #f4f4f4;\n    }\n    h1 {\n        color: #2c3e50;\n        border-bottom: 2px solid #3498db;\n        padding-bottom: 10px;\n    }\n    ul {\n        list-style-type: none;\n        padding: 0;\n    }\n    li {\n        margin-bottom: 10px;\n        background-color: #fff;\n        border-radius: 4px;\n        overflow: hidden;\n    }\n    li a {\n        display: block;\n        padding: 10px 15px;\n        color: #2980b9;\n        text-decoration: none;\n        transition: background-color 0.3s ease;\n    }\n    li a:hover {\n        background-color: #ecf0f1;\n    }\n    .parent-dir {\n        font-weight: bold;\n    }\n    .file-icon, .folder-icon {\n        margin-right: 10px;\n    }\n    .file-icon::before {\n        content: \"📄\";\n    }\n    .folder-icon::before {\n        content: \"📁\";\n    }\n    </style>\n</head>\n<body>");
    content.append("<h1>Directory listing for ");
    content.append(dir_path);
    content.append("</h1>");
    content.append("<ul>");
    match parent_of(dir_path) {
        Some(pp) => {
            content.append("<li><a href=\"");
            content.append(pp.as_str());
            content.append(
                "\" class=\"parent-dir\"><span class=\"folder-icon\"></span>Parent Directory</a></li>",
            );
        },
        None => {},
    }
    let ghost pre = content@;
    proof {
        assert(pre =~= page_head_text() + "<h1>Directory listing for "@ + dir_path@ + "</h1>"@
            + "<ul>"@ + parent_li(parent_path(dir_path@)));
    }
    match entries {
        Ok(es) => {
            let ghost ev = entries_view(es@);
            let count = es.len();
            let mut i: usize = 0;
            proof {
                assert(ev.subrange(0, 0int) =~~= Seq::<(Seq<char>, bool)>::empty());
            }
            while i < count
                invariant
                    i <= count,
                    count == es.len(),
                    ev == entries_view(es@),
                    pre == page_head_text() + "<h1>Directory listing for "@ + dir_path@
                        + "</h1>"@ + "<ul>"@ + parent_li(parent_path(dir_path@)),
                    content@ == pre + entries_html(ev.subrange(0, i as int)),
                decreases count - i,
            {
                let e = &es[i];
                content.append("<li><a href=\"");
                content.append(e.name.as_str());
                content.append("\"><span class=\"");
                if e.is_dir {
                    content.append("folder-icon");
                } else {
                    content.append("file-icon");
                }
                content.append("\"></span>");
                content.append(e.name.as_str());
                content.append("</a></li>");
                proof {
                    let prefix = ev.subrange(0, i as int);
                    assert(ev.subrange(0, i + 1).drop_last() =~~= prefix);
                    assert(ev.subrange(0, i + 1).last() == ev[i as int]);
                    assert(ev[i as int] == (es@[i as int].name@, es@[i as int].is_dir));
                    assert(entries_html(ev.subrange(0, i + 1)) == entries_html(prefix)
                        + entry_li(ev[i as int]));
                    assert(content@ =~= pre + entries_html(ev.subrange(0, i + 1)));
                }
                i += 1;
            }
            proof {
                assert(ev.subrange(0, count as int) =~~= ev);
                assert(content@ =~= pre + listing_inner(res0));
            }
        },
        Err(e) => {
            match e {
                FileError::PermissionDenied(m) => {
                    response.status = ResponseStatus::Forbidden;
                    content.append("<p>Access denied: ");
                    content.append(m.as_str());
                    content.append("</p>");
                },
                FileError::NotFound(m) => {
                    response.status = ResponseStatus::InternalServerError;
                    content.append("<p>An error occurred: ");
                    content.append(m.as_str());
                    content.append("</p>");
                },
                FileError::Other(m) => {
                    response.status = ResponseStatus::InternalServerError;
                    content.append("<p>An error occurred: ");
                    content.append(m.as_str());
                    content.append("</p>");
                },
            }
            proof {
                assert(content@ =~= pre + listing_inner(res0));
            }
        },
    }
    content.append("</ul></body></html>");
    proof {
        assert(content@ =~= listing_body(dir_path@, res0));
        lemma_content_type_lower();
    }
    response.add_header("Content-Type", "text/html");
    response.set_body(content.as_str().as_bytes_vec());
    response
}

/// The status a file request ends with, by the outcome of reading the file.
pub open spec fn file_status(content: Result<Vec<u8>, FileError>) -> ResponseStatus {
    match content {
        Ok(_) => ResponseStatus::OK,
        Err(FileError::PermissionDenied(_)) => ResponseStatus::Forbidden,
        Err(FileError::NotFound(_)) => ResponseStatus::NotFound,
        Err(FileError::Other(_)) => ResponseStatus::InternalServerError,
    }
}

/// The body served for a file request: the file's bytes, or a plain-text
/// description of the failure.
pub open spec fn file_body(content: Result<Vec<u8>, FileError>) -> Seq<u8> {
    match content {
        Ok(b) => b@,
        Err(FileError::PermissionDenied(m)) => encode_utf8("Access denied: "@ + m@),
        Err(FileError::NotFound(_)) => encode_utf8("File not found"@),
        Err(FileError::Other(m)) => encode_utf8("An error occurred: "@ + m@),
    }
}

/// The headers of a file response: a sniffed or extension-derived content
/// type on success, and always the exact content length.
pub open spec fn file_headers(content: Result<Vec<u8>, FileError>, path: Seq<char>) -> Map<
    Seq<char>,
    Seq<char>,
> {
    match content {
        Ok(b) => base_headers().insert("content-type"@, content_type_of(b@, path)).insert(
            "content-length"@,
            dec_str(b@.len()),
        ),
        Err(_) => base_headers().insert(
            "content-length"@,
            dec_str(file_body(content).len()),
        ),
    }
}

/// Serves a file from its path and the outcome of reading its bytes.
pub fn handle_file_request(
    version: Version,
    file_path: &str,
    content: Result<Vec<u8>, FileError>,
) -> (r: HttpResponse)
    ensures
        r.wf(),
        r.version == version,
        r.status == file_status(content),
        r.current_path@ == strip_all_slashes(file_path@),
        r.response_body@ == file_body(content),
        r.headers@ == file_headers(content, file_path@),
{
    let ghost content0 = content;
    let mut response = HttpResponse::new(version, ResponseStatus::OK, file_path.to_owned());
    match content {
        Ok(bytes) => {
            let ct = content_type_for(&bytes, file_path);
            proof {
                lemma_content_type_lower();
            }
            response.add_header("Content-Type", ct.as_str());
            response.set_body(bytes);
        },
        Err(e) => {
            match e {
                FileError::PermissionDenied(m) => {
                    response.status = ResponseStatus::Forbidden;
                    let mut t = String::from_str("Access denied: ");
                    t.append(m.as_str());
                    response.set_body(t.as_str().as_bytes_vec());
                },
                FileError::NotFound(_) => {
                    response.status = ResponseStatus::NotFound;
                    let t = "File not found";
                    response.set_body(t.as_bytes_vec());
                },
                FileError::Other(m) => {
                    response.status = ResponseStatus::InternalServerError;
                    let mut t = String::from_str("An error occurred: ");
                    t.append(m.as_str());
                    response.set_body(t.as_str().as_bytes_vec());
                },
            }
        },
    }
    response
}

/// The fixed page that echoes a POST body.
pub open spec fn post_body_text(b: Seq<char>) -> Seq<char> {
    "<html><body><h1>Received POST request</h1><p>Body: "@ + b + "</p></body></html>"@
}

/// Answers a POST by echoing the request body into a fixed HTML page.
pub fn handle_post_request(request: &HttpRequest) -> (r: HttpResponse)
    ensures
        r.wf(),
        r.version == request@.version,
        r.status == ResponseStatus::OK,
        r.current_path@ == strip_all_slashes(request@.route),
        r.response_body@ == encode_utf8(post_body_text(request@.body)),
        r.headers@ == base_headers().insert("content-type"@, "text/html"@).insert(
            "content-length"@,
            dec_str(encode_utf8(post_body_text(request@.body)).len()),
        ),
{
    let version = *request.version();
    let mut response = HttpResponse::new(
        version,
        ResponseStatus::OK,
        request.route().path().to_owned(),
    );
    let mut body = String::from_str("<html><body><h1>Received POST request</h1><p>Body: ");
    body.append(request.body());
    body.append("</p></body></html>");
    proof {
        assert(body@ =~= post_body_text(request@.body));
        lemma_content_type_lower();
    }
    response.add_header("Content-Type", "text/html");
    response.set_body(body.as_str().as_bytes_vec());
    response
}

/// What a GET request found, as plain values: an unsafe or unresolvable
/// path, a missing target, a directory's entries, or a file's bytes.
#[derive(Debug)]
pub enum GetOutcome {
    Unsafe,
    ResolutionError,
    Missing,
    Directory { entries: Result<Vec<DirEntry>, FileError> },
    File { content: Result<Vec<u8>, FileError> },
}

/// Serves a GET request from the requested path and what the filesystem
/// reported about it: 403 for an unsafe path, 404 with a `File not found`
/// body for a missing target, a bare 404 for a resolution failure, a listing
/// for a directory, the bytes for a file.
pub fn handle_get_request(version: Version, requested_path: &str, outcome: GetOutcome) -> (r:
    HttpResponse)
    ensures
        r.wf(),
        r.version == version,
        match outcome {
            GetOutcome::Unsafe => r.status == ResponseStatus::Forbidden && r.response_body@
                == Seq::<u8>::empty() && r.current_path@ == "Forbidden"@ && r.headers@
                == base_headers(),
            GetOutcome::ResolutionError => r.status == ResponseStatus::NotFound
                && r.response_body@ == Seq::<u8>::empty() && r.current_path@ == "Not Found"@
                && r.headers@ == base_headers(),
            GetOutcome::Missing => r.status == ResponseStatus::NotFound && r.response_body@
                == encode_utf8("File not found"@) && r.current_path@ == "Not Found"@
                && r.headers@ == base_headers().insert(
                "content-length"@,
                dec_str(encode_utf8("File not found"@).len()),
            ),
            GetOutcome::Directory { entries } => r.status == listing_status(entries)
                && r.current_path@ == strip_all_slashes(requested_path@) && r.response_body@
                == encode_utf8(listing_body(requested_path@, entries)) && r.headers@
                == listing_headers(requested_path@, entries),
            GetOutcome::File { content } => r.status == file_status(content)
                && r.current_path@ == strip_all_slashes(requested_path@) && r.response_body@
                == file_body(content) && r.headers@ == file_headers(content, requested_path@),
        },
{
    match outcome {
        GetOutcome::Unsafe => {
            proof {
                reveal_strlit("Forbidden");
            }
            let r = HttpResponse::new(
                version,
                ResponseStatus::Forbidden,
                String::from_str("Forbidden"),
            );
            proof {
                assert(strip_all_slashes("Forbidden"@) == "Forbidden"@);
            }
            r
        },
        GetOutcome::ResolutionError => {
            proof {
                reveal_strlit("Not Found");
            }
            let r = HttpResponse::new(
                version,
                ResponseStatus::NotFound,
                String::from_str("Not Found"),
            );
            proof {
                assert(strip_all_slashes("Not Found"@) == "Not Found"@);
            }
            r
        },
        GetOutcome::Missing => {
            proof {
                reveal_strlit("Not Found");
            }
            let mut r = HttpResponse::new(
                version,
                ResponseStatus::NotFound,
                String::from_str("Not Found"),
            );
            proof {
                assert(strip_all_slashes("Not Found"@) == "Not Found"@);
            }
            r.set_body("File not found".as_bytes_vec());
            r
        },
        GetOutcome::Directory { entries } => handle_directory_listing(
            version,
            requested_path,
            entries,
        ),
        GetOutcome::File { content } => handle_file_request(version, requested_path, content),
    }
}

/// Lowercasing the wire spelling of `content-type` gives its stored name.
pub proof fn lemma_content_type_lower()
    ensures
        lower_seq("Content-Type"@) == "content-type"@,
{
    reveal_strlit("Content-Type");
    reveal_strlit("content-type");
    assert(lower_seq("Content-Type"@) =~= "content-type"@);
}

} // verus!
