//! Content-type selection: content sniffing through an outside matcher, with
//! an extension-based fallback table.

use vstd::prelude::*;
use vstd::string::*;
use crate::text::str_equal;
use crate::resolve::{last_idx, last_index_of, lemma_last_idx_bounds};

verus! {

/// What the outside content sniffer returns for a byte buffer.
pub uninterp spec fn sniffed_mime(bytes: Seq<u8>) -> Option<Seq<char>>;

/// Relies on `infer::get`: matches known file signatures over the buffer, a
/// pure function of the bytes.
#[verifier::external_body]
pub(crate) fn sniff_mime(bytes: &[u8]) -> (r: Option<String>)
    ensures
        match r {
            Some(m) => sniffed_mime(bytes@) == Some(m@),
            None => sniffed_mime(bytes@) is None,
        },
{
    match infer::get(bytes) {
        Some(t) => Some(String::from(t.mime_type())),
        None => None,
    }
}

/// The file name of a path: the text after the final slash.
pub open spec fn file_name_of(p: Seq<char>) -> Seq<char> {
    match last_idx(p, '/') {
        None => p,
        Some(i) => p.subrange(i + 1, p.len() as int),
    }
}

/// The extension of a path: the text after the final dot of its file name,
/// none when there is no dot or the only dot leads the name.
pub open spec fn extension_of(p: Seq<char>) -> Option<Seq<char>> {
    let f = file_name_of(p);
    match last_idx(f, '.') {
        None => None,
        Some(i) => if i == 0 {
            None
        } else {
            Some(f.subrange(i + 1, f.len() as int))
        },
    }
}

/// Exec mirror of [`extension_of`].
pub fn path_extension(p: &str) -> (r: Option<String>)
    ensures
        match r {
            Some(e) => extension_of(p@) == Some(e@),
            None => extension_of(p@) is None,
        },
{
    let n = p.unicode_len();
    let start = match last_index_of(p, '/') {
        Some(i) => {
            proof {
                lemma_last_idx_bounds(p@, '/');
            }
            i + 1
        },
        None => 0,
    };
    let f = p.substring_char(start, n);
    proof {
        if last_idx(p@, '/') is None {
            assert(p@.subrange(0, n as int) =~= p@);
        }
    }
    match last_index_of(f, '.') {
        None => None,
        Some(i) => {
            if i == 0 {
                None
            } else {
                proof {
                    lemma_last_idx_bounds(f@, '.');
                }
                let fn_len = f.unicode_len();
                Some(f.substring_char(i + 1, fn_len).to_owned())
            }
        },
    }
}

/// The fallback table from file extensions to content types.
pub open spec fn mime_for_ext(ext: Option<Seq<char>>) -> Seq<char> {
    match ext {
        None => "application/octet-stream"@,
        Some(e) => {
            if e == "html"@ || e == "htm"@ { "text/html"@ }
            else if e == "css"@ { "text/css"@ }
            else if e == "js"@ { "application/javascript"@ }
            else if e == "json"@ { "application/json"@ }
            else if e == "txt"@ { "text/plain"@ }
            else if e == "png"@ { "image/png"@ }
            else if e == "jpg"@ || e == "jpeg"@ { "image/jpeg"@ }
            else if e == "gif"@ { "image/gif"@ }
            else if e == "svg"@ { "image/svg+xml"@ }
            else if e == "pdf"@ { "application/pdf"@ }
            else if e == "mp4"@ { "video/mp4"@ }
            else if e == "webm"@ { "video/webm"@ }
            else if e == "ogg"@ { "video/ogg"@ }
            else { "application/octet-stream"@ }
        },
    }
}

/// Exec mirror of [`mime_for_ext`].
pub fn extension_mime(ext: Option<&String>) -> (r: &'static str)
    ensures
        r@ == mime_for_ext(match ext {
            Some(e) => Some(e@),
            None => None,
        }),
{
    match ext {
        None => "application/octet-stream",
        Some(e) => {
            let e = e.as_str();
            if str_equal(e, "html") || str_equal(e, "htm") { "text/html" }
            else if str_equal(e, "css") { "text/css" }
            else if str_equal(e, "js") { "application/javascript" }
            else if str_equal(e, "json") { "application/json" }
            else if str_equal(e, "txt") { "text/plain" }
            else if str_equal(e, "png") { "image/png" }
            else if str_equal(e, "jpg") || str_equal(e, "jpeg") { "image/jpeg" }
            else if str_equal(e, "gif") { "image/gif" }
            else if str_equal(e, "svg") { "image/svg+xml" }
            else if str_equal(e, "pdf") { "application/pdf" }
            else if str_equal(e, "mp4") { "video/mp4" }
            else if str_equal(e, "webm") { "video/webm" }
            else if str_equal(e, "ogg") { "video/ogg" }
            else { "application/octet-stream" }
        },
    }
}

/// The content type served for a file: the sniffed type when the bytes match
/// a known signature, else the extension table's answer.
pub open spec fn content_type_of(bytes: Seq<u8>, path: Seq<char>) -> Seq<char> {
    match sniffed_mime(bytes) {
        Some(m) => m,
        None => mime_for_ext(extension_of(path)),
    }
}

/// Picks the content type for a file's bytes, matching [`content_type_of`].
pub fn content_type_for(bytes: &Vec<u8>, path: &str) -> (r: String)
    ensures
        r@ == content_type_of(bytes@, path@),
{
    match sniff_mime(bytes.as_slice()) {
        Some(m) => m,
        None => {
            let ext = path_extension(path);
            let r = extension_mime(ext.as_ref());
            r.to_owned()
        },
    }
}

} // verus!
