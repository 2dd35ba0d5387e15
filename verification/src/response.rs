//! HTTP response model: status codes, header accumulation with lowercased
//! names, body management that keeps `content-length` exact, and wire
//! serialization described byte for byte.

use vstd::prelude::*;
use vstd::string::*;
use vstd::utf8::encode_utf8;
use crate::text::{
    lower_seq, dec_str, strip_all_slashes, to_lower_string, usize_to_string,
    strip_leading_slashes,
};
use crate::headers::HeaderMap;
use crate::request::{Version, version_text, crlf};

verus! {

/// A response status.
#[derive(Clone, Copy, Debug, PartialEq, Eq, Structural)]
pub enum ResponseStatus {
    OK,
    NotFound,
    BadRequest,
    Forbidden,
    InternalServerError,
}

/// The numeric code of a status.
pub open spec fn status_code(s: ResponseStatus) -> int {
    match s {
        ResponseStatus::OK => 200,
        ResponseStatus::NotFound => 404,
        ResponseStatus::BadRequest => 400,
        ResponseStatus::Forbidden => 403,
        ResponseStatus::InternalServerError => 500,
    }
}

/// The decimal text of a status code.
pub open spec fn status_code_text(s: ResponseStatus) -> Seq<char> {
    match s {
        ResponseStatus::OK => "200"@,
        ResponseStatus::NotFound => "404"@,
        ResponseStatus::BadRequest => "400"@,
        ResponseStatus::Forbidden => "403"@,
        ResponseStatus::InternalServerError => "500"@,
    }
}

/// The reason phrase of a status.
pub open spec fn status_reason(s: ResponseStatus) -> Seq<char> {
    match s {
        ResponseStatus::OK => "OK"@,
        ResponseStatus::NotFound => "Not Found"@,
        ResponseStatus::BadRequest => "Bad Request"@,
        ResponseStatus::Forbidden => "Forbidden"@,
        ResponseStatus::InternalServerError => "Internal Server Error"@,
    }
}

impl ResponseStatus {
    /// The numeric code, matching [`status_code`].
    pub fn code(&self) -> (r: u16)
        ensures
            r as int == status_code(*self),
    {
        match self {
            ResponseStatus::OK => 200,
            ResponseStatus::NotFound => 404,
            ResponseStatus::BadRequest => 400,
            ResponseStatus::Forbidden => 403,
            ResponseStatus::InternalServerError => 500,
        }
    }

    /// The decimal text of the code, matching [`status_code_text`].
    pub fn code_str(&self) -> (r: &'static str)
        ensures
            r@ == status_code_text(*self),
    {
        match self {
            ResponseStatus::OK => "200",
            ResponseStatus::NotFound => "404",
            ResponseStatus::BadRequest => "400",
            ResponseStatus::Forbidden => "403",
            ResponseStatus::InternalServerError => "500",
        }
    }

    /// The reason phrase, matching [`status_reason`].
    pub fn reason(&self) -> (r: &'static str)
        ensures
            r@ == status_reason(*self),
    {
        match self {
            ResponseStatus::OK => "OK",
            ResponseStatus::NotFound => "Not Found",
            ResponseStatus::BadRequest => "Bad Request",
            ResponseStatus::Forbidden => "Forbidden",
            ResponseStatus::InternalServerError => "Internal Server Error",
        }
    }
}

/// One serialized header line without its terminator.
pub open spec fn header_line_of(p: (Seq<char>, Seq<char>)) -> Seq<char> {
    p.0 + ": "@ + p.1
}

/// A sequence of lines flattened onto the wire, each followed by `rc nc`.
pub open spec fn lines_flat<T>(lines: Seq<Seq<T>>, rc: T, nc: T) -> Seq<T>
    decreases lines.len(),
{
    if lines.len() == 0 {
        Seq::empty()
    } else {
        lines[0] + seq![rc, nc] + lines_flat(lines.drop_first(), rc, nc)
    }
}

/// Appending one more line extends the flattening at its end.
pub proof fn lemma_lines_flat_push<T>(lines: Seq<Seq<T>>, l: Seq<T>, rc: T, nc: T)
    ensures
        lines_flat(lines.push(l), rc, nc) == lines_flat(lines, rc, nc) + l + seq![rc, nc],
    decreases lines.len(),
{
    let s = lines.push(l);
    assert(lines_flat(s, rc, nc) == s[0] + seq![rc, nc] + lines_flat(s.drop_first(), rc, nc));
    if lines.len() == 0 {
        assert(s.drop_first() =~~= Seq::<Seq<T>>::empty());
        assert(lines_flat(s.drop_first(), rc, nc) == Seq::<T>::empty());
        assert(s[0] == l);
        assert(lines_flat(s, rc, nc) =~= lines_flat(lines, rc, nc) + l + seq![rc, nc]);
    } else {
        assert(s.drop_first() =~~= lines.drop_first().push(l));
        lemma_lines_flat_push(lines.drop_first(), l, rc, nc);
        assert(lines_flat(s.drop_first(), rc, nc) == lines_flat(lines.drop_first(), rc, nc) + l
            + seq![rc, nc]);
        assert(s[0] == lines[0]);
        assert(lines_flat(lines, rc, nc) == lines[0] + seq![rc, nc] + lines_flat(
            lines.drop_first(),
            rc,
            nc,
        ));
        assert(lines_flat(s, rc, nc) =~= lines_flat(lines, rc, nc) + l + seq![rc, nc]);
    }
}

/// The serialized header block of an entry list, one line per entry in order.
pub open spec fn header_lines_text(ps: Seq<(Seq<char>, Seq<char>)>) -> Seq<char> {
    lines_flat(ps.map_values(|p: (Seq<char>, Seq<char>)| header_line_of(p)), '\r', '\n')
}

/// The status line of a response.
pub open spec fn status_line_text(v: Version, s: ResponseStatus) -> Seq<char> {
    version_text(v) + " "@ + status_code_text(s) + " "@ + status_reason(s)
}

/// Everything before the body: status line, header lines, blank line.
pub open spec fn head_text(r: HttpResponse) -> Seq<char> {
    status_line_text(r.version, r.status) + crlf() + header_lines_text(r.headers.entries_view())
        + crlf()
}

/// The full wire form: UTF-8 head, then the raw body bytes.
pub open spec fn serialized_bytes(r: HttpResponse) -> Seq<u8> {
    encode_utf8(head_text(r)) + r.response_body@
}

/// An HTTP response under construction.
#[derive(Debug)]
pub struct HttpResponse {
    pub version: Version,
    pub status: ResponseStatus,
    pub headers: HeaderMap,
    pub response_body: Vec<u8>,
    pub current_path: String,
}

impl HttpResponse {
    /// Header names are pairwise distinct and `accept-ranges` is present.
    pub open spec fn wf(&self) -> bool {
        self.headers.wf() && self.headers@.contains_key("accept-ranges"@)
    }

    /// Builds a response carrying the `accept-ranges: bytes` header, with an
    /// empty body and the diagnostic path stripped of leading slashes.
    pub fn new(version: Version, status: ResponseStatus, current_path: String) -> (r: Self)
        ensures
            r.wf(),
            r.version == version,
            r.status == status,
            r.current_path@ == strip_all_slashes(current_path@),
            r.response_body@ == Seq::<u8>::empty(),
            r.headers@ == Map::<Seq<char>, Seq<char>>::empty().insert(
                "accept-ranges"@,
                "bytes"@,
            ),
            r.headers.entries_view() == Seq::<(Seq<char>, Seq<char>)>::empty().push(
                ("accept-ranges"@, "bytes"@),
            ),
    {
        let mut r = HttpResponse {
            version,
            status,
            headers: HeaderMap::new(),
            response_body: Vec::new(),
            current_path: strip_leading_slashes(current_path.as_str()),
        };
        proof {
            lemma_accept_ranges_lower();
        }
        r.add_header("Accept-Ranges", "bytes");
        r
    }

    /// Stores a header under its lowercased name, overwriting a prior value
    /// stored under the same name in any case.
    pub fn add_header(&mut self, key: &str, value: &str)
        requires
            old(self).headers.wf(),
        ensures
            final(self).headers.wf(),
            final(self).headers@ == old(self).headers@.insert(lower_seq(key@), value@),
            (forall|j: int| 0 <= j < old(self).headers.entries_view().len()
                ==> old(self).headers.entries_view()[j].0 != lower_seq(key@))
                ==> final(self).headers.entries_view() == old(self).headers.entries_view().push(
                (lower_seq(key@), value@),
            ),
            (exists|j: int| 0 <= j < old(self).headers.entries_view().len()
                && old(self).headers.entries_view()[j].0 == lower_seq(key@)) ==> exists|j: int|
                0 <= j < old(self).headers.entries_view().len()
                && old(self).headers.entries_view()[j].0 == lower_seq(key@)
                && final(self).headers.entries_view() == old(self).headers.entries_view().update(
                j,
                (lower_seq(key@), value@),
            ),
            final(self).version == old(self).version,
            final(self).status == old(self).status,
            final(self).response_body == old(self).response_body,
            final(self).current_path == old(self).current_path,
            old(self).wf() ==> final(self).wf(),
    {
        let lowered = to_lower_string(key);
        self.headers.insert(lowered, value.to_owned());
    }

    /// Replaces the body and recomputes `content-length` to its byte length.
    pub fn set_body(&mut self, body: Vec<u8>)
        requires
            old(self).headers.wf(),
        ensures
            final(self).headers.wf(),
            final(self).response_body@ == body@,
            final(self).headers@ == old(self).headers@.insert(
                "content-length"@,
                dec_str(body@.len()),
            ),
            final(self).version == old(self).version,
            final(self).status == old(self).status,
            final(self).current_path == old(self).current_path,
            old(self).wf() ==> final(self).wf(),
    {
        self.response_body = body;
        let len_text = usize_to_string(self.response_body.len());
        proof {
            lemma_content_length_lower();
        }
        self.add_header("Content-Length", len_text.as_str());
    }

    /// Serializes the response: status line, header lines in storage order, a
    /// blank line, then the raw body, matching [`serialized_bytes`].
    pub fn to_string(&self) -> (r: Vec<u8>)
        ensures
            r@ == serialized_bytes(*self),
    {
        let mut head = String::new();
        head.append(self.version.as_str());
        head.append(" ");
        head.append(self.status.code_str());
        head.append(" ");
        head.append(self.status.reason());
        head.append("\r\n");
        proof {
            reveal_strlit("\r\n");
            assert(head@ =~= status_line_text(self.version, self.status) + crlf());
        }
        let ghost ev = self.headers.entries_view();
        let ghost base = head@;
        let count = self.headers.entry_count();
        let mut i: usize = 0;
        while i < count
            invariant
                i <= count,
                count == ev.len(),
                ev == self.headers.entries_view(),
                head@ == base + header_lines_text(ev.subrange(0, i as int)),
            decreases count - i,
        {
            proof {
                assert(ev.subrange(0, 0int).map_values(
                    |p: (Seq<char>, Seq<char>)| header_line_of(p),
                ) =~= Seq::<Seq<char>>::empty());
            }
            let entry = self.headers.entry_at(i);
            head.append(entry.0.as_str());
            head.append(": ");
            head.append(entry.1.as_str());
            head.append("\r\n");
            proof {
                reveal_strlit("\r\n");
                let prefix = ev.subrange(0, i as int);
                let lines = prefix.map_values(|p: (Seq<char>, Seq<char>)| header_line_of(p));
                let line = header_line_of(ev[i as int]);
                lemma_lines_flat_push(lines, line, '\r', '\n');
                assert(ev.subrange(0, i + 1).map_values(
                    |p: (Seq<char>, Seq<char>)| header_line_of(p),
                ) =~= lines.push(line));
                assert(head@ =~= base + header_lines_text(ev.subrange(0, i + 1)));
            }
            i += 1;
        }
        head.append("\r\n");
        proof {
            reveal_strlit("\r\n");
            assert(ev.subrange(0, count as int) =~= ev);
            assert(head@ =~= head_text(*self));
        }
        let mut out = head.as_str().as_bytes_vec();
        proof {
            assert(out@ == encode_utf8(head_text(*self)));
        }
        out.extend_from_slice(self.response_body.as_slice());
        out
    }

    /// A one-line diagnostic description of the response's fields; string
    /// values stand between quotes, unescaped.
    pub fn formatted_output(&self) -> (r: String)
        requires
            self.headers.wf(),
        ensures
            r@ == formatted_output_text(*self),
    {
        let mut out = String::new();
        out.append("HttpResponse{ version: ");
        out.append(debug_version_str(&self.version));
        out.append(", status: ");
        out.append(debug_status_str(&self.status));
        out.append(", content_length: ");
        match self.headers.get("content-length") {
            Some(v) => out.append(v.as_str()),
            None => out.append("0"),
        }
        out.append(", accept_ranges: ");
        match self.headers.get("accept-ranges") {
            Some(v) => out.append(v.as_str()),
            None => out.append("none"),
        }
        out.append(", response_body: <");
        let len_text = usize_to_string(self.response_body.len());
        out.append(len_text.as_str());
        out.append(" bytes>, current_path: \"");
        out.append(self.current_path.as_str());
        out.append("\" }");
        proof {
            assert(out@ =~= formatted_output_text(*self));
        }
        out
    }

    /// A short multi-line summary: status line, then the `accept-ranges` and
    /// `content-length` headers.
    pub fn http_response_string(&self) -> (r: String)
        requires
            self.headers.wf(),
        ensures
            r@ == http_response_string_text(*self),
    {
        let mut out = String::new();
        out.append(self.version.as_str());
        out.append(" ");
        out.append(self.status.code_str());
        out.append(" ");
        out.append(self.status.reason());
        out.append("\naccept-ranges: ");
        match self.headers.get("accept-ranges") {
            Some(v) => out.append(v.as_str()),
            None => out.append("none"),
        }
        out.append("\ncontent-length: ");
        match self.headers.get("content-length") {
            Some(v) => out.append(v.as_str()),
            None => out.append("0"),
        }
        proof {
            assert(out@ =~= http_response_string_text(*self));
        }
        out
    }
}

/// The variant name of a version, as a diagnostic token.
pub open spec fn debug_version_text(v: Version) -> Seq<char> {
    match v {
        Version::V1_1 => "V1_1"@,
        Version::V2_0 => "V2_0"@,
    }
}

/// Exec mirror of [`debug_version_text`].
pub fn debug_version_str(v: &Version) -> (r: &'static str)
    ensures
        r@ == debug_version_text(*v),
{
    match v {
        Version::V1_1 => "V1_1",
        Version::V2_0 => "V2_0",
    }
}

/// The variant name of a status, as a diagnostic token.
pub open spec fn debug_status_text(s: ResponseStatus) -> Seq<char> {
    match s {
        ResponseStatus::OK => "OK"@,
        ResponseStatus::NotFound => "NotFound"@,
        ResponseStatus::BadRequest => "BadRequest"@,
        ResponseStatus::Forbidden => "Forbidden"@,
        ResponseStatus::InternalServerError => "InternalServerError"@,
    }
}

/// Exec mirror of [`debug_status_text`].
pub fn debug_status_str(s: &ResponseStatus) -> (r: &'static str)
    ensures
        r@ == debug_status_text(*s),
{
    match s {
        ResponseStatus::OK => "OK",
        ResponseStatus::NotFound => "NotFound",
        ResponseStatus::BadRequest => "BadRequest",
        ResponseStatus::Forbidden => "Forbidden",
        ResponseStatus::InternalServerError => "InternalServerError",
    }
}

/// The text [`HttpResponse::formatted_output`] produces.
pub open spec fn formatted_output_text(r: HttpResponse) -> Seq<char> {
    "HttpResponse{ version: "@ + debug_version_text(r.version) + ", status: "@
        + debug_status_text(r.status) + ", content_length: "@ + (if r.headers@.contains_key(
        "content-length"@,
    ) {
        r.headers@["content-length"@]
    } else {
        "0"@
    }) + ", accept_ranges: "@ + (if r.headers@.contains_key("accept-ranges"@) {
        r.headers@["accept-ranges"@]
    } else {
        "none"@
    }) + ", response_body: <"@ + dec_str(r.response_body@.len()) + " bytes>, current_path: \""@
        + r.current_path@ + "\" }"@
}

/// The text [`HttpResponse::http_response_string`] produces.
pub open spec fn http_response_string_text(r: HttpResponse) -> Seq<char> {
    status_line_text(r.version, r.status) + "\naccept-ranges: "@ + (if r.headers@.contains_key(
        "accept-ranges"@,
    ) {
        r.headers@["accept-ranges"@]
    } else {
        "none"@
    }) + "\ncontent-length: "@ + (if r.headers@.contains_key("content-length"@) {
        r.headers@["content-length"@]
    } else {
        "0"@
    })
}

/// Lowercasing the wire spelling of `accept-ranges` gives its stored name.
pub proof fn lemma_accept_ranges_lower()
    ensures
        lower_seq("Accept-Ranges"@) == "accept-ranges"@,
{
    reveal_strlit("Accept-Ranges");
    reveal_strlit("accept-ranges");
    assert(lower_seq("Accept-Ranges"@) =~= "accept-ranges"@);
}

/// Lowercasing the wire spelling of `content-length` gives its stored name.
pub proof fn lemma_content_length_lower()
    ensures
        lower_seq("Content-Length"@) == "content-length"@,
{
    reveal_strlit("Content-Length");
    reveal_strlit("content-length");
    assert(lower_seq("Content-Length"@) =~= "content-length"@);
}

} // verus!
