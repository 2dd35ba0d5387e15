//! HTTP request model and parser: method, route, version, header block and
//! body, recovered from a raw request text exactly as the grammar spec
//! functions describe.

use vstd::prelude::*;
use vstd::string::*;
use crate::text::{
    find_first, trimmed, three_tokens, strip_one_slash, lower_seq,
    find_substr, trim_str, split_three_tokens, strip_leading_slash, eq_ignore_case, str_equal,
    lemma_find_from,
};
use crate::headers::{HeaderMap, seq_to_map};

verus! {

/// The line terminator of the wire format.
pub open spec fn crlf() -> Seq<char> {
    seq!['\r', '\n']
}

/// The blank-line separator between the header block and the body.
pub open spec fn crlfcrlf() -> Seq<char> {
    seq!['\r', '\n', '\r', '\n']
}

/// An HTTP method.
#[derive(Clone, Copy, Debug, PartialEq, Eq, Structural)]
pub enum Method {
    Get,
    Post,
    Put,
    Delete,
    Head,
    Options,
    Trace,
    Connect,
    Patch,
}

/// The canonical (uppercase) token of a method.
pub open spec fn method_text(m: Method) -> Seq<char> {
    match m {
        Method::Get => "GET"@,
        Method::Post => "POST"@,
        Method::Put => "PUT"@,
        Method::Delete => "DELETE"@,
        Method::Head => "HEAD"@,
        Method::Options => "OPTIONS"@,
        Method::Trace => "TRACE"@,
        Method::Connect => "CONNECT"@,
        Method::Patch => "PATCH"@,
    }
}

/// The method a token names, compared without regard to ASCII case.
pub open spec fn method_of(tok: Seq<char>) -> Option<Method> {
    if lower_seq(tok) == lower_seq("GET"@) { Some(Method::Get) }
    else if lower_seq(tok) == lower_seq("POST"@) { Some(Method::Post) }
    else if lower_seq(tok) == lower_seq("PUT"@) { Some(Method::Put) }
    else if lower_seq(tok) == lower_seq("DELETE"@) { Some(Method::Delete) }
    else if lower_seq(tok) == lower_seq("HEAD"@) { Some(Method::Head) }
    else if lower_seq(tok) == lower_seq("OPTIONS"@) { Some(Method::Options) }
    else if lower_seq(tok) == lower_seq("TRACE"@) { Some(Method::Trace) }
    else if lower_seq(tok) == lower_seq("CONNECT"@) { Some(Method::Connect) }
    else if lower_seq(tok) == lower_seq("PATCH"@) { Some(Method::Patch) }
    else { None }
}

impl Method {
    /// Parses a method token, matching [`method_of`].
    pub fn from_str(s: &str) -> (r: Result<Method, ()>)
        ensures
            match r {
                Ok(m) => method_of(s@) == Some(m),
                Err(_) => method_of(s@) is None,
            },
    {
        if eq_ignore_case(s, "GET") { Ok(Method::Get) }
        else if eq_ignore_case(s, "POST") { Ok(Method::Post) }
        else if eq_ignore_case(s, "PUT") { Ok(Method::Put) }
        else if eq_ignore_case(s, "DELETE") { Ok(Method::Delete) }
        else if eq_ignore_case(s, "HEAD") { Ok(Method::Head) }
        else if eq_ignore_case(s, "OPTIONS") { Ok(Method::Options) }
        else if eq_ignore_case(s, "TRACE") { Ok(Method::Trace) }
        else if eq_ignore_case(s, "CONNECT") { Ok(Method::Connect) }
        else if eq_ignore_case(s, "PATCH") { Ok(Method::Patch) }
        else { Err(()) }
    }

    /// The canonical token, matching [`method_text`].
    pub fn as_str(&self) -> (r: &'static str)
        ensures
            r@ == method_text(*self),
    {
        match self {
            Method::Get => "GET",
            Method::Post => "POST",
            Method::Put => "PUT",
            Method::Delete => "DELETE",
            Method::Head => "HEAD",
            Method::Options => "OPTIONS",
            Method::Trace => "TRACE",
            Method::Connect => "CONNECT",
            Method::Patch => "PATCH",
        }
    }
}

/// An HTTP protocol version.
#[derive(Clone, Copy, Debug, PartialEq, Eq, Structural)]
pub enum Version {
    V1_1,
    V2_0,
}

/// The wire token of a version.
pub open spec fn version_text(v: Version) -> Seq<char> {
    match v {
        Version::V1_1 => "HTTP/1.1"@,
        Version::V2_0 => "HTTP/2.0"@,
    }
}

/// The version a token names; the match is exact and case-sensitive.
pub open spec fn version_of(tok: Seq<char>) -> Option<Version> {
    if tok == "HTTP/1.1"@ { Some(Version::V1_1) }
    else if tok == "HTTP/2.0"@ { Some(Version::V2_0) }
    else { None }
}

impl Version {
    /// Parses a version token, matching [`version_of`].
    pub fn from_str(s: &str) -> (r: Result<Version, ()>)
        ensures
            match r {
                Ok(v) => version_of(s@) == Some(v),
                Err(_) => version_of(s@) is None,
            },
    {
        if str_equal(s, "HTTP/1.1") { Ok(Version::V1_1) }
        else if str_equal(s, "HTTP/2.0") { Ok(Version::V2_0) }
        else { Err(()) }
    }

    /// The wire token, matching [`version_text`].
    pub fn as_str(&self) -> (r: &'static str)
        ensures
            r@ == version_text(*self),
    {
        match self {
            Version::V1_1 => "HTTP/1.1",
            Version::V2_0 => "HTTP/2.0",
        }
    }
}

/// A request route: the request path with one leading slash stripped.
#[derive(Debug)]
pub struct Route {
    path: String,
}

impl View for Route {
    type V = Seq<char>;

    closed spec fn view(&self) -> Seq<char> {
        self.path@
    }
}

impl Route {
    /// Builds a route from a request path, removing exactly one leading slash.
    pub fn new(path: &str) -> (r: Self)
        ensures
            r@ == strip_one_slash(path@),
    {
        Route { path: strip_leading_slash(path) }
    }

    /// The stored path.
    pub fn path(&self) -> (r: &str)
        ensures
            r@ == self@,
    {
        self.path.as_str()
    }
}

/// The first line of a text: everything before the first line feed, with a
/// trailing carriage return removed.
pub open spec fn first_line(s: Seq<char>) -> Seq<char> {
    let e = match find_first(s, seq!['\n']) {
        Some(i) => if 0 <= i <= s.len() { i } else { s.len() as int },
        None => s.len() as int,
    };
    let e2 = if e > 0 && s[e - 1] == '\r' { e - 1 } else { e };
    s.subrange(0, e2)
}

/// Splits a text at its first CRLF: the line before it and the rest after it.
pub open spec fn line_split(s: Seq<char>) -> (Seq<char>, Seq<char>) {
    match find_first(s, crlf()) {
        Some(i) => if 0 <= i && i + 2 <= s.len() {
            (s.subrange(0, i), s.subrange(i + 2, s.len() as int))
        } else {
            (s, Seq::empty())
        },
        None => (s, Seq::empty()),
    }
}

/// Parses one header line: the name before the first colon and the value
/// after it, both trimmed; no colon means failure.
pub open spec fn parse_header_line(line: Seq<char>) -> Option<(Seq<char>, Seq<char>)> {
    match find_first(line, seq![':']) {
        Some(i) => if 0 <= i && i < line.len() {
            Some((trimmed(line.subrange(0, i)), trimmed(line.subrange(i + 1, line.len() as int))))
        } else {
            None
        },
        None => None,
    }
}

/// Parses CRLF-terminated header lines in order until an empty line or the
/// end; a malformed line fails the whole block.
pub open spec fn header_pairs(s: Seq<char>) -> Option<Seq<(Seq<char>, Seq<char>)>>
    decreases s.len(),
{
    if s.len() == 0 {
        Some(Seq::empty())
    } else {
        let line = line_split(s).0;
        let rest = line_split(s).1;
        if line.len() == 0 {
            Some(Seq::empty())
        } else {
            match parse_header_line(line) {
                None => None,
                Some(p) => match header_pairs(rest) {
                    None => None,
                    Some(ps) => Some(seq![p] + ps),
                },
            }
        }
    }
}

/// The header mapping of a raw request: the header lines after the first
/// CRLF, folded left to right with later values overriding earlier ones.
pub open spec fn headers_of(s: Seq<char>) -> Option<Map<Seq<char>, Seq<char>>> {
    match find_first(s, crlf()) {
        None => None,
        Some(i) => {
            let after = if 0 <= i && i + 2 <= s.len() {
                s.subrange(i + 2, s.len() as int)
            } else {
                Seq::empty()
            };
            match header_pairs(after) {
                None => None,
                Some(ps) => Some(seq_to_map(ps)),
            }
        },
    }
}

/// The body of a raw request: everything after the first blank line, or
/// empty when there is none.
pub open spec fn body_of(s: Seq<char>) -> Seq<char> {
    match find_first(s, crlfcrlf()) {
        Some(i) => if 0 <= i && i + 4 <= s.len() {
            s.subrange(i + 4, s.len() as int)
        } else {
            Seq::empty()
        },
        None => Seq::empty(),
    }
}

/// The structured reading of a request.
pub struct RequestView {
    pub method: Method,
    pub route: Seq<char>,
    pub version: Version,
    pub headers: Map<Seq<char>, Seq<char>>,
    pub body: Seq<char>,
}

/// The full request grammar: a first line of exactly three tokens naming a
/// method and a version, a well-formed header block, and the body after the
/// first blank line.
pub open spec fn parse_request(s: Seq<char>) -> Option<RequestView> {
    if s.len() == 0 {
        None
    } else {
        match three_tokens(first_line(s)) {
            None => None,
            Some(t) => match method_of(t.0) {
                None => None,
                Some(m) => match version_of(t.2) {
                    None => None,
                    Some(v) => match headers_of(s) {
                        None => None,
                        Some(h) => Some(
                            RequestView {
                                method: m,
                                route: strip_one_slash(t.1),
                                version: v,
                                headers: h,
                                body: body_of(s),
                            },
                        ),
                    },
                },
            },
        }
    }
}

/// A parsed HTTP request.
#[derive(Debug)]
pub struct HttpRequest {
    method: Method,
    route: Route,
    version: Version,
    headers: HeaderMap,
    request_body: String,
}

impl View for HttpRequest {
    type V = RequestView;

    closed spec fn view(&self) -> RequestView {
        RequestView {
            method: self.method,
            route: self.route@,
            version: self.version,
            headers: self.headers@,
            body: self.request_body@,
        }
    }
}

impl HttpRequest {
    /// The header mapping holds one entry per name.
    pub closed spec fn wf(&self) -> bool {
        self.headers.wf()
    }

    /// Parses the header block of a raw request, matching [`headers_of`].
    pub fn parse_headers(request: &str) -> (r: Option<HeaderMap>)
        ensures
            match r {
                Some(h) => headers_of(request@) == Some(h@) && h.wf(),
                None => headers_of(request@) is None,
            },
    {
        proof {
            reveal_strlit("\r\n");
            assert("\r\n"@ =~= crlf());
        }
        let n = request.unicode_len();
        let c = match find_substr(request, "\r\n") {
            Some(i) => i,
            None => {
                return None;
            },
        };
        proof {
            lemma_find_from(request@, crlf(), 0);
        }
        let mut rest: &str = request.substring_char(c + 2, n);
        let ghost after0 = rest@;
        let mut map = HeaderMap::new();
        let ghost mut done: Seq<(Seq<char>, Seq<char>)> = Seq::empty();
        proof {
            if header_pairs(after0) is Some {
                let ps0 = header_pairs(after0).unwrap();
                assert(done + ps0 =~= ps0);
            }
        }
        loop
            invariant
                map.wf(),
                map@ == seq_to_map(done),
                n == request@.len(),
                find_first(request@, crlf()) == Some(c as int),
                0 <= c && c + 2 <= n,
                after0 == request@.subrange(c + 2, n as int),
                header_pairs(after0) == (match header_pairs(rest@) {
                    None => None::<Seq<(Seq<char>, Seq<char>)>>,
                    Some(ps) => Some(done + ps),
                }),
            decreases rest@.len(),
        {
            proof {
                reveal_strlit("\r\n");
                assert("\r\n"@ =~= crlf());
            }
            let rn = rest.unicode_len();
            if rn == 0 {
                proof {
                    assert(header_pairs(rest@) == Some(Seq::<(Seq<char>, Seq<char>)>::empty()));
                    assert(done + Seq::<(Seq<char>, Seq<char>)>::empty() =~= done);
                }
                return Some(map);
            }
            let found = find_substr(rest, "\r\n");
            let has_term = found.is_some();
            let le = match found {
                Some(i) => i,
                None => rn,
            };
            proof {
                lemma_find_from(rest@, crlf(), 0);
            }
            if le == 0 {
                proof {
                    assert(line_split(rest@).0 =~= Seq::<char>::empty());
                    assert(header_pairs(rest@) == Some(Seq::<(Seq<char>, Seq<char>)>::empty()));
                    assert(done + Seq::<(Seq<char>, Seq<char>)>::empty() =~= done);
                }
                return Some(map);
            }
            let line = rest.substring_char(0, le);
            let ghost line_s = line_split(rest@).0;
            let ghost rest_s = line_split(rest@).1;
            proof {
                assert(line@ =~= line_s);
            }
            proof {
                reveal_strlit(":");
                assert(":"@ =~= seq![':']);
            }
            let ln = line.unicode_len();
            let ci = match find_substr(line, ":") {
                Some(i) => i,
                None => {
                    proof {
                        assert(parse_header_line(line_s) is None);
                        assert(header_pairs(rest@) is None);
                    }
                    return None;
                },
            };
            proof {
                lemma_find_from(line@, seq![':'], 0);
            }
            let name = trim_str(line.substring_char(0, ci));
            let value = trim_str(line.substring_char(ci + 1, ln));
            let ghost p = (name@, value@);
            proof {
                assert(parse_header_line(line_s) == Some(p));
            }
            map.insert(name, value);
            proof {
                assert(done.push(p).drop_last() =~= done);
                assert(map@ == seq_to_map(done.push(p)));
                done = done.push(p);
            }
            let old_rest = rest;
            if has_term {
                rest = old_rest.substring_char(le + 2, rn);
            } else {
                rest = old_rest.substring_char(rn, rn);
            }
            proof {
                assert(rest@ =~= rest_s);
                if header_pairs(rest_s) is Some {
                    let ps = header_pairs(rest_s).unwrap();
                    assert(header_pairs(old_rest@) == Some(seq![p] + ps));
                    assert(done.drop_last() + (seq![p] + ps) =~= done + ps);
                }
            }
        }
    }

    /// Parses a raw request text, matching [`parse_request`]: `None` exactly
    /// when the text is not a well-formed request.
    pub fn new(request: &str) -> (r: Option<HttpRequest>)
        ensures
            match r {
                Some(req) => parse_request(request@) == Some(req@) && req.wf(),
                None => parse_request(request@) is None,
            },
    {
        let n = request.unicode_len();
        if n == 0 {
            return None;
        }
        proof {
            reveal_strlit("\n");
            assert("\n"@ =~= seq!['\n']);
        }
        let e = match find_substr(request, "\n") {
            Some(i) => i,
            None => n,
        };
        proof {
            lemma_find_from(request@, seq!['\n'], 0);
        }
        let e2 = if e > 0 && request.get_char(e - 1) == '\r' {
            e - 1
        } else {
            e
        };
        let fl = request.substring_char(0, e2);
        proof {
            assert(fl@ == first_line(request@));
        }
        let toks = match split_three_tokens(fl) {
            Some(t) => t,
            None => {
                return None;
            },
        };
        let method = match Method::from_str(toks.0.as_str()) {
            Ok(m) => m,
            Err(_) => {
                return None;
            },
        };
        let version = match Version::from_str(toks.2.as_str()) {
            Ok(v) => v,
            Err(_) => {
                return None;
            },
        };
        let route = Route::new(toks.1.as_str());
        let headers = match HttpRequest::parse_headers(request) {
            Some(h) => h,
            None => {
                return None;
            },
        };
        proof {
            reveal_strlit("\r\n\r\n");
            assert("\r\n\r\n"@ =~= crlfcrlf());
        }
        let b = match find_substr(request, "\r\n\r\n") {
            Some(i) => i,
            None => n,
        };
        proof {
            lemma_find_from(request@, crlfcrlf(), 0);
        }
        let body_start = if b == n { n } else { b + 4 };
        let request_body = request.substring_char(body_start, n).to_owned();
        proof {
            assert(request_body@ =~= body_of(request@));
        }
        Some(HttpRequest { method, route, version, headers, request_body })
    }

    /// The parsed method.
    pub fn method(&self) -> (r: &Method)
        ensures
            r == self@.method,
    {
        &self.method
    }

    /// The parsed route.
    pub fn route(&self) -> (r: &Route)
        ensures
            r@ == self@.route,
    {
        &self.route
    }

    /// The parsed version.
    pub fn version(&self) -> (r: &Version)
        ensures
            r == self@.version,
    {
        &self.version
    }

    /// The parsed header mapping.
    pub fn headers(&self) -> (r: &HeaderMap)
        ensures
            r@ == self@.headers,
            self.wf() ==> r.wf(),
    {
        &self.headers
    }

    /// The parsed body.
    pub fn body(&self) -> (r: &str)
        ensures
            r@ == self@.body,
    {
        self.request_body.as_str()
    }
}

/// The header block of a raw request, parsed as [`HttpRequest::parse_headers`]
/// parses it.
#[derive(Debug)]
pub struct HttpHeader {
    headers: HeaderMap,
}

impl View for HttpHeader {
    type V = Map<Seq<char>, Seq<char>>;

    closed spec fn view(&self) -> Map<Seq<char>, Seq<char>> {
        self.headers@
    }
}

impl HttpHeader {
    /// Parses the header block of a raw request, matching [`headers_of`].
    pub fn new(request: &str) -> (r: Option<HttpHeader>)
        ensures
            match r {
                Some(h) => headers_of(request@) == Some(h@),
                None => headers_of(request@) is None,
            },
    {
        match HttpRequest::parse_headers(request) {
            Some(h) => Some(HttpHeader { headers: h }),
            None => None,
        }
    }
}

} // verus!
