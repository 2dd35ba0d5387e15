//! The library's cross-cutting laws: header adds overwrite rather than
//! duplicate, traversal outside the root is always classified unsafe, and the
//! serialized wire form of a response gives its body back at the first blank
//! line.

use vstd::prelude::*;
use vstd::utf8::{
    encode_utf8, encode_scalar, has_width_1_encoding, has_width_2_encoding,
    has_width_3_encoding, leading_byte_width_2, leading_byte_width_3, leading_byte_width_4,
    last_continuation_byte, second_last_continuation_byte, third_last_continuation_byte,
};
use crate::text::{
    lower_seq, dec_str, occurs_at, find_first, lemma_find_from, lemma_find_first_at,
    path_within, is_ws, skip_ws_idx, token_end_idx, trim_end_idx, trimmed, three_tokens,
    strip_one_slash, lemma_skip_ws_bounds, lemma_trim_end_bounds,
};
use crate::headers::{count_key, seq_to_map, lemma_seq_to_map_props, lemma_count_key_unique};
use crate::request::{
    crlf, crlfcrlf, Version, Method, method_text, method_of, version_text, version_of,
    first_line, line_split, parse_header_line, header_pairs, headers_of, body_of,
    parse_request, RequestView,
};
use crate::response::{
    HttpResponse, ResponseStatus, lines_flat, header_line_of, header_lines_text,
    status_line_text, head_text, serialized_bytes,
};
use crate::resolve::{FsResolution, PathSafety, safety_of};

verus! {

/// Adding a header twice under one name, in any letter case, leaves exactly
/// the mapping the second add alone would give: the add overwrites and never
/// duplicates.
pub proof fn lemma_add_header_overwrites(
    h: Map<Seq<char>, Seq<char>>,
    k1: Seq<char>,
    k2: Seq<char>,
    v1: Seq<char>,
    v2: Seq<char>,
)
    requires
        lower_seq(k1) == lower_seq(k2),
    ensures
        h.insert(lower_seq(k1), v1).insert(lower_seq(k2), v2) == h.insert(lower_seq(k2), v2),
{
    assert(h.insert(lower_seq(k1), v1).insert(lower_seq(k2), v2) =~= h.insert(
        lower_seq(k2),
        v2,
    ));
}

/// A name stored in a well-formed response is carried by exactly one header
/// entry, so the serialized head holds exactly one line for it.
pub proof fn lemma_header_single_entry(r: HttpResponse, k: Seq<char>)
    requires
        r.headers.wf(),
        r.headers@.contains_key(k),
    ensures
        count_key(r.headers.entries_view(), k) == 1,
{
    let ev = r.headers.entries_view();
    r.headers.lemma_view_is_entries();
    lemma_seq_to_map_props(ev);
    assert(seq_to_map(ev).contains_key(k));
    let i = choose|i: int| 0 <= i < ev.len() && ev[i].0 == k;
    assert(ev[i].0 == k);
    lemma_count_key_unique(ev, i);
}

/// A path whose canonical form does not lie under the canonical root — and a
/// missing path whose parent's canonical form does not — classifies as
/// unsafe, whatever encoding the request used: classification sees only the
/// canonical outcome.
pub proof fn lemma_outside_root_is_unsafe(root: Seq<char>, res: FsResolution)
    requires
        !(res is Failure),
        res matches FsResolution::Resolved { canonical } ==> !path_within(canonical@, root),
        res matches FsResolution::MissingWithParent { parent_canonical } ==> !path_within(
            parent_canonical@,
            root,
        ),
    ensures
        safety_of(root, res) == PathSafety::Unsafe,
{
}

/// `p` occurs in `a + b` at an offset past `a` exactly when it occurs in `b`
/// at the corresponding position.
pub proof fn lemma_occurs_shift<T>(a: Seq<T>, b: Seq<T>, p: Seq<T>, j: int)
    requires
        0 <= j,
    ensures
        occurs_at(a + b, p, a.len() + j) <==> occurs_at(b, p, j),
{
    let s = a + b;
    if j + p.len() <= b.len() {
        assert(s.subrange(a.len() + j, a.len() + j + p.len()) =~= b.subrange(j, j + p.len()));
    }
}

/// No element of any line is `rc` or `nc`, and every line is nonempty.
pub open spec fn lines_ok<T>(lines: Seq<Seq<T>>, rc: T, nc: T) -> bool {
    forall|k: int| #![trigger lines[k]] 0 <= k < lines.len() ==> lines[k].len() > 0 && (forall|
        i: int,
    | 0 <= i < lines[k].len() ==> lines[k][i] != rc && lines[k][i] != nc)
}

/// In a flattened sequence of clean lines followed by a blank line, the
/// first `rc nc rc nc` stands exactly at the last line's terminator.
pub proof fn lemma_flat_boundary<T>(lines: Seq<Seq<T>>, rc: T, nc: T, tail: Seq<T>)
    requires
        rc != nc,
        lines.len() > 0,
        lines_ok(lines, rc, nc),
    ensures
        find_first(lines_flat(lines, rc, nc) + seq![rc, nc] + tail, seq![rc, nc, rc, nc])
            == Some(lines_flat(lines, rc, nc).len() - 2),
    decreases lines.len(),
{
    let flat = lines_flat(lines, rc, nc);
    let p = seq![rc, nc, rc, nc];
    let text = flat + seq![rc, nc] + tail;
    let l0 = lines[0];
    if lines.len() == 1 {
        assert(lines.drop_first().len() == 0);
        assert(flat == l0 + seq![rc, nc] + Seq::<T>::empty());
        assert(flat =~= l0 + seq![rc, nc]);
        assert(occurs_at(text, p, l0.len() as int)) by {
            assert(text.subrange(l0.len() as int, l0.len() as int + 4) =~= p);
        }
        assert forall|k: int| 0 <= k < l0.len() implies !occurs_at(text, p, k) by {
            if occurs_at(text, p, k) {
                assert(text.subrange(k, k + 4)[0] == text[k]);
                assert(text[k] == l0[k]);
                assert(l0[k] == rc);
            }
        }
        lemma_find_first_at(text, p, l0.len() as int);
    } else {
        let rest = lines.drop_first();
        let fr = lines_flat(rest, rc, nc);
        let sp = fr + seq![rc, nc] + tail;
        assert(lines_ok(rest, rc, nc)) by {
            assert forall|k: int| 0 <= k < rest.len() implies #[trigger] rest[k].len() > 0
                && (forall|i: int| 0 <= i < rest[k].len() ==> rest[k][i] != rc && rest[k][i]
                != nc) by {
                assert(rest[k] == lines[k + 1]);
            }
        }
        lemma_flat_boundary(rest, rc, nc, tail);
        lemma_find_from(sp, p, 0);
        let b = fr.len() - 2;
        let a = l0 + seq![rc, nc];
        assert(text =~= a + sp);
        assert(rest[0] == lines[1]);
        assert(fr[0] == rest[0][0]);
        assert(occurs_at(a + sp, p, a.len() + b)) by {
            lemma_occurs_shift(a, sp, p, b);
        }
        assert forall|k: int| 0 <= k < a.len() + b implies !occurs_at(a + sp, p, k) by {
            if occurs_at(a + sp, p, k) {
                assert((a + sp).subrange(k, k + 4)[0] == (a + sp)[k]);
                assert((a + sp)[k] == rc);
                if k < l0.len() {
                    assert((a + sp)[k] == l0[k]);
                } else if k == l0.len() {
                    assert((a + sp).subrange(k, k + 4)[2] == (a + sp)[k + 2]);
                    assert((a + sp)[k + 2] == sp[0]);
                    assert(sp[0] == fr[0]);
                    assert(fr[0] != rc);
                } else if k == l0.len() + 1 {
                    assert((a + sp)[k] == nc);
                } else {
                    let j = k - a.len();
                    lemma_occurs_shift(a, sp, p, j);
                    assert(!occurs_at(sp, p, j));
                }
            }
        }
        lemma_find_first_at(a + sp, p, a.len() + b);
        assert(flat =~= a + fr);
        assert(find_first(text, p) == Some(flat.len() - 2));
    }
}

/// No character is a carriage return or line feed.
pub open spec fn clean_text(s: Seq<char>) -> bool {
    forall|i: int| 0 <= i < s.len() ==> s[i] != '\r' && s[i] != '\n'
}

/// Every stored header name and value is free of line breaks.
pub open spec fn clean_headers(ps: Seq<(Seq<char>, Seq<char>)>) -> bool {
    forall|k: int| #![trigger ps[k]] 0 <= k < ps.len() ==> clean_text(ps[k].0) && clean_text(
        ps[k].1,
    )
}

/// The status line is nonempty and free of line breaks.
pub proof fn lemma_status_line_clean(v: Version, s: ResponseStatus)
    ensures
        clean_text(status_line_text(v, s)),
        status_line_text(v, s).len() > 0,
{
    reveal_strlit("HTTP/1.1");
    reveal_strlit("HTTP/2.0");
    reveal_strlit(" ");
    reveal_strlit("200");
    reveal_strlit("404");
    reveal_strlit("400");
    reveal_strlit("403");
    reveal_strlit("500");
    reveal_strlit("OK");
    reveal_strlit("Not Found");
    reveal_strlit("Bad Request");
    reveal_strlit("Forbidden");
    reveal_strlit("Internal Server Error");
    assert forall|i: int| 0 <= i < status_line_text(v, s).len() implies status_line_text(v, s)[i]
        != '\r' && status_line_text(v, s)[i] != '\n' && '\0' <= status_line_text(v, s)[i]
        <= '\u{7f}' by {
    }
}

/// The bytes after the first blank line of a wire text.
pub open spec fn body_after_blank(bytes: Seq<u8>) -> Seq<u8> {
    match find_first(bytes, seq![13u8, 10u8, 13u8, 10u8]) {
        Some(i) => if 0 <= i && i + 4 <= bytes.len() {
            bytes.subrange(i + 4, bytes.len() as int)
        } else {
            Seq::empty()
        },
        None => Seq::empty(),
    }
}

/// Serialization round trip: for a response whose header names and values
/// are free of line breaks, the bytes after the first blank line
/// of the serialized wire form are exactly the body that was set, and the
/// mapping's `content-length` (kept exact by the body-setting operation)
/// names the body's byte length.
pub proof fn lemma_response_round_trip(r: HttpResponse)
    requires
        clean_headers(r.headers.entries_view()),
        r.headers@.contains_key("content-length"@),
        r.headers@["content-length"@] == dec_str(r.response_body@.len()),
    ensures
        body_after_blank(serialized_bytes(r)) == r.response_body@,
        r.headers@["content-length"@] == dec_str(r.response_body@.len()),
{
    reveal_strlit(": ");
    let ev = r.headers.entries_view();
    let hls = ev.map_values(|p: (Seq<char>, Seq<char>)| header_line_of(p));
    let all = seq![status_line_text(r.version, r.status)] + hls;
    lemma_status_line_clean(r.version, r.status);
    assert forall|k: int| 0 <= k < all.len() implies #[trigger] all[k].len() > 0 && (forall|
        i: int,
    | 0 <= i < all[k].len() ==> all[k][i] != '\r' && all[k][i] != '\n') by {
        if k > 0 {
            let p = ev[k - 1];
            assert(all[k] == header_line_of(p));
            assert(clean_text(p.0) && clean_text(p.1));
            assert(": "@[0] == ':' && ": "@[1] == ' ' && ": "@.len() == 2);
            assert forall|i: int| 0 <= i < all[k].len() implies #[trigger] all[k][i] != '\r'
                && all[k][i] != '\n' by {
                if i < p.0.len() {
                    assert(all[k][i] == p.0[i]);
                } else if i < p.0.len() + 2 {
                    assert(all[k][i] == ": "@[i - p.0.len()]);
                } else {
                    assert(all[k][i] == p.1[i - p.0.len() - 2]);
                }
            }
        }
    }
    assert(lines_ok(all, '\r', '\n'));
    let flat = lines_flat(all, '\r', '\n');
    assert(head_text(r) =~= flat + seq!['\r', '\n']) by {
        assert(all.drop_first() =~~= hls);
        assert(all[0] == status_line_text(r.version, r.status));
        assert(crlf() =~= seq!['\r', '\n']);
        assert(flat == all[0] + seq!['\r', '\n'] + header_lines_text(ev));
    }
    let bl = all.map_values(|l: Seq<char>| encode_utf8(l));
    let bflat = lines_flat(bl, 13u8, 10u8);
    lemma_flat_encode(all);
    lemma_encode_concat(flat, seq!['\r', '\n']);
    lemma_crlf_bytes();
    assert(encode_utf8(head_text(r)) =~= bflat + seq![13u8, 10u8]) by {
        assert(encode_utf8(flat + seq!['\r', '\n']) == encode_utf8(flat) + encode_utf8(seq![
            '\r',
            '\n',
        ]));
    }
    assert forall|k: int| 0 <= k < bl.len() implies #[trigger] bl[k].len() > 0 && (forall|
        i: int,
    | 0 <= i < bl[k].len() ==> bl[k][i] != 13u8 && bl[k][i] != 10u8) by {
        assert(bl[k] == encode_utf8(all[k]));
        lemma_line_bytes(all[k]);
    }
    assert(lines_ok(bl, 13u8, 10u8));
    lemma_flat_boundary(bl, 13u8, 10u8, r.response_body@);
    let text = bflat + seq![13u8, 10u8] + r.response_body@;
    assert(serialized_bytes(r) =~= text);
    assert(find_first(text, seq![13u8, 10u8, 13u8, 10u8]) == Some(bflat.len() - 2));
    assert(bflat.len() >= 2) by {
        assert(bl.len() > 0);
        assert(bflat == bl[0] + seq![13u8, 10u8] + lines_flat(bl.drop_first(), 13u8, 10u8));
    }
    assert(body_after_blank(text) =~= r.response_body@);
}

/// A first-line token: nonempty, with no whitespace character.
pub open spec fn token_ok(t: Seq<char>) -> bool {
    t.len() > 0 && forall|i: int| 0 <= i < t.len() ==> !is_ws(t[i])
}

/// A header entry ready for the wire: the name free of line breaks and
/// colons, the value free of line breaks; both may carry edge whitespace,
/// which the parser trims away.
pub open spec fn header_pair_ok(p: (Seq<char>, Seq<char>)) -> bool {
    (forall|i: int| 0 <= i < p.0.len() ==> p.0[i] != '\r' && p.0[i] != '\n' && p.0[i] != ':')
        && (forall|i: int| 0 <= i < p.1.len() ==> p.1[i] != '\r' && p.1[i] != '\n')
}

/// A header entry as the parser returns it: name and value trimmed.
pub open spec fn trim_pair(p: (Seq<char>, Seq<char>)) -> (Seq<char>, Seq<char>) {
    (trimmed(p.0), trimmed(p.1))
}

/// The first line of a serialized request.
pub open spec fn request_line_text(m: Method, path: Seq<char>, v: Version) -> Seq<char> {
    method_text(m) + seq![' '] + path + seq![' '] + version_text(v)
}

/// A whole serialized request: first line, header block, blank line, body.
pub open spec fn request_text(
    m: Method,
    path: Seq<char>,
    v: Version,
    ps: Seq<(Seq<char>, Seq<char>)>,
    body: Seq<char>,
) -> Seq<char> {
    request_line_text(m, path, v) + crlf() + header_lines_text(ps) + crlf() + body
}

/// A whitespace run ending before a non-whitespace character scans to there.
pub proof fn lemma_skip_ws_at(s: Seq<char>, i: int, j: int)
    requires
        0 <= i <= j <= s.len(),
        forall|k: int| i <= k < j ==> is_ws(s[k]),
        j == s.len() || !is_ws(s[j]),
    ensures
        skip_ws_idx(s, i) == j,
    decreases j - i,
{
    if i < j {
        assert(is_ws(s[i]));
        lemma_skip_ws_at(s, i + 1, j);
    }
}

/// A token run ending before whitespace scans to there.
pub proof fn lemma_token_end_at(s: Seq<char>, i: int, j: int)
    requires
        0 <= i <= j <= s.len(),
        forall|k: int| i <= k < j ==> !is_ws(s[k]),
        j == s.len() || is_ws(s[j]),
    ensures
        token_end_idx(s, i) == j,
    decreases j - i,
{
    if i < j {
        assert(!is_ws(s[i]));
        lemma_token_end_at(s, i + 1, j);
    }
}

/// Scanning for non-whitespace shifts across one prepended space.
pub proof fn lemma_skip_ws_shift(v: Seq<char>, i: int)
    requires
        0 <= i <= v.len(),
    ensures
        skip_ws_idx(seq![' '] + v, i + 1) == 1 + skip_ws_idx(v, i),
    decreases v.len() - i,
{
    let s = seq![' '] + v;
    if i < v.len() {
        assert(s[i + 1] == v[i]);
        if is_ws(v[i]) {
            lemma_skip_ws_shift(v, i + 1);
        }
    }
}

/// Scanning back over trailing whitespace shifts across one prepended space.
pub proof fn lemma_trim_end_shift(v: Seq<char>, i: int)
    requires
        0 <= i <= v.len(),
    ensures
        trim_end_idx(seq![' '] + v, i + 1) == (if trim_end_idx(v, i) == 0 {
            0int
        } else {
            1 + trim_end_idx(v, i)
        }),
    decreases i,
{
    let s = seq![' '] + v;
    if i == 0 {
        assert(is_ws(s[0]));
        assert(trim_end_idx(s, 1) == trim_end_idx(s, 0));
    } else {
        assert(s[i] == v[i - 1]);
        if is_ws(v[i - 1]) {
            lemma_trim_end_shift(v, i - 1);
        }
    }
}

/// Trimming is unchanged by one leading space.
pub proof fn lemma_trim_space(v: Seq<char>)
    ensures
        trimmed(seq![' '] + v) == trimmed(v),
{
    let s = seq![' '] + v;
    assert(is_ws(s[0]));
    lemma_skip_ws_bounds(v, 0);
    lemma_trim_end_bounds(v, v.len() as int);
    let a = skip_ws_idx(v, 0);
    let b = trim_end_idx(v, v.len() as int);
    lemma_skip_ws_shift(v, 0);
    assert(skip_ws_idx(s, 0) == skip_ws_idx(s, 1));
    assert(skip_ws_idx(s, 0) == 1 + a);
    lemma_trim_end_shift(v, v.len() as int);
    if b == 0 {
        assert(trim_end_idx(s, s.len() as int) == 0);
        assert(trimmed(s) =~= trimmed(v)) by {
            if a <= b {
                assert(trimmed(v) =~= Seq::<char>::empty());
            }
        }
    } else {
        assert(trim_end_idx(s, s.len() as int) == 1 + b);
        if a <= b {
            assert(trimmed(s) =~= v.subrange(a, b));
        } else {
            assert(trimmed(s) =~= Seq::<char>::empty());
        }
    }
}

/// The first occurrence of a single element standing right after a run that
/// lacks it.
pub proof fn lemma_first_single<T>(a: Seq<T>, c: T, rest: Seq<T>)
    requires
        forall|i: int| 0 <= i < a.len() ==> a[i] != c,
    ensures
        find_first(a + seq![c] + rest, seq![c]) == Some(a.len() as int),
{
    let s = a + seq![c] + rest;
    assert(occurs_at(s, seq![c], a.len() as int)) by {
        assert(s.subrange(a.len() as int, a.len() as int + 1) =~= seq![c]);
    }
    assert forall|k: int| 0 <= k < a.len() implies !occurs_at(s, seq![c], k) by {
        if occurs_at(s, seq![c], k) {
            assert(s.subrange(k, k + 1)[0] == s[k]);
            assert(s[k] == a[k]);
        }
    }
    lemma_find_first_at(s, seq![c], a.len() as int);
}

/// The first `rc nc` pair standing right after a run with no `rc`.
pub proof fn lemma_first_pair<T>(a: Seq<T>, rc: T, nc: T, rest: Seq<T>)
    requires
        forall|i: int| 0 <= i < a.len() ==> a[i] != rc,
    ensures
        find_first(a + seq![rc, nc] + rest, seq![rc, nc]) == Some(a.len() as int),
{
    let s = a + seq![rc, nc] + rest;
    assert(occurs_at(s, seq![rc, nc], a.len() as int)) by {
        assert(s.subrange(a.len() as int, a.len() as int + 2) =~= seq![rc, nc]);
    }
    assert forall|k: int| 0 <= k < a.len() implies !occurs_at(s, seq![rc, nc], k) by {
        if occurs_at(s, seq![rc, nc], k) {
            assert(s.subrange(k, k + 2)[0] == s[k]);
            assert(s[k] == a[k]);
        }
    }
    lemma_find_first_at(s, seq![rc, nc], a.len() as int);
}

/// A serialized header line parses back to its entry, trimmed.
pub proof fn lemma_header_line_parse(p: (Seq<char>, Seq<char>))
    requires
        header_pair_ok(p),
    ensures
        parse_header_line(header_line_of(p)) == Some(trim_pair(p)),
{
    reveal_strlit(": ");
    let line = header_line_of(p);
    assert(": "@.len() == 2 && ": "@[0] == ':' && ": "@[1] == ' ');
    assert(line =~= p.0 + seq![':'] + (seq![' '] + p.1));
    lemma_first_single(p.0, ':', seq![' '] + p.1);
    assert(find_first(line, seq![':']) == Some(p.0.len() as int));
    assert(line.subrange(0, p.0.len() as int) =~= p.0);
    assert(line.subrange(p.0.len() as int + 1, line.len() as int) =~= seq![' '] + p.1);
    lemma_trim_space(p.1);
}

/// A serialized header block followed by the blank line parses back to its
/// entries, each trimmed, whatever follows the blank line.
pub proof fn lemma_header_block_round_trip(ps: Seq<(Seq<char>, Seq<char>)>, tail: Seq<char>)
    requires
        forall|k: int| 0 <= k < ps.len() ==> header_pair_ok(#[trigger] ps[k]),
    ensures
        header_pairs(header_lines_text(ps) + crlf() + tail) == Some(
            ps.map_values(|p: (Seq<char>, Seq<char>)| trim_pair(p)),
        ),
    decreases ps.len(),
{
    reveal_strlit(": ");
    let s = header_lines_text(ps) + crlf() + tail;
    assert(crlf() == seq!['\r', '\n']);
    if ps.len() == 0 {
        assert(header_lines_text(ps) =~= Seq::<char>::empty()) by {
            assert(ps.map_values(|p: (Seq<char>, Seq<char>)| header_line_of(p)) =~~= Seq::<
                Seq<char>,
            >::empty());
        }
        assert(s =~= Seq::<char>::empty() + seq!['\r', '\n'] + tail);
        lemma_first_pair(Seq::<char>::empty(), '\r', '\n', tail);
        assert(find_first(s, crlf()) == Some(0int));
        assert(line_split(s).0 =~= Seq::<char>::empty());
        if s.len() > 0 {
            assert(header_pairs(s) == Some(Seq::<(Seq<char>, Seq<char>)>::empty()));
        }
        assert(ps.map_values(|p: (Seq<char>, Seq<char>)| trim_pair(p)) =~= Seq::<(
            Seq<char>,
            Seq<char>,
        )>::empty());
    } else {
        let p0 = ps[0];
        let rest = ps.drop_first();
        let line0 = header_line_of(p0);
        assert(header_pair_ok(p0));
        assert(ps.map_values(|p: (Seq<char>, Seq<char>)| header_line_of(p)).drop_first() =~~=
            rest.map_values(|p: (Seq<char>, Seq<char>)| header_line_of(p)));
        assert(header_lines_text(ps) =~= line0 + seq!['\r', '\n'] + header_lines_text(rest));
        let sp = header_lines_text(rest) + crlf() + tail;
        assert(s =~= line0 + seq!['\r', '\n'] + sp);
        assert(": "@.len() == 2 && ": "@[0] == ':' && ": "@[1] == ' ');
        assert forall|i: int| 0 <= i < line0.len() implies line0[i] != '\r' by {
            if i < p0.0.len() {
                assert(line0[i] == p0.0[i]);
            } else if i < p0.0.len() + 2 {
                assert(line0[i] == ": "@[i - p0.0.len()]);
            } else {
                assert(line0[i] == p0.1[i - p0.0.len() - 2]);
            }
        }
        lemma_first_pair(line0, '\r', '\n', sp);
        assert(find_first(s, crlf()) == Some(line0.len() as int));
        assert(line_split(s).0 =~= line0);
        assert(line_split(s).1 =~= sp);
        lemma_header_line_parse(p0);
        assert(parse_header_line(line_split(s).0) == Some(trim_pair(p0)));
        assert forall|k: int| 0 <= k < rest.len() implies header_pair_ok(#[trigger] rest[k]) by {
            assert(rest[k] == ps[k + 1]);
        }
        lemma_header_block_round_trip(rest, tail);
        let tps = ps.map_values(|p: (Seq<char>, Seq<char>)| trim_pair(p));
        let trest = rest.map_values(|p: (Seq<char>, Seq<char>)| trim_pair(p));
        assert(header_pairs(sp) == Some(trest));
        assert(header_pairs(s) == Some(seq![trim_pair(p0)] + trest));
        assert(seq![trim_pair(p0)] + trest =~= tps) by {
            assert forall|k: int| 0 <= k < tps.len() implies (seq![trim_pair(p0)] + trest)[k]
                == tps[k] by {
                if k > 0 {
                    assert(rest[k - 1] == ps[k]);
                }
            }
        }
    }
}

/// The first line of a line-break-free text followed by CRLF and anything.
pub proof fn lemma_first_line(fl: Seq<char>, rest: Seq<char>)
    requires
        forall|i: int| 0 <= i < fl.len() ==> fl[i] != '\r' && fl[i] != '\n',
    ensures
        first_line(fl + crlf() + rest) == fl,
{
    let s = fl + crlf() + rest;
    assert(s =~= (fl + seq!['\r']) + seq!['\n'] + rest);
    assert forall|i: int| 0 <= i < (fl + seq!['\r']).len() implies (fl + seq!['\r'])[i] != '\n' by {
        if i < fl.len() {
            assert((fl + seq!['\r'])[i] == fl[i]);
        }
    }
    lemma_first_single(fl + seq!['\r'], '\n', rest);
    assert(find_first(s, seq!['\n']) == Some(fl.len() as int + 1));
    assert(s[fl.len() as int] == '\r');
    assert(first_line(s) =~= fl);
}

/// Exactly three clean tokens separated by single spaces tokenize to
/// themselves.
pub proof fn lemma_three_tokens(a: Seq<char>, b: Seq<char>, c: Seq<char>)
    requires
        token_ok(a),
        token_ok(b),
        token_ok(c),
    ensures
        three_tokens(a + seq![' '] + b + seq![' '] + c) == Some((a, b, c)),
{
    let s = a + seq![' '] + b + seq![' '] + c;
    let la = a.len() as int;
    let lb = b.len() as int;
    let lc = c.len() as int;
    let n = s.len() as int;
    assert(n == la + lb + lc + 2);
    assert forall|k: int| 0 <= k < n implies (if k < la {
        s[k] == a[k]
    } else if k == la {
        s[k] == ' '
    } else if k < la + 1 + lb {
        s[k] == b[k - la - 1]
    } else if k == la + 1 + lb {
        s[k] == ' '
    } else {
        s[k] == c[k - la - lb - 2]
    }) by {
    }
    lemma_skip_ws_at(s, 0, 0);
    lemma_token_end_at(s, 0, la);
    lemma_skip_ws_at(s, la, la + 1);
    lemma_token_end_at(s, la + 1, la + 1 + lb);
    lemma_skip_ws_at(s, la + 1 + lb, la + 2 + lb);
    lemma_token_end_at(s, la + 2 + lb, n);
    lemma_skip_ws_at(s, n, n);
    assert(s.subrange(0, la) =~= a);
    assert(s.subrange(la + 1, la + 1 + lb) =~= b);
    assert(s.subrange(la + 2 + lb, n) =~= c);
}

/// A method's canonical token is a clean token and parses back to it.
pub proof fn lemma_method_round(m: Method)
    ensures
        token_ok(method_text(m)),
        method_of(method_text(m)) == Some(m),
{
    reveal_strlit("GET");
    reveal_strlit("POST");
    reveal_strlit("PUT");
    reveal_strlit("DELETE");
    reveal_strlit("HEAD");
    reveal_strlit("OPTIONS");
    reveal_strlit("TRACE");
    reveal_strlit("CONNECT");
    reveal_strlit("PATCH");
    assert(lower_seq("GET"@).len() == 3);
    assert(lower_seq("POST"@).len() == 4);
    assert(lower_seq("PUT"@).len() == 3);
    assert(lower_seq("DELETE"@).len() == 6);
    assert(lower_seq("HEAD"@).len() == 4);
    assert(lower_seq("OPTIONS"@).len() == 7);
    assert(lower_seq("TRACE"@).len() == 5);
    assert(lower_seq("CONNECT"@).len() == 7);
    assert(lower_seq("PATCH"@).len() == 5);
    match m {
        Method::Get => {},
        Method::Post => {},
        Method::Put => {
            assert(lower_seq("PUT"@) != lower_seq("GET"@)) by {
                assert(lower_seq("PUT"@)[0] == 'p');
                assert(lower_seq("GET"@)[0] == 'g');
            }
        },
        Method::Delete => {},
        Method::Head => {
            assert(lower_seq("HEAD"@) != lower_seq("POST"@)) by {
                assert(lower_seq("HEAD"@)[0] == 'h');
                assert(lower_seq("POST"@)[0] == 'p');
            }
        },
        Method::Options => {},
        Method::Trace => {},
        Method::Connect => {
            assert(lower_seq("CONNECT"@) != lower_seq("OPTIONS"@)) by {
                assert(lower_seq("CONNECT"@)[0] == 'c');
                assert(lower_seq("OPTIONS"@)[0] == 'o');
            }
        },
        Method::Patch => {
            assert(lower_seq("PATCH"@) != lower_seq("TRACE"@)) by {
                assert(lower_seq("PATCH"@)[0] == 'p');
                assert(lower_seq("TRACE"@)[0] == 't');
            }
        },
    }
}

/// A version's wire token is a clean token and parses back to it.
pub proof fn lemma_version_round(v: Version)
    ensures
        token_ok(version_text(v)),
        version_of(version_text(v)) == Some(v),
{
    reveal_strlit("HTTP/1.1");
    reveal_strlit("HTTP/2.0");
    match v {
        Version::V1_1 => {},
        Version::V2_0 => {
            assert("HTTP/2.0"@ != "HTTP/1.1"@) by {
                assert("HTTP/2.0"@[5] == '2');
                assert("HTTP/1.1"@[5] == '1');
            }
        },
    }
}

/// The serialized first line is nonempty and free of line breaks.
pub proof fn lemma_request_line_clean(m: Method, path: Seq<char>, v: Version)
    requires
        token_ok(path),
    ensures
        request_line_text(m, path, v).len() > 0,
        forall|i: int| 0 <= i < request_line_text(m, path, v).len()
            ==> #[trigger] request_line_text(m, path, v)[i] != '\r'
            && request_line_text(m, path, v)[i] != '\n',
{
    lemma_method_round(m);
    lemma_version_round(v);
    let fl = request_line_text(m, path, v);
    let mt = method_text(m);
    let vt = version_text(v);
    assert forall|i: int| 0 <= i < fl.len() implies #[trigger] fl[i] != '\r' && fl[i] != '\n' by {
        if i < mt.len() {
            assert(fl[i] == mt[i]);
            assert(!is_ws(mt[i]));
        } else if i == mt.len() {
            assert(fl[i] == ' ');
        } else if i < mt.len() + 1 + path.len() {
            assert(fl[i] == path[i - mt.len() - 1]);
            assert(!is_ws(path[i - mt.len() - 1]));
        } else if i == mt.len() + 1 + path.len() {
            assert(fl[i] == ' ');
        } else {
            assert(fl[i] == vt[i - mt.len() - path.len() - 2]);
            assert(!is_ws(vt[i - mt.len() - path.len() - 2]));
        }
    }
}

/// A serialized header line is nonempty and free of line breaks.
pub proof fn lemma_header_line_clean(p: (Seq<char>, Seq<char>))
    requires
        header_pair_ok(p),
    ensures
        header_line_of(p).len() > 0,
        forall|i: int| 0 <= i < header_line_of(p).len() ==> #[trigger] header_line_of(p)[i]
            != '\r' && header_line_of(p)[i] != '\n',
{
    reveal_strlit(": ");
    let line = header_line_of(p);
    assert(": "@.len() == 2 && ": "@[0] == ':' && ": "@[1] == ' ');
    assert forall|i: int| 0 <= i < line.len() implies #[trigger] line[i] != '\r' && line[i]
        != '\n' by {
        if i < p.0.len() {
            assert(line[i] == p.0[i]);
        } else if i < p.0.len() + 2 {
            assert(line[i] == ": "@[i - p.0.len()]);
        } else {
            assert(line[i] == p.1[i - p.0.len() - 2]);
        }
    }
}

/// The body of a serialized request starts right after its first blank line.
pub proof fn lemma_request_body(
    m: Method,
    path: Seq<char>,
    v: Version,
    ps: Seq<(Seq<char>, Seq<char>)>,
    body: Seq<char>,
)
    requires
        token_ok(path),
        forall|k: int| 0 <= k < ps.len() ==> header_pair_ok(#[trigger] ps[k]),
    ensures
        body_of(request_text(m, path, v, ps, body)) == body,
{
    let fl = request_line_text(m, path, v);
    let s = request_text(m, path, v, ps, body);
    lemma_request_line_clean(m, path, v);
    assert(crlf() == seq!['\r', '\n']);
    assert(crlfcrlf() == seq!['\r', '\n', '\r', '\n']);
    let hls = ps.map_values(|p: (Seq<char>, Seq<char>)| header_line_of(p));
    let all = seq![fl] + hls;
    assert forall|k: int| 0 <= k < all.len() implies #[trigger] all[k].len() > 0 && (forall|
        i: int,
    | 0 <= i < all[k].len() ==> all[k][i] != '\r' && all[k][i] != '\n') by {
        if k == 0 {
            assert(all[0] == fl);
        } else {
            assert(header_pair_ok(ps[k - 1]));
            lemma_header_line_clean(ps[k - 1]);
            assert(all[k] == header_line_of(ps[k - 1]));
        }
    }
    assert(lines_ok(all, '\r', '\n'));
    let flat = lines_flat(all, '\r', '\n');
    assert(flat == fl + seq!['\r', '\n'] + header_lines_text(ps)) by {
        assert(all.drop_first() =~~= hls);
        assert(all[0] == fl);
        assert(flat == all[0] + seq!['\r', '\n'] + lines_flat(hls, '\r', '\n'));
    }
    assert(s =~= flat + seq!['\r', '\n'] + body);
    lemma_flat_boundary(all, '\r', '\n', body);
    assert(find_first(s, crlfcrlf()) == Some(flat.len() - 2));
    assert(flat.len() >= 2) by {
        assert(flat == all[0] + seq!['\r', '\n'] + lines_flat(all.drop_first(), '\r', '\n'));
    }
    assert(body_of(s) =~= body);
}

/// Parser round trip: a request built from a method, a clean path token, a
/// version, a well-formed header block and any body parses back to exactly
/// that method, the path with one leading slash stripped, that version, the
/// block with each entry trimmed and folded into its mapping, and that body.
pub proof fn lemma_request_round_trip(
    m: Method,
    path: Seq<char>,
    v: Version,
    ps: Seq<(Seq<char>, Seq<char>)>,
    body: Seq<char>,
)
    requires
        token_ok(path),
        forall|k: int| 0 <= k < ps.len() ==> header_pair_ok(#[trigger] ps[k]),
    ensures
        parse_request(request_text(m, path, v, ps, body)) == Some(
            RequestView {
                method: m,
                route: strip_one_slash(path),
                version: v,
                headers: seq_to_map(ps.map_values(|p: (Seq<char>, Seq<char>)| trim_pair(p))),
                body: body,
            },
        ),
{
    let fl = request_line_text(m, path, v);
    let s = request_text(m, path, v, ps, body);
    lemma_method_round(m);
    lemma_version_round(v);
    lemma_request_line_clean(m, path, v);
    assert(crlf() == seq!['\r', '\n']);
    let rr = header_lines_text(ps) + crlf() + body;
    assert(s =~= fl + crlf() + rr);
    lemma_first_line(fl, rr);
    assert(first_line(s) == fl);
    lemma_three_tokens(method_text(m), path, version_text(v));
    assert(three_tokens(first_line(s)) == Some((method_text(m), path, version_text(v))));
    lemma_first_pair(fl, '\r', '\n', rr);
    assert(find_first(s, crlf()) == Some(fl.len() as int));
    assert(s.subrange(fl.len() as int + 2, s.len() as int) =~= rr);
    lemma_header_block_round_trip(ps, body);
    let tps = ps.map_values(|p: (Seq<char>, Seq<char>)| trim_pair(p));
    assert(header_pairs(rr) == Some(tps));
    assert(headers_of(s) == Some(seq_to_map(tps)));
    lemma_request_body(m, path, v, ps, body);
}

/// UTF-8 encoding distributes over concatenation.
pub proof fn lemma_encode_concat(a: Seq<char>, b: Seq<char>)
    ensures
        encode_utf8(a + b) == encode_utf8(a) + encode_utf8(b),
    decreases a.len(),
{
    if a.len() == 0 {
        assert(a + b =~= b);
        assert(encode_utf8(a) + encode_utf8(b) =~= encode_utf8(b));
    } else {
        assert((a + b).drop_first() =~= a.drop_first() + b);
        assert((a + b)[0] == a[0]);
        lemma_encode_concat(a.drop_first(), b);
        assert(encode_utf8(a + b) =~= encode_utf8(a) + encode_utf8(b));
    }
}

/// The CRLF terminator encodes to its two bytes.
pub proof fn lemma_crlf_bytes()
    ensures
        encode_utf8(seq!['\r', '\n']) == seq![13u8, 10u8],
{
    let s = seq!['\r', '\n'];
    reveal_with_fuel(encode_utf8, 3);
    assert(s.drop_first() =~= seq!['\n']);
    assert(seq!['\n'].drop_first() =~= Seq::<char>::empty());
    assert(('\r' as u32) == 13);
    assert(('\n' as u32) == 10);
    assert((13u32 & 0x7F) == 13) by (bit_vector);
    assert((10u32 & 0x7F) == 10) by (bit_vector);
    assert(encode_scalar('\r' as u32) =~= seq![13u8]);
    assert(encode_scalar('\n' as u32) =~= seq![10u8]);
    assert(encode_utf8(s) =~= seq![13u8, 10u8]);
}

/// The encoding of any character but CR and LF is nonempty and contains
/// neither the CR byte nor the LF byte: an ASCII character keeps its value,
/// and every byte of a longer encoding has its top bit set.
pub proof fn lemma_char_bytes(c: char)
    requires
        c != '\r',
        c != '\n',
    ensures
        encode_scalar(c as u32).len() >= 1,
        forall|i: int| 0 <= i < encode_scalar(c as u32).len() ==> #[trigger] encode_scalar(
            c as u32,
        )[i] != 13u8 && encode_scalar(c as u32)[i] != 10u8,
{
    let s = c as u32;
    let e = encode_scalar(s);
    assert(forall|m: u8, b: u8| m >= 0x80 ==> #[trigger] (m | b) >= 0x80) by (bit_vector);
    if has_width_1_encoding(s) {
        assert(s <= 0x7F ==> (s & 0x7F) == s) by (bit_vector);
        assert(e =~= seq![(s & 0x7F) as u8]);
        assert forall|i: int| 0 <= i < e.len() implies e[i] != 13u8 && e[i] != 10u8 by {
            if e[i] == 13u8 {
                assert(s == 13);
                assert(c == '\r');
            }
            if e[i] == 10u8 {
                assert(s == 10);
                assert(c == '\n');
            }
        }
    } else if has_width_2_encoding(s) {
        assert(e =~= seq![leading_byte_width_2(s), last_continuation_byte(s)]);
        assert(leading_byte_width_2(s) >= 0x80);
        assert(last_continuation_byte(s) >= 0x80);
    } else if has_width_3_encoding(s) {
        assert(e =~= seq![
            leading_byte_width_3(s),
            second_last_continuation_byte(s),
            last_continuation_byte(s),
        ]);
        assert(leading_byte_width_3(s) >= 0x80);
        assert(second_last_continuation_byte(s) >= 0x80);
        assert(last_continuation_byte(s) >= 0x80);
    } else {
        assert(e =~= seq![
            leading_byte_width_4(s),
            third_last_continuation_byte(s),
            second_last_continuation_byte(s),
            last_continuation_byte(s),
        ]);
        assert(leading_byte_width_4(s) >= 0x80);
        assert(third_last_continuation_byte(s) >= 0x80);
        assert(second_last_continuation_byte(s) >= 0x80);
        assert(last_continuation_byte(s) >= 0x80);
    }
}

/// The encoding of a line free of CR and LF is nonempty when the line is,
/// and contains neither the CR byte nor the LF byte.
pub proof fn lemma_line_bytes(line: Seq<char>)
    requires
        forall|i: int| 0 <= i < line.len() ==> line[i] != '\r' && line[i] != '\n',
    ensures
        line.len() > 0 ==> encode_utf8(line).len() > 0,
        forall|i: int| 0 <= i < encode_utf8(line).len() ==> encode_utf8(line)[i] != 13u8
            && encode_utf8(line)[i] != 10u8,
    decreases line.len(),
{
    if line.len() > 0 {
        lemma_char_bytes(line[0]);
        assert forall|i: int| 0 <= i < line.drop_first().len() implies line.drop_first()[i]
            != '\r' && line.drop_first()[i] != '\n' by {
            assert(line.drop_first()[i] == line[i + 1]);
        }
        lemma_line_bytes(line.drop_first());
        let es0 = encode_scalar(line[0] as u32);
        let rest = encode_utf8(line.drop_first());
        assert(encode_utf8(line) == es0 + rest);
        assert forall|i: int| 0 <= i < encode_utf8(line).len() implies encode_utf8(line)[i]
            != 13u8 && encode_utf8(line)[i] != 10u8 by {
            if i < es0.len() {
                assert(encode_utf8(line)[i] == es0[i]);
            } else {
                assert(encode_utf8(line)[i] == rest[i - es0.len()]);
            }
        }
    }
}

/// Encoding a flattening encodes it line by line.
pub proof fn lemma_flat_encode(lines: Seq<Seq<char>>)
    ensures
        encode_utf8(lines_flat(lines, '\r', '\n')) == lines_flat(
            lines.map_values(|l: Seq<char>| encode_utf8(l)),
            13u8,
            10u8,
        ),
    decreases lines.len(),
{
    let bl = lines.map_values(|l: Seq<char>| encode_utf8(l));
    if lines.len() == 0 {
        assert(encode_utf8(lines_flat(lines, '\r', '\n')) =~= lines_flat(bl, 13u8, 10u8));
    } else {
        lemma_flat_encode(lines.drop_first());
        assert(lines.drop_first().map_values(|l: Seq<char>| encode_utf8(l)) =~~= bl.drop_first());
        lemma_encode_concat(
            lines[0] + seq!['\r', '\n'],
            lines_flat(lines.drop_first(), '\r', '\n'),
        );
        lemma_encode_concat(lines[0], seq!['\r', '\n']);
        lemma_crlf_bytes();
        assert(bl[0] == encode_utf8(lines[0]));
        assert(lines_flat(lines, '\r', '\n') == lines[0] + seq!['\r', '\n'] + lines_flat(
            lines.drop_first(),
            '\r',
            '\n',
        ));
        assert(encode_utf8(lines_flat(lines, '\r', '\n')) =~= lines_flat(bl, 13u8, 10u8));
    }
}

} // verus!
