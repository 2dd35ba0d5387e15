//! Verified text utilities: substring search, whitespace scanning, trimming,
//! tokenization, case folding and decimal rendering, each exec function exact
//! against a spec-level definition over `Seq<char>`.

use vstd::prelude::*;
use vstd::string::*;

verus! {

/// The whitespace characters recognized by the tokenizer and by header
/// trimming: the Unicode white-space set.
pub open spec fn is_ws(c: char) -> bool {
    c == ' ' || ('\t' <= c && c <= '\r') || c == '\u{85}' || c == '\u{a0}' || c == '\u{1680}'
        || ('\u{2000}' <= c && c <= '\u{200a}') || c == '\u{2028}' || c == '\u{2029}'
        || c == '\u{202f}' || c == '\u{205f}' || c == '\u{3000}'
}

/// Exec mirror of [`is_ws`].
pub fn ws_char(c: char) -> (r: bool)
    ensures
        r == is_ws(c),
{
    c == ' ' || ('\t' <= c && c <= '\r') || c == '\u{85}' || c == '\u{a0}' || c == '\u{1680}'
        || ('\u{2000}' <= c && c <= '\u{200a}') || c == '\u{2028}' || c == '\u{2029}'
        || c == '\u{202f}' || c == '\u{205f}' || c == '\u{3000}'
}

/// The pattern `p` occurs in `s` starting at index `i`.
pub open spec fn occurs_at<T>(s: Seq<T>, p: Seq<T>, i: int) -> bool {
    0 <= i && i + p.len() <= s.len() && s.subrange(i, i + p.len() as int) == p
}

/// Index of the first occurrence of `p` in `s` at or after `i`, if any.
pub open spec fn find_from<T>(s: Seq<T>, p: Seq<T>, i: int) -> Option<int>
    decreases s.len() - i + 1,
{
    if i < 0 || i > s.len() || i + p.len() > s.len() {
        None
    } else if s.subrange(i, i + p.len() as int) == p {
        Some(i)
    } else {
        find_from(s, p, i + 1)
    }
}

/// Index of the first occurrence of `p` in `s`, if any.
pub open spec fn find_first<T>(s: Seq<T>, p: Seq<T>) -> Option<int> {
    find_from(s, p, 0)
}

/// `find_from` returns the least occurrence at or after `i`, or rules all out.
pub proof fn lemma_find_from<T>(s: Seq<T>, p: Seq<T>, i: int)
    requires
        0 <= i,
    ensures
        match find_from(s, p, i) {
            Some(j) => i <= j && occurs_at(s, p, j) && (forall|k: int|
                i <= k < j ==> !occurs_at(s, p, k)),
            None => forall|k: int| i <= k ==> !occurs_at(s, p, k),
        },
    decreases s.len() - i + 1,
{
    if i > s.len() || i + p.len() > s.len() {
        assert forall|k: int| i <= k implies !occurs_at(s, p, k) by {
            assert(k + p.len() > s.len());
        }
    } else if s.subrange(i, i + p.len() as int) == p {
    } else {
        lemma_find_from(s, p, i + 1);
        assert(!occurs_at(s, p, i));
    }
}

/// If `p` occurs at `j` and nowhere earlier, the first occurrence is `j`.
pub proof fn lemma_find_first_at<T>(s: Seq<T>, p: Seq<T>, j: int)
    requires
        occurs_at(s, p, j),
        forall|k: int| 0 <= k < j ==> !occurs_at(s, p, k),
    ensures
        find_first(s, p) == Some(j),
{
    lemma_find_from(s, p, 0);
    match find_first(s, p) {
        Some(j2) => {
            if j2 < j {
                assert(!occurs_at(s, p, j2));
            } else if j < j2 {
                assert(!occurs_at(s, p, j));
            }
        },
        None => {
            assert(!occurs_at(s, p, j));
        },
    }
}

/// Whether `p` occurs in `s` exactly at `i`, checked character by character.
pub fn match_at(s: &str, p: &str, i: usize) -> (r: bool)
    requires
        i + p@.len() <= s@.len(),
    ensures
        r == occurs_at(s@, p@, i as int),
{
    let n = s.unicode_len();
    let m = p.unicode_len();
    assert(i + m <= n);
    let mut t: usize = 0;
    while t < m
        invariant
            t <= m,
            m == p@.len(),
            n == s@.len(),
            i + m <= n,
            forall|u: int| 0 <= u < t ==> s@[i + u] == p@[u],
        decreases m - t,
    {
        if s.get_char(i + t) != p.get_char(t) {
            assert(!occurs_at(s@, p@, i as int)) by {
                if s@.subrange(i as int, i + m) == p@ {
                    assert(s@.subrange(i as int, i + m)[t as int] == s@[i + t]);
                }
            }
            return false;
        }
        t += 1;
    }
    assert(s@.subrange(i as int, i + m) =~= p@);
    true
}

/// First occurrence of `p` within `s`, by index in characters.
pub fn find_substr(s: &str, p: &str) -> (r: Option<usize>)
    ensures
        match r {
            Some(j) => find_first(s@, p@) == Some(j as int),
            None => find_first(s@, p@) is None,
        },
{
    let n = s.unicode_len();
    let m = p.unicode_len();
    if m > n {
        proof {
            lemma_find_from(s@, p@, 0);
            if let Some(j) = find_first(s@, p@) {
                assert(occurs_at(s@, p@, j));
            }
        }
        return None;
    }
    if m == 0 {
        proof {
            assert(s@.subrange(0, 0) =~= p@);
            lemma_find_first_at(s@, p@, 0);
        }
        return Some(0);
    }
    let mut i: usize = 0;
    while n - i >= m
        invariant
            1 <= m <= n,
            i <= n,
            n == s@.len(),
            m == p@.len(),
            forall|k: int| 0 <= k < i ==> !occurs_at(s@, p@, k),
        decreases n - i,
    {
        if match_at(s, p, i) {
            proof {
                lemma_find_first_at(s@, p@, i as int);
            }
            return Some(i);
        }
        i += 1;
    }
    proof {
        lemma_find_from(s@, p@, 0);
        if let Some(j) = find_first(s@, p@) {
            assert(occurs_at(s@, p@, j));
            assert(j + m <= n);
        }
    }
    None
}

/// Index of the first non-whitespace character at or after `i` (or the length).
pub open spec fn skip_ws_idx(s: Seq<char>, i: int) -> int
    decreases s.len() - i,
{
    if i < 0 || i >= s.len() {
        s.len() as int
    } else if is_ws(s[i]) {
        skip_ws_idx(s, i + 1)
    } else {
        i
    }
}

/// Index of the first whitespace character at or after `i` (or the length).
pub open spec fn token_end_idx(s: Seq<char>, i: int) -> int
    decreases s.len() - i,
{
    if i < 0 || i >= s.len() {
        s.len() as int
    } else if !is_ws(s[i]) {
        token_end_idx(s, i + 1)
    } else {
        i
    }
}

/// Exec scan matching [`skip_ws_idx`].
pub fn skip_ws_from(s: &str, start: usize) -> (r: usize)
    requires
        start <= s@.len(),
    ensures
        r as int == skip_ws_idx(s@, start as int),
        start <= r <= s@.len(),
{
    let n = s.unicode_len();
    let mut i = start;
    while i < n && ws_char(s.get_char(i))
        invariant
            start <= i <= n,
            n == s@.len(),
            skip_ws_idx(s@, start as int) == skip_ws_idx(s@, i as int),
        decreases n - i,
    {
        i += 1;
    }
    proof {
        lemma_skip_ws_bounds(s@, start as int);
    }
    i
}

/// `skip_ws_idx` stays within bounds.
pub proof fn lemma_skip_ws_bounds(s: Seq<char>, i: int)
    requires
        0 <= i <= s.len(),
    ensures
        i <= skip_ws_idx(s, i) <= s.len(),
    decreases s.len() - i,
{
    if i < s.len() && is_ws(s[i]) {
        lemma_skip_ws_bounds(s, i + 1);
    }
}

/// `token_end_idx` stays within bounds.
pub proof fn lemma_token_end_bounds(s: Seq<char>, i: int)
    requires
        0 <= i <= s.len(),
    ensures
        i <= token_end_idx(s, i) <= s.len(),
    decreases s.len() - i,
{
    if i < s.len() && !is_ws(s[i]) {
        lemma_token_end_bounds(s, i + 1);
    }
}

/// Exec scan matching [`token_end_idx`].
pub fn token_end_from(s: &str, start: usize) -> (r: usize)
    requires
        start <= s@.len(),
    ensures
        r as int == token_end_idx(s@, start as int),
        start <= r <= s@.len(),
{
    let n = s.unicode_len();
    let mut i = start;
    while i < n && !ws_char(s.get_char(i))
        invariant
            start <= i <= n,
            n == s@.len(),
            token_end_idx(s@, start as int) == token_end_idx(s@, i as int),
        decreases n - i,
    {
        i += 1;
    }
    proof {
        lemma_token_end_bounds(s@, start as int);
    }
    i
}

/// End of the whitespace-trimmed region working backward from `i`.
pub open spec fn trim_end_idx(s: Seq<char>, i: int) -> int
    decreases i,
{
    if i <= 0 || i > s.len() {
        0
    } else if is_ws(s[i - 1]) {
        trim_end_idx(s, i - 1)
    } else {
        i
    }
}

/// `trim_end_idx` stays within bounds.
pub proof fn lemma_trim_end_bounds(s: Seq<char>, i: int)
    requires
        0 <= i <= s.len(),
    ensures
        0 <= trim_end_idx(s, i) <= i,
    decreases i,
{
    if i > 0 && is_ws(s[i - 1]) {
        lemma_trim_end_bounds(s, i - 1);
    }
}

/// `s` with leading and trailing whitespace removed.
pub open spec fn trimmed(s: Seq<char>) -> Seq<char> {
    let a = skip_ws_idx(s, 0);
    let b = trim_end_idx(s, s.len() as int);
    if a <= b {
        s.subrange(a, b)
    } else {
        Seq::empty()
    }
}

/// Exec trim matching [`trimmed`].
pub fn trim_str(s: &str) -> (r: String)
    ensures
        r@ == trimmed(s@),
{
    let n = s.unicode_len();
    let a = skip_ws_from(s, 0);
    let mut b = n;
    while b > 0 && ws_char(s.get_char(b - 1))
        invariant
            b <= n,
            n == s@.len(),
            trim_end_idx(s@, n as int) == trim_end_idx(s@, b as int),
        decreases b,
    {
        b -= 1;
    }
    if a <= b {
        s.substring_char(a, b).to_owned()
    } else {
        String::new()
    }
}

/// The three whitespace-separated tokens of `s`, when there are exactly three.
pub open spec fn three_tokens(s: Seq<char>) -> Option<(Seq<char>, Seq<char>, Seq<char>)> {
    let a0 = skip_ws_idx(s, 0);
    let a1 = token_end_idx(s, a0);
    let b0 = skip_ws_idx(s, a1);
    let b1 = token_end_idx(s, b0);
    let c0 = skip_ws_idx(s, b1);
    let c1 = token_end_idx(s, c0);
    if a0 < a1 && b0 < b1 && c0 < c1 && skip_ws_idx(s, c1) == s.len() {
        Some((s.subrange(a0, a1), s.subrange(b0, b1), s.subrange(c0, c1)))
    } else {
        None
    }
}

/// Exec tokenizer matching [`three_tokens`].
pub fn split_three_tokens(s: &str) -> (r: Option<(String, String, String)>)
    ensures
        match r {
            Some(t) => three_tokens(s@) == Some((t.0@, t.1@, t.2@)),
            None => three_tokens(s@) is None,
        },
{
    let n = s.unicode_len();
    let a0 = skip_ws_from(s, 0);
    let a1 = token_end_from(s, a0);
    let b0 = skip_ws_from(s, a1);
    let b1 = token_end_from(s, b0);
    let c0 = skip_ws_from(s, b1);
    let c1 = token_end_from(s, c0);
    let d = skip_ws_from(s, c1);
    if a0 < a1 && b0 < b1 && c0 < c1 && d == n {
        Some((
            s.substring_char(a0, a1).to_owned(),
            s.substring_char(b0, b1).to_owned(),
            s.substring_char(c0, c1).to_owned(),
        ))
    } else {
        None
    }
}

/// `s` with exactly one leading slash removed, when one is present.
pub open spec fn strip_one_slash(s: Seq<char>) -> Seq<char> {
    if s.len() > 0 && s[0] == '/' {
        s.subrange(1, s.len() as int)
    } else {
        s
    }
}

/// Exec mirror of [`strip_one_slash`].
pub fn strip_leading_slash(s: &str) -> (r: String)
    ensures
        r@ == strip_one_slash(s@),
{
    let n = s.unicode_len();
    if n > 0 && s.get_char(0) == '/' {
        s.substring_char(1, n).to_owned()
    } else {
        s.to_owned()
    }
}

/// `s` with every leading slash removed.
pub open spec fn strip_all_slashes(s: Seq<char>) -> Seq<char>
    decreases s.len(),
{
    if s.len() > 0 && s[0] == '/' {
        strip_all_slashes(s.subrange(1, s.len() as int))
    } else {
        s
    }
}

/// Exec mirror of [`strip_all_slashes`].
pub fn strip_leading_slashes(s: &str) -> (r: String)
    ensures
        r@ == strip_all_slashes(s@),
{
    let n = s.unicode_len();
    let mut i: usize = 0;
    proof {
        assert(s@.subrange(0, n as int) =~= s@);
    }
    while i < n && s.get_char(i) == '/'
        invariant
            i <= n,
            n == s@.len(),
            strip_all_slashes(s@) == strip_all_slashes(s@.subrange(i as int, n as int)),
        decreases n - i,
    {
        proof {
            let t = s@.subrange(i as int, n as int);
            assert(t.subrange(1, t.len() as int) =~= s@.subrange(i + 1, n as int));
        }
        i += 1;
    }
    proof {
        let t = s@.subrange(i as int, n as int);
        if i < n {
            assert(t[0] == s@[i as int]);
        }
        assert(strip_all_slashes(t) == t);
    }
    s.substring_char(i, n).to_owned()
}

/// Lowercases an ASCII letter; leaves every other character unchanged.
pub open spec fn lower_char(c: char) -> char {
    if 'A' <= c && c <= 'Z' {
        (((c as u8) + 32) as char)
    } else {
        c
    }
}

/// `s` with each character lowercased by [`lower_char`].
pub open spec fn lower_seq(s: Seq<char>) -> Seq<char> {
    s.map_values(|c: char| lower_char(c))
}

/// Exec mirror of [`lower_char`].
pub fn lower_char_exec(c: char) -> (r: char)
    ensures
        r == lower_char(c),
{
    if 'A' <= c && c <= 'Z' {
        ((c as u8) + 32) as char
    } else {
        c
    }
}

/// Relies on std's `String::push`: appends exactly the given character.
#[verifier::external_body]
fn push_char(s: &mut String, c: char)
    ensures
        final(s)@ == old(s)@.push(c),
{
    s.push(c);
}

/// ASCII-lowercases a string, character by character.
pub fn to_lower_string(s: &str) -> (r: String)
    ensures
        r@ == lower_seq(s@),
{
    let n = s.unicode_len();
    let mut out = String::new();
    let mut i: usize = 0;
    while i < n
        invariant
            i <= n,
            n == s@.len(),
            out@ =~= lower_seq(s@).subrange(0, i as int),
        decreases n - i,
    {
        push_char(&mut out, lower_char_exec(s.get_char(i)));
        i += 1;
        assert(out@ =~= lower_seq(s@).subrange(0, i as int));
    }
    assert(lower_seq(s@).subrange(0, n as int) =~= lower_seq(s@));
    out
}

/// Whether two strings are equal after ASCII case folding.
pub fn eq_ignore_case(a: &str, b: &str) -> (r: bool)
    ensures
        r == (lower_seq(a@) == lower_seq(b@)),
{
    let n = a.unicode_len();
    let m = b.unicode_len();
    if n != m {
        assert(lower_seq(a@).len() != lower_seq(b@).len());
        return false;
    }
    let mut i: usize = 0;
    while i < n
        invariant
            i <= n,
            n == a@.len(),
            n == b@.len(),
            forall|k: int| 0 <= k < i ==> lower_seq(a@)[k] == lower_seq(b@)[k],
        decreases n - i,
    {
        if lower_char_exec(a.get_char(i)) != lower_char_exec(b.get_char(i)) {
            assert(lower_seq(a@)[i as int] != lower_seq(b@)[i as int]);
            return false;
        }
        i += 1;
    }
    assert(lower_seq(a@) =~= lower_seq(b@));
    true
}

/// Whether two strings hold the same characters.
pub fn str_equal(a: &str, b: &str) -> (r: bool)
    ensures
        r == (a@ == b@),
{
    let n = a.unicode_len();
    let m = b.unicode_len();
    if n != m {
        return false;
    }
    let mut i: usize = 0;
    while i < n
        invariant
            i <= n,
            n == a@.len(),
            n == b@.len(),
            forall|k: int| 0 <= k < i ==> a@[k] == b@[k],
        decreases n - i,
    {
        if a.get_char(i) != b.get_char(i) {
            return false;
        }
        i += 1;
    }
    assert(a@ =~= b@);
    true
}

/// The digit character for a value below ten.
pub open spec fn dec_digit(d: int) -> char {
    if d == 0 { '0' }
    else if d == 1 { '1' }
    else if d == 2 { '2' }
    else if d == 3 { '3' }
    else if d == 4 { '4' }
    else if d == 5 { '5' }
    else if d == 6 { '6' }
    else if d == 7 { '7' }
    else if d == 8 { '8' }
    else { '9' }
}

/// The decimal rendering of `n`, most significant digit first.
pub open spec fn dec_str(n: nat) -> Seq<char>
    decreases n,
{
    if n < 10 {
        seq![dec_digit(n as int)]
    } else {
        dec_str(n / 10) + seq![dec_digit((n % 10) as int)]
    }
}

/// Appends the digit character for `d` to `out`.
fn push_digit(out: &mut String, d: usize)
    requires
        d < 10,
    ensures
        final(out)@ == old(out)@ + seq![dec_digit(d as int)],
{
    proof {
        reveal_strlit("0");
        reveal_strlit("1");
        reveal_strlit("2");
        reveal_strlit("3");
        reveal_strlit("4");
        reveal_strlit("5");
        reveal_strlit("6");
        reveal_strlit("7");
        reveal_strlit("8");
        reveal_strlit("9");
    }
    let ghost prev = out@;
    if d == 0 { out.append("0"); }
    else if d == 1 { out.append("1"); }
    else if d == 2 { out.append("2"); }
    else if d == 3 { out.append("3"); }
    else if d == 4 { out.append("4"); }
    else if d == 5 { out.append("5"); }
    else if d == 6 { out.append("6"); }
    else if d == 7 { out.append("7"); }
    else if d == 8 { out.append("8"); }
    else { out.append("9"); }
    assert(out@ =~= prev + seq![dec_digit(d as int)]);
}

/// Renders `n` in decimal, matching [`dec_str`].
pub fn usize_to_string(n: usize) -> (r: String)
    ensures
        r@ == dec_str(n as nat),
    decreases n,
{
    if n < 10 {
        let mut out = String::new();
        push_digit(&mut out, n);
        assert(out@ =~= dec_str(n as nat));
        out
    } else {
        let mut out = usize_to_string(n / 10);
        push_digit(&mut out, n % 10);
        out
    }
}

/// A canonical path `child` lies at or under the canonical path `root`.
pub open spec fn path_within(child: Seq<char>, root: Seq<char>) -> bool {
    child == root || (child.len() > root.len() && child.subrange(0, root.len() as int) == root
        && (root.len() > 0 && root[root.len() - 1] == '/' || (root.len() < child.len()
        && child[root.len() as int] == '/')))
}

/// Exec mirror of [`path_within`].
pub fn check_path_within(child: &str, root: &str) -> (r: bool)
    ensures
        r == path_within(child@, root@),
{
    let n = child.unicode_len();
    let m = root.unicode_len();
    if str_equal(child, root) {
        return true;
    }
    if n <= m {
        return false;
    }
    let mut i: usize = 0;
    while i < m
        invariant
            i <= m,
            m == root@.len(),
            n == child@.len(),
            m < n,
            forall|k: int| 0 <= k < i ==> child@[k] == root@[k],
        decreases m - i,
    {
        if child.get_char(i) != root.get_char(i) {
            assert(child@.subrange(0, m as int)[i as int] != root@[i as int]);
            return false;
        }
        i += 1;
    }
    assert(child@.subrange(0, m as int) =~= root@);
    if m > 0 && root.get_char(m - 1) == '/' {
        return true;
    }
    child.get_char(m) == '/'
}

} // verus!
