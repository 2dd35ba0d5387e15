//! Path resolution and traversal safety: percent-decoding of request paths,
//! joining onto the served root, and classifying canonicalized paths as safe
//! or unsafe relative to the canonical root.

use vstd::prelude::*;
use vstd::string::*;
use crate::text::{
    path_within, check_path_within, strip_all_slashes, strip_leading_slashes,
};

verus! {

/// What the outside percent-decoder returns for a text.
pub uninterp spec fn url_decoded(s: Seq<char>) -> Seq<char>;

/// Relies on `url_escape::decode`: percent-decodes a text, a pure function of
/// its characters; a text with no percent sign passes through unchanged.
#[verifier::external_body]
pub(crate) fn decode_text(s: &str) -> (r: String)
    ensures
        r@ == url_decoded(s@),
        (forall|i: int| 0 <= i < s@.len() ==> s@[i] != '%') ==> r@ == s@,
{
    url_escape::decode(s).into_owned()
}

/// A decoded route joined under a root directory with a single separator.
pub open spec fn joined_path(root: Seq<char>, rel: Seq<char>) -> Seq<char> {
    if root.len() == 0 {
        rel
    } else if root[root.len() - 1] == '/' {
        root + rel
    } else {
        root + seq!['/'] + rel
    }
}

/// Exec mirror of [`joined_path`].
pub fn join_under_root(root: &str, rel: &str) -> (r: String)
    ensures
        r@ == joined_path(root@, rel@),
{
    let n = root.unicode_len();
    if n == 0 {
        return rel.to_owned();
    }
    let mut out = root.to_owned();
    if root.get_char(n - 1) != '/' {
        out.append("/");
        proof {
            reveal_strlit("/");
            assert(out@ =~= root@ + seq!['/']);
        }
    }
    out.append(rel);
    proof {
        if root@[n - 1] != '/' {
            assert(out@ =~= root@ + seq!['/'] + rel@);
        }
    }
    out
}

/// The filesystem path a request route addresses under a root: the route is
/// percent-decoded, stripped of leading slashes, and joined under the root.
pub fn resolve_request_path(root: &str, route: &str) -> (r: String)
    ensures
        r@ == joined_path(root@, strip_all_slashes(url_decoded(route@))),
{
    let decoded = decode_text(route);
    let rel = strip_leading_slashes(decoded.as_str());
    join_under_root(root, rel.as_str())
}

/// How a requested path classifies against the served root.
#[derive(Clone, Copy, Debug, PartialEq, Eq, Structural)]
pub enum PathSafety {
    Safe,
    Unsafe,
    ResolutionError,
}

/// What the filesystem reported about a requested path, as plain values: the
/// canonical form of the path when it exists, of its parent when it does not,
/// or the ways canonicalization can fail.
#[derive(Debug)]
pub enum FsResolution {
    Resolved { canonical: String },
    MissingWithParent { parent_canonical: String },
    NoParent,
    Failure,
}

/// The classification rule: an existing path must canonicalize under the
/// canonical root; a missing path's parent must; a path with no parent is
/// unsafe; a canonicalization failure is a resolution error.
pub open spec fn safety_of(root_canonical: Seq<char>, res: FsResolution) -> PathSafety {
    match res {
        FsResolution::Resolved { canonical } => if path_within(canonical@, root_canonical) {
            PathSafety::Safe
        } else {
            PathSafety::Unsafe
        },
        FsResolution::MissingWithParent { parent_canonical } => if path_within(
            parent_canonical@,
            root_canonical,
        ) {
            PathSafety::Safe
        } else {
            PathSafety::Unsafe
        },
        FsResolution::NoParent => PathSafety::Unsafe,
        FsResolution::Failure => PathSafety::ResolutionError,
    }
}

/// Classifies a requested path, matching [`safety_of`] exactly.
pub fn is_safe_path(root_canonical: &str, res: &FsResolution) -> (r: PathSafety)
    ensures
        r == safety_of(root_canonical@, *res),
{
    match res {
        FsResolution::Resolved { canonical } => {
            if check_path_within(canonical.as_str(), root_canonical) {
                PathSafety::Safe
            } else {
                PathSafety::Unsafe
            }
        },
        FsResolution::MissingWithParent { parent_canonical } => {
            if check_path_within(parent_canonical.as_str(), root_canonical) {
                PathSafety::Safe
            } else {
                PathSafety::Unsafe
            }
        },
        FsResolution::NoParent => PathSafety::Unsafe,
        FsResolution::Failure => PathSafety::ResolutionError,
    }
}

/// The index of the last occurrence of `c` in `s`, if any.
pub open spec fn last_idx(s: Seq<char>, c: char) -> Option<int>
    decreases s.len(),
{
    if s.len() == 0 {
        None
    } else if s.last() == c {
        Some(s.len() - 1)
    } else {
        last_idx(s.drop_last(), c)
    }
}

/// Exec mirror of [`last_idx`].
pub fn last_index_of(s: &str, c: char) -> (r: Option<usize>)
    ensures
        match r {
            Some(i) => last_idx(s@, c) == Some(i as int),
            None => last_idx(s@, c) is None,
        },
{
    let n = s.unicode_len();
    let mut b = n;
    proof {
        assert(s@.subrange(0, n as int) =~= s@);
    }
    while b > 0
        invariant
            b <= n,
            n == s@.len(),
            last_idx(s@, c) == last_idx(s@.subrange(0, b as int), c),
        decreases b,
    {
        proof {
            let t = s@.subrange(0, b as int);
            assert(t.last() == s@[b - 1]);
            assert(t.drop_last() =~= s@.subrange(0, b - 1));
        }
        if s.get_char(b - 1) == c {
            return Some(b - 1);
        }
        b -= 1;
    }
    proof {
        assert(s@.subrange(0, 0int) =~= Seq::<char>::empty());
    }
    None
}

/// A last occurrence lies within the sequence and carries the character.
pub proof fn lemma_last_idx_bounds(s: Seq<char>, c: char)
    requires
        last_idx(s, c) is Some,
    ensures
        0 <= last_idx(s, c).unwrap() < s.len(),
        s[last_idx(s, c).unwrap()] == c,
    decreases s.len(),
{
    if s.len() > 0 && s.last() != c {
        lemma_last_idx_bounds(s.drop_last(), c);
        assert(s.drop_last()[last_idx(s, c).unwrap()] == s[last_idx(s, c).unwrap()]);
    }
}

/// The parent of a path: the text before the final slash; the root `/` keeps
/// its slash, a slashless path has the empty parent, and `/` itself and the
/// empty path have none.
pub open spec fn parent_path(p: Seq<char>) -> Option<Seq<char>> {
    if p.len() == 0 || p == seq!['/'] {
        None
    } else {
        match last_idx(p, '/') {
            None => Some(Seq::empty()),
            Some(i) => if i == 0 {
                Some(seq!['/'])
            } else {
                Some(p.subrange(0, i))
            },
        }
    }
}

/// Exec mirror of [`parent_path`].
pub fn parent_of(p: &str) -> (r: Option<String>)
    ensures
        match r {
            Some(q) => parent_path(p@) == Some(q@),
            None => parent_path(p@) is None,
        },
{
    let n = p.unicode_len();
    if n == 0 {
        return None;
    }
    proof {
        reveal_strlit("/");
    }
    if n == 1 && p.get_char(0) == '/' {
        proof {
            assert(p@ =~= seq!['/']);
        }
        return None;
    }
    proof {
        if p@ == seq!['/'] {
            assert(p@[0] == '/');
        }
    }
    match last_index_of(p, '/') {
        None => Some(String::new()),
        Some(i) => {
            if i == 0 {
                proof {
                    assert("/"@ =~= seq!['/']);
                }
                Some(String::from_str("/"))
            } else {
                proof {
                    lemma_last_idx_bounds(p@, '/');
                }
                Some(p.substring_char(0, i).to_owned())
            }
        },
    }
}

} // verus!
