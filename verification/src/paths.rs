//! Paths held as text (Unix paths), the queries on them that std's `Path`
//! answers, and the joining and checking rules of this project.
use vstd::prelude::*;
use crate::text::{char_at, char_len, contains_double_dot, has_double_dot};

verus! {

/// What `Path::new(p).strip_prefix(base)` gives (the rest as text), for `p != base`.
pub uninterp spec fn path_strip(p: Seq<char>, base: Seq<char>) -> Option<Seq<char>>;

/// The last piece of `p`: what follows its last `/`, or all of `p` where it has none.
pub open spec fn tail_piece(p: Seq<char>) -> Seq<char>
    decreases p.len(),
{
    if p.len() == 0 || p.last() == '/' {
        Seq::empty()
    } else {
        tail_piece(p.drop_last()).push(p.last())
    }
}

/// The last piece of `p` ends `p`, holds no `/`, and follows a `/` where it is not all of `p`.
pub proof fn lemma_tail_piece(p: Seq<char>)
    ensures
        tail_piece(p).len() <= p.len(),
        tail_piece(p) =~= p.subrange(p.len() - tail_piece(p).len(), p.len() as int),
        !tail_piece(p).contains('/'),
        tail_piece(p).len() < p.len() ==> p[p.len() - tail_piece(p).len() - 1] == '/',
    decreases p.len(),
{
    if p.len() > 0 && p.last() != '/' {
        let q = p.drop_last();
        lemma_tail_piece(q);
        let t = tail_piece(q);
        assert forall|i: int| 0 <= i < t.len() + 1 implies #[trigger] t.push(p.last())[i] != '/' by {
            if i < t.len() {
                assert(t[i] == q.subrange(q.len() - t.len(), q.len() as int)[i]);
            }
        }
        if t.len() < q.len() {
            assert(p[p.len() - tail_piece(p).len() - 1] == q[q.len() - t.len() - 1]);
        }
    }
}

/// One component of a Unix path, as `Path::components` yields it.
pub enum PathPart {
    /// The root, `/` at the start.
    Root,
    /// A `.` at the start of a relative path.
    Here,
    /// `..`.
    Up,
    /// Any other component.
    Name(Seq<char>),
}

/// The components of `p` that follow its pieces between `/`s, in order:
/// empty pieces and `.` are passed over.
pub open spec fn body_parts(p: Seq<char>) -> Seq<PathPart>
    decreases p.len(),
{
    let piece = tail_piece(p);
    let before = if piece.len() < p.len() {
        proof {
            lemma_tail_piece(p);
        }
        body_parts(p.subrange(0, p.len() - piece.len() - 1))
    } else {
        Seq::empty()
    };
    if piece.len() == 0 || piece == seq!['.'] {
        before
    } else if piece == seq!['.', '.'] {
        before.push(PathPart::Up)
    } else {
        before.push(PathPart::Name(piece))
    }
}

/// The components of the Unix path `p`, as std documents `Path::components`:
/// a leading `/` is the root, a leading `.` of a relative path is kept, and
/// otherwise repeated separators, a trailing separator and `.` are
/// normalized away; `..` is kept as it is.
pub open spec fn path_parts(p: Seq<char>) -> Seq<PathPart> {
    if is_absolute(p) {
        seq![PathPart::Root] + body_parts(p)
    } else if p.len() > 0 && p[0] == '.' && (p.len() == 1 || p[1] == '/') {
        seq![PathPart::Here] + body_parts(p)
    } else {
        body_parts(p)
    }
}

/// `Path::new(a) == Path::new(b)`: the two paths have the same components.
pub open spec fn path_eq(a: Seq<char>, b: Seq<char>) -> bool {
    path_parts(a) == path_parts(b)
}

/// `Path::new(p).starts_with(base)`: the components of `base` are the first
/// components of `p`; only whole components match.
pub open spec fn path_prefix(p: Seq<char>, base: Seq<char>) -> bool {
    path_parts(base).len() <= path_parts(p).len() && path_parts(p).subrange(
        0,
        path_parts(base).len() as int,
    ) == path_parts(base)
}

/// A plain file name: not empty, without `/`, and neither `.` nor `..`.
pub open spec fn plain_name(n: Seq<char>) -> bool {
    n.len() > 0 && !n.contains('/') && n != seq!['.'] && n != seq!['.', '.']
}

/// What `Path::new(p).file_name()` gives on Unix, as text: the final component
/// of `p`. Separators at the end and `.` components are passed over (std's
/// `foo.txt/.//` has the name `foo.txt`); a path that ends in `..`, or has no
/// component but the root or a leading `.`, has none.
pub open spec fn path_file_name(p: Seq<char>) -> Option<Seq<char>>
    decreases p.len(),
{
    let piece = tail_piece(p);
    if piece.len() == 0 || piece == seq!['.'] {
        if piece.len() >= p.len() {
            None
        } else {
            proof {
                lemma_tail_piece(p);
            }
            path_file_name(p.subrange(0, p.len() - piece.len() - 1))
        }
    } else if piece == seq!['.', '.'] {
        None
    } else {
        Some(piece)
    }
}

/// A file name is always a plain name: one non-empty component, without `/`,
/// and neither `.` nor `..`.
pub proof fn law_file_name_is_plain(p: Seq<char>)
    ensures
        path_file_name(p) matches Some(n) ==> plain_name(n),
    decreases p.len(),
{
    lemma_tail_piece(p);
    let piece = tail_piece(p);
    if piece.len() == 0 || piece == seq!['.'] {
        if piece.len() < p.len() {
            law_file_name_is_plain(p.subrange(0, p.len() - piece.len() - 1));
        }
    }
}

/// A plain name is its own file name.
pub proof fn law_plain_name_is_its_file_name(n: Seq<char>)
    requires
        plain_name(n),
    ensures
        path_file_name(n) == Some(n),
{
    lemma_tail_piece(n);
    assert(tail_piece(n).len() == n.len()) by {
        if tail_piece(n).len() < n.len() {
            assert(n.contains('/'));
        }
    }
    assert(tail_piece(n) =~= n);
}

/// The text of an optional string.
pub open spec fn opt_text(s: Option<String>) -> Option<Seq<char>> {
    match s {
        Some(t) => Some(t@),
        None => None,
    }
}

/// The text of an optional string slice.
pub open spec fn opt_str(s: Option<&str>) -> Option<Seq<char>> {
    match s {
        Some(t) => Some(t@),
        None => None,
    }
}

/// Two texts name the same path: equal texts always do, and std's component-wise
/// comparison decides the rest.
pub open spec fn same_path(a: Seq<char>, b: Seq<char>) -> bool {
    a == b || path_eq(a, b)
}

/// `base` is a leading part of `p`, component-wise (a path is a leading part of itself).
pub open spec fn path_starts_with(p: Seq<char>, base: Seq<char>) -> bool {
    p == base || path_prefix(p, base)
}

/// Where the name below `base` starts in `base.join(name)`: after `base` and
/// the `/` put between them, or right after `base` where it ends in `/`.
pub open spec fn name_start(base: Seq<char>) -> int {
    if base.len() > 0 && base.last() == '/' {
        base.len() as int
    } else {
        base.len() + 1int
    }
}

/// The text of `p` after `base` and its separator.
pub open spec fn name_after(p: Seq<char>, base: Seq<char>) -> Seq<char> {
    p.subrange(name_start(base), p.len() as int)
}

/// `p` is `base` joined with one plain name, `base` not being empty: `base`,
/// a `/` unless `base` already ends in one, and the name.
pub open spec fn name_below(p: Seq<char>, base: Seq<char>) -> bool {
    &&& base.len() > 0
    &&& p.len() > name_start(base)
    &&& p.subrange(0, base.len() as int) == base
    &&& base.last() != '/' ==> p[base.len() as int] == '/'
    &&& plain_name(name_after(p, base))
}

/// `p` with the leading part `base` removed: nothing where `base` is not a
/// leading part of `p`, the empty path for `p` itself, the name for a path one
/// name below `base`, and otherwise what std's `strip_prefix` renders.
pub open spec fn stripped_prefix(p: Seq<char>, base: Seq<char>) -> Option<Seq<char>> {
    if !path_starts_with(p, base) {
        None
    } else if p == base {
        Some(Seq::empty())
    } else if name_below(p, base) {
        Some(name_after(p, base))
    } else {
        path_strip(p, base)
    }
}

proof fn lemma_tail_piece_after_slash(a: Seq<char>, b: Seq<char>)
    requires
        !b.contains('/'),
    ensures
        tail_piece(a + seq!['/'] + b) == b,
    decreases b.len(),
{
    let p = a + seq!['/'] + b;
    if b.len() == 0 {
        assert(p.last() == '/');
    } else {
        let c = b.drop_last();
        assert(!c.contains('/')) by {
            if c.contains('/') {
                let i = choose|i: int| 0 <= i < c.len() && c[i] == '/';
                assert(b[i] == '/');
            }
        }
        lemma_tail_piece_after_slash(a, c);
        assert(p.drop_last() =~= a + seq!['/'] + c);
        assert(p.last() == b.last());
        assert(b.last() != '/') by {
            if b.last() == '/' {
                assert(b[b.len() - 1] == '/');
            }
        }
        assert(c.push(b.last()) =~= b);
    }
}

/// A path one name below `base` has the components of `base` and then that name.
pub proof fn law_name_below_parts(p: Seq<char>, base: Seq<char>)
    requires
        name_below(p, base),
    ensures
        path_parts(p) == path_parts(base).push(PathPart::Name(name_after(p, base))),
        path_starts_with(p, base),
        p != base,
{
    let n = name_after(p, base);
    if base.last() == '/' {
        let b0 = base.drop_last();
        assert(p =~= b0 + seq!['/'] + n);
        lemma_tail_piece_after_slash(b0, n);
        assert(p.subrange(0, p.len() - n.len() - 1) =~= b0);
        assert(body_parts(p) == body_parts(b0).push(PathPart::Name(n)));
        assert(tail_piece(base).len() == 0);
        assert(base.subrange(0, base.len() - 0 - 1) =~= b0);
        assert(body_parts(base) == body_parts(b0));
        assert(p[0] == base[0]);
        if base.len() >= 2 {
            assert(p[1] == base[1]);
        }
    } else {
        assert(p =~= base + seq!['/'] + n);
        lemma_tail_piece_after_slash(base, n);
        assert(p.subrange(0, p.len() - n.len() - 1) =~= base);
        assert(body_parts(p) == body_parts(base).push(PathPart::Name(n)));
        assert(p[0] == base[0]);
        if base.len() == 1 {
            assert(p[1] == '/');
        } else {
            assert(p[1] == base[1]);
        }
    }
    assert(path_parts(p) =~= path_parts(base).push(PathPart::Name(n)));
    assert(path_parts(p).subrange(0, path_parts(base).len() as int) =~= path_parts(base));
}

/// A Unix path is absolute when it starts at the root.
pub open spec fn is_absolute(p: Seq<char>) -> bool {
    p.len() > 0 && p[0] == '/'
}

/// `rel` appended to `base` as `PathBuf::push` does on Unix: an absolute `rel`
/// replaces `base`; otherwise a separator is put between them unless `base` is
/// empty or already ends in one.
pub open spec fn joined(base: Seq<char>, rel: Seq<char>) -> Seq<char> {
    if is_absolute(rel) {
        rel
    } else if base.len() == 0 || base.last() == '/' {
        base + rel
    } else {
        base + seq!['/'] + rel
    }
}

/// Compares two paths with `Path`'s `==`, which compares their components,
/// spelled out by `path_parts`.
#[verifier::external_body]
pub(crate) fn paths_equal(a: &str, b: &str) -> (r: bool)
    ensures
        r == (a@ == b@ || path_eq(a@, b@)),
{
    std::path::Path::new(a) == std::path::Path::new(b)
}

/// Calls `Path::starts_with`, which matches whole components only, spelled
/// out by `path_parts`.
#[verifier::external_body]
pub(crate) fn path_has_prefix(p: &str, base: &str) -> (r: bool)
    ensures
        r == (p@ == base@ || path_prefix(p@, base@)),
{
    std::path::Path::new(p).starts_with(base)
}

/// Calls `Path::strip_prefix` and renders the rest as text. std documents that
/// it fails exactly where `starts_with` is false, that a path without itself is
/// the empty path, and that the rest joined onto `base` gives the path back: a
/// path one name below `base` (`base.join(name)`) leaves that name. Which text the rest is
/// otherwise is left to the name `path_strip`.
#[verifier::external_body]
pub(crate) fn strip_path_prefix(p: &str, base: &str) -> (r: Option<String>)
    ensures
        r is Some <==> path_starts_with(p@, base@),
        p@ == base@ ==> opt_text(r) == Some(Seq::<char>::empty()),
        name_below(p@, base@) ==> opt_text(r) == Some(name_after(p@, base@)),
        p@ != base@ && !name_below(p@, base@) ==> opt_text(r) == path_strip(p@, base@),
{
    std::path::Path::new(p).strip_prefix(base).ok().map(|rest| rest.to_string_lossy().into_owned())
}

/// Calls `Path::file_name` and renders the name as text: std documents it as
/// the final component of the path, which `path_file_name` spells out for Unix
/// paths. A `&str` is valid UTF-8 and a component is cut at `/`, so the
/// rendering loses nothing.
#[verifier::external_body]
pub(crate) fn file_name_of(p: &str) -> (r: Option<String>)
    ensures
        opt_text(r) == path_file_name(p@),
{
    std::path::Path::new(p).file_name().map(|n| n.to_string_lossy().into_owned())
}

/// Whether `p` is absolute (on Unix: starts with `/`).
pub fn path_is_absolute(p: &str) -> (r: bool)
    ensures
        r == is_absolute(p@),
{
    char_len(p) > 0 && char_at(p, 0) == '/'
}

/// `base.join(rel)` for Unix paths.
pub fn join_path(base: &str, rel: &str) -> (r: String)
    ensures
        r@ == joined(base@, rel@),
{
    if path_is_absolute(rel) {
        return String::from_str(rel);
    }
    let n = char_len(base);
    let mut r = String::from_str(base);
    if n > 0 && char_at(base, n - 1) != '/' {
        r.append("/");
        proof {
            reveal_strlit("/");
        }
    }
    r.append(rel);
    proof {
        if n > 0 {
            assert(base@.last() == base@[n - 1]);
        }
        assert(r@ =~= joined(base@, rel@));
    }
    r
}

/// A relative path that a request may name inside a shared folder: no `..`
/// anywhere in it, and not absolute.
pub open spec fn acceptable_relative(rel: Seq<char>) -> bool {
    !has_double_dot(rel) && !is_absolute(rel)
}

/// Whether a relative path from a request may be looked up inside a shared folder.
pub fn relative_is_acceptable(rel: &str) -> (r: bool)
    ensures
        r == acceptable_relative(rel@),
{
    !contains_double_dot(rel) && !path_is_absolute(rel)
}

} // verus!
