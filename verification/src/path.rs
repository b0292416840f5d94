//! Paths as Unix reads them: `/` is the only separator, a leading `/` is the root,
//! empty and `.` components inside a path are ignored, and a leading `.` stands for
//! the current directory. These are the rules of `std::path::Path` on Unix for
//! `file_name`, `extension`, `parent` and `join`.
use vstd::prelude::*;
use crate::text::{after_last, chars_of, last_index_in, string_from_range, copy_str};

verus! {

/// The path starts at the root.
pub open spec fn has_root(p: Seq<char>) -> bool {
    p.len() > 0 && p[0] == '/'
}

/// A relative path whose first component is `.`.
pub open spec fn starts_with_cur_dir(p: Seq<char>) -> bool {
    !has_root(p) && p.len() > 0 && p[0] == '.' && (p.len() == 1 || p[1] == '/')
}

/// Where the components after the root or the leading `.` begin.
pub open spec fn body_start(p: Seq<char>) -> int {
    if has_root(p) || starts_with_cur_dir(p) {
        1
    } else {
        0
    }
}

/// A piece between separators that names no component: empty, or `.`.
pub open spec fn insignificant(piece: Seq<char>) -> bool {
    piece.len() == 0 || piece == seq!['.']
}

/// Where the last piece of `p[lo..hi]` begins: one past its last `/`, or `lo`.
pub open spec fn piece_start(p: Seq<char>, lo: int, hi: int) -> int {
    last_index_in(p, '/', lo, hi) + 1
}

/// Where `p[..hi]` ends once its last piece and the `/` before it are taken off.
pub open spec fn cut_before_piece(p: Seq<char>, lo: int, hi: int) -> int {
    let k = last_index_in(p, '/', lo, hi);
    if k >= lo {
        k
    } else {
        lo
    }
}

/// The last index found in a non-empty range lies inside it, or just before it.
pub proof fn lemma_last_index_bounds(s: Seq<char>, c: char, lo: int, hi: int)
    requires
        lo < hi,
    ensures
        lo - 1 <= last_index_in(s, c, lo, hi) < hi,
    decreases hi - lo,
{
    if s[hi - 1] != c {
        if lo < hi - 1 {
            lemma_last_index_bounds(s, c, lo, hi - 1);
        } else {
            assert(last_index_in(s, c, lo, hi - 1) == lo - 1);
        }
    }
}

/// The end of `p[..hi]` once trailing empty and `.` pieces after `lo` are dropped.
pub open spec fn trimmed_end(p: Seq<char>, lo: int, hi: int) -> int
    decreases hi - lo,
{
    if hi <= lo {
        hi
    } else if insignificant(p.subrange(piece_start(p, lo, hi), hi)) {
        proof {
            lemma_last_index_bounds(p, '/', lo, hi);
            assert(cut_before_piece(p, lo, hi) < hi);
        }
        trimmed_end(p, lo, cut_before_piece(p, lo, hi))
    } else {
        hi
    }
}

/// The end of the last component of `p`.
pub open spec fn body_end(p: Seq<char>) -> int {
    trimmed_end(p, body_start(p), p.len() as int)
}

/// The final component of `p` if it is a name (`Path::file_name`): `None` when `p` has no
/// component after its root or leading `.`, or when the final component is `..`.
pub open spec fn file_name(p: Seq<char>) -> Option<Seq<char>> {
    let lo = body_start(p);
    let e = body_end(p);
    if e <= lo {
        None
    } else {
        let piece = p.subrange(piece_start(p, lo, e), e);
        if piece == seq!['.', '.'] {
            None
        } else {
            Some(piece)
        }
    }
}

/// `p` without its final component (`Path::parent`): `None` for the empty path and for a
/// path that is only a root; the empty path for a path that is only `.`.
pub open spec fn parent(p: Seq<char>) -> Option<Seq<char>> {
    let lo = body_start(p);
    let e = body_end(p);
    if e <= lo {
        if starts_with_cur_dir(p) {
            Some(Seq::empty())
        } else {
            None
        }
    } else {
        Some(p.subrange(0, trimmed_end(p, lo, cut_before_piece(p, lo, e))))
    }
}

/// The directory that holds `p`: its parent, or `.` (the current directory) when the
/// parent is absent or empty, as it is for a bare file name.
pub open spec fn parent_or_dot(p: Seq<char>) -> Seq<char> {
    match parent(p) {
        Some(d) => if d.len() > 0 {
            d
        } else {
            seq!['.']
        },
        None => seq!['.'],
    }
}

/// The extension of a file name: what follows its last `.`, unless there is no `.` or the
/// only `.` is the first character.
pub open spec fn extension_of_name(n: Seq<char>) -> Option<Seq<char>> {
    let i = last_index_in(n, '.', 0, n.len() as int);
    if i <= 0 {
        None
    } else {
        Some(n.subrange(i + 1, n.len() as int))
    }
}

/// The extension of the file name of `p` (`Path::extension`).
pub open spec fn extension(p: Seq<char>) -> Option<Seq<char>> {
    match file_name(p) {
        Some(n) => extension_of_name(n),
        None => None,
    }
}

/// `p` appended to `base` (`Path::join`): an absolute `p` replaces `base`; otherwise a `/`
/// goes between them when `base` is not empty and does not already end with one.
pub open spec fn join(base: Seq<char>, p: Seq<char>) -> Seq<char> {
    if has_root(p) {
        p
    } else if base.len() > 0 && base.last() != '/' {
        base + seq!['/'] + p
    } else {
        base + p
    }
}

// ---------------------------------------------------------------------------
// Executable functions
// ---------------------------------------------------------------------------

fn body_start_of(v: &Vec<char>) -> (r: usize)
    ensures
        r == body_start(v@),
        r <= v@.len(),
{
    let n = v.len();
    if n > 0 && v[0] == '/' {
        1
    } else if n > 0 && v[0] == '.' && (n == 1 || v[1] == '/') {
        1
    } else {
        0
    }
}

fn is_insignificant(v: &Vec<char>, a: usize, b: usize) -> (r: bool)
    requires
        a <= b <= v@.len(),
    ensures
        r == insignificant(v@.subrange(a as int, b as int)),
{
    if a == b {
        return true;
    }
    if b - a == 1 && v[a] == '.' {
        assert(v@.subrange(a as int, b as int) =~= seq!['.']);
        return true;
    }
    if b - a == 1 {
        assert(v@.subrange(a as int, b as int)[0] != '.');
    }
    false
}

fn cut_before(v: &Vec<char>, lo: usize, hi: usize) -> (r: usize)
    requires
        lo < hi <= v@.len(),
    ensures
        r == cut_before_piece(v@, lo as int, hi as int),
        lo <= r < hi,
{
    proof {
        lemma_last_index_bounds(v@, '/', lo as int, hi as int);
    }
    let s = after_last(v, '/', lo, hi);
    if s > lo {
        s - 1
    } else {
        lo
    }
}

fn trimmed_end_of(v: &Vec<char>, lo: usize, hi: usize) -> (r: usize)
    requires
        lo <= hi <= v@.len(),
    ensures
        r == trimmed_end(v@, lo as int, hi as int),
        r <= hi,
{
    let mut h = hi;
    while h > lo
        invariant
            lo <= h <= hi,
            hi <= v@.len(),
            trimmed_end(v@, lo as int, hi as int) == trimmed_end(v@, lo as int, h as int),
        decreases h,
    {
        let s = after_last(v, '/', lo, h);
        if is_insignificant(v, s, h) {
            h = cut_before(v, lo, h);
        } else {
            return h;
        }
    }
    h
}

/// The final component of `p` if it is a name (`Path::file_name`).
pub fn file_name_of(p: &str) -> (r: Option<String>)
    ensures
        match r {
            Some(n) => file_name(p@) == Some(n@),
            None => file_name(p@) is None,
        },
{
    let v = chars_of(p);
    let lo = body_start_of(&v);
    let e = trimmed_end_of(&v, lo, v.len());
    if e <= lo {
        return None;
    }
    let s = after_last(&v, '/', lo, e);
    let dot_dot = e - s == 2 && v[s] == '.' && v[s + 1] == '.';
    proof {
        let piece = v@.subrange(s as int, e as int);
        let dd = seq!['.', '.'];
        if dot_dot {
            assert(piece =~= dd);
        } else if piece == dd {
            assert(piece.len() == 2);
            assert(piece[0] == dd[0]);
            assert(piece[1] == dd[1]);
        }
    }
    if dot_dot {
        return None;
    }
    Some(string_from_range(&v, s, e))
}

/// `p` without its final component (`Path::parent`).
pub fn parent_of(p: &str) -> (r: Option<String>)
    ensures
        match r {
            Some(d) => parent(p@) == Some(d@),
            None => parent(p@) is None,
        },
{
    let v = chars_of(p);
    let lo = body_start_of(&v);
    let e = trimmed_end_of(&v, lo, v.len());
    if e <= lo {
        if lo == 1 && v[0] == '.' {
            return Some(String::new());
        }
        return None;
    }
    let c = cut_before(&v, lo, e);
    let end = trimmed_end_of(&v, lo, c);
    Some(string_from_range(&v, 0, end))
}

/// The directory that holds `p`: its parent, or `.` when the parent is absent or empty.
pub fn parent_or_dot_of(p: &str) -> (r: String)
    ensures
        r@ == parent_or_dot(p@),
{
    if let Some(d) = parent_of(p) {
        if !d.as_str().is_empty() {
            return d;
        }
    }
    let r = copy_str(".");
    proof {
        reveal_strlit(".");
    }
    assert(r@ =~= seq!['.']);
    r
}

/// The extension of the file name of `p` (`Path::extension`).
pub fn extension_of(p: &str) -> (r: Option<String>)
    ensures
        match r {
            Some(x) => extension(p@) == Some(x@),
            None => extension(p@) is None,
        },
{
    match file_name_of(p) {
        None => None,
        Some(n) => {
            let v = chars_of(n.as_str());
            let s = after_last(&v, '.', 0, v.len());
            if s <= 1 {
                None
            } else {
                Some(string_from_range(&v, s, v.len()))
            }
        },
    }
}

/// `p` appended to `base` (`Path::join`).
pub fn join_paths(base: &str, p: &str) -> (r: String)
    ensures
        r@ == join(base@, p@),
{
    let b = chars_of(base);
    let q = chars_of(p);
    if q.len() > 0 && q[0] == '/' {
        return copy_str(p);
    }
    let mut r = copy_str(base);
    if b.len() > 0 && b[b.len() - 1] != '/' {
        r.append("/");
        proof {
            reveal_strlit("/");
        }
    }
    r.append(p);
    assert(r@ =~= join(base@, p@));
    r
}

} // verus!

verus! {

// ---------------------------------------------------------------------------
// Laws
// ---------------------------------------------------------------------------

/// A name that `join` can place in a directory: not empty, without `/`, and neither `.`
/// nor `..`.
pub open spec fn plain_name(n: Seq<char>) -> bool {
    &&& n.len() > 0
    &&& forall|i: int| 0 <= i < n.len() ==> n[i] != '/'
    &&& n != seq!['.']
    &&& n != seq!['.', '.']
}

/// Searching past a stretch without `c` finds what searching before the stretch finds.
proof fn lemma_last_index_skip(s: Seq<char>, c: char, lo: int, mid: int, hi: int)
    requires
        lo <= mid <= hi <= s.len(),
        forall|j: int| mid <= j < hi ==> s[j] != c,
    ensures
        last_index_in(s, c, lo, hi) == last_index_in(s, c, lo, mid),
    decreases hi - mid,
{
    if hi > mid {
        lemma_last_index_skip(s, c, lo, mid, hi - 1);
    }
}

/// A name joined to a directory is the file name of the result.
pub proof fn law_join_file_name(dir: Seq<char>, n: Seq<char>)
    requires
        plain_name(n),
    ensures
        file_name(join(dir, n)) == Some(n),
{
    let p = join(dir, n);
    let m = p.len() - n.len();
    assert(!has_root(n));
    if dir.len() > 0 && dir.last() != '/' {
        assert(p =~= dir + seq!['/'] + n);
        assert(p[m - 1] == '/');
    } else {
        assert(p =~= dir + n);
        if m > 0 {
            assert(p[m - 1] == dir.last());
        }
    }
    assert(p.subrange(m, p.len() as int) =~= n);
    assert forall|j: int| m <= j < p.len() implies p[j] != '/' by {
        assert(p[j] == n[j - m]);
    }
    let lo = body_start(p);
    if m == 0 {
        assert(p =~= n);
        if n[0] == '.' && n.len() > 1 {
            assert(n[1] != '/');
        }
        if n[0] == '.' && n.len() == 1 {
            assert(n =~= seq!['.']);
        }
        assert(lo == 0);
    }
    assert(lo <= m);
    lemma_last_index_skip(p, '/', lo, m, p.len() as int);
    if m >= 1 && m - 1 >= lo {
        assert(last_index_in(p, '/', lo, m) == m - 1);
    } else {
        assert(last_index_in(p, '/', lo, m) == lo - 1);
    }
    assert(piece_start(p, lo, p.len() as int) == m);
    assert(!insignificant(p.subrange(m, p.len() as int)));
    assert(body_end(p) == p.len());
}

} // verus!

verus! {

/// `trimmed_end` stays in its range, stops only after a piece that names a component,
/// and trimming again changes nothing.
proof fn lemma_trimmed_end(p: Seq<char>, lo: int, hi: int)
    requires
        0 <= lo <= hi <= p.len(),
    ensures
        lo <= trimmed_end(p, lo, hi) <= hi,
        trimmed_end(p, lo, hi) > lo ==> !insignificant(
            p.subrange(piece_start(p, lo, trimmed_end(p, lo, hi)), trimmed_end(p, lo, hi)),
        ),
        trimmed_end(p, lo, trimmed_end(p, lo, hi)) == trimmed_end(p, lo, hi),
    decreases hi - lo,
{
    if hi > lo {
        lemma_last_index_bounds(p, '/', lo, hi);
        if insignificant(p.subrange(piece_start(p, lo, hi), hi)) {
            lemma_trimmed_end(p, lo, cut_before_piece(p, lo, hi));
        }
    }
}

/// Two texts that agree on a range agree on where the last `c` in it is.
proof fn lemma_last_index_agree(p: Seq<char>, q: Seq<char>, c: char, lo: int, hi: int)
    requires
        0 <= lo,
        hi <= p.len(),
        hi <= q.len(),
        forall|j: int| lo <= j < hi ==> p[j] == q[j],
    ensures
        last_index_in(p, c, lo, hi) == last_index_in(q, c, lo, hi),
    decreases hi - lo,
{
    if hi > lo {
        lemma_last_index_agree(p, q, c, lo, hi - 1);
    }
}

/// `trimmed_end` reads nothing of a path past `hi`.
proof fn lemma_trimmed_end_agree(p: Seq<char>, q: Seq<char>, lo: int, hi: int)
    requires
        0 <= lo <= hi,
        hi <= p.len(),
        hi <= q.len(),
        forall|j: int| 0 <= j < hi ==> p[j] == q[j],
    ensures
        trimmed_end(p, lo, hi) == trimmed_end(q, lo, hi),
    decreases hi - lo,
{
    if hi > lo {
        lemma_last_index_agree(p, q, '/', lo, hi);
        lemma_last_index_bounds(p, '/', lo, hi);
        let s = piece_start(p, lo, hi);
        assert(p.subrange(s, hi) =~= q.subrange(s, hi));
        lemma_trimmed_end_agree(p, q, lo, cut_before_piece(p, lo, hi));
    }
}

/// A directory that ends with a component, or is only a root or `.`: trimming its end
/// changes nothing.
pub open spec fn clean_dir(d: Seq<char>) -> bool {
    d.len() > 0 && trimmed_end(d, body_start(d), d.len() as int) == d.len()
}

/// How a clean directory joined with a plain name looks: it starts the way the directory
/// does, holds the directory as its prefix, and its last component is the name, right
/// after the directory.
proof fn lemma_join_shape(d: Seq<char>, n: Seq<char>)
    requires
        plain_name(n),
        clean_dir(d),
    ensures
        ({
            let q = join(d, n);
            let lo = body_start(d);
            &&& body_start(q) == lo
            &&& has_root(q) == has_root(d)
            &&& d.len() < q.len()
            &&& q.subrange(0, d.len() as int) == d
            &&& body_end(q) == q.len()
            &&& trimmed_end(q, lo, q.len() as int) == q.len()
            &&& q.subrange(piece_start(q, lo, q.len() as int), q.len() as int) == n
            &&& cut_before_piece(q, lo, q.len() as int) == d.len()
        }),
{
    let q = join(d, n);
    let lo = body_start(d);
    assert(!has_root(n));
    if d.last() == '/' && d.len() > lo {
        lemma_last_index_bounds(d, '/', lo, d.len() as int);
        assert(last_index_in(d, '/', lo, d.len() as int) == d.len() - 1);
        assert(d.subrange(d.len() as int, d.len() as int) =~= Seq::<char>::empty());
        lemma_trimmed_end(d, lo, cut_before_piece(d, lo, d.len() as int));
        assert(false);
    }
    let m = q.len() - n.len();
    if d.last() != '/' {
        assert(q =~= d + seq!['/'] + n);
        assert(m == d.len() + 1);
        assert(q[m - 1] == '/');
    } else {
        assert(q =~= d + n);
        assert(d.len() == 1);
        assert(m == 1);
    }
    assert forall|j: int| 0 <= j < d.len() implies q[j] == d[j] by {}
    // The same root or leading `.` starts both paths.
    assert(q[0] == d[0]);
    if d.len() >= 2 {
        assert(q[1] == d[1]);
    }
    assert(body_start(q) == lo);
    assert(q.subrange(m, q.len() as int) =~= n);
    assert forall|j: int| m <= j < q.len() implies q[j] != '/' by {
        assert(q[j] == n[j - m]);
    }
    lemma_last_index_skip(q, '/', lo, m, q.len() as int);
    if m - 1 >= lo {
        assert(last_index_in(q, '/', lo, m) == m - 1);
    } else {
        assert(last_index_in(q, '/', lo, m) == lo - 1);
    }
    assert(piece_start(q, lo, q.len() as int) == m);
    assert(!insignificant(q.subrange(m, q.len() as int)));
    assert(body_end(q) == q.len());
    assert(cut_before_piece(q, lo, q.len() as int) == d.len());
    assert(q.subrange(0, d.len() as int) =~= d);
}

/// The parent of a joined name is the directory it was joined to, when that directory is
/// clean.
pub proof fn lemma_parent_of_join(d: Seq<char>, n: Seq<char>)
    requires
        plain_name(n),
        clean_dir(d),
    ensures
        parent(join(d, n)) == Some(d),
{
    let q = join(d, n);
    let lo = body_start(d);
    lemma_join_shape(d, n);
    assert forall|j: int| 0 <= j < d.len() implies q[j] == d[j] by {
        assert(q.subrange(0, d.len() as int)[j] == q[j]);
    }
    lemma_trimmed_end_agree(q, d, lo, d.len() as int);
}

/// The parent of a path, when it is not empty, is a clean directory.
pub proof fn lemma_parent_clean(p: Seq<char>)
    requires
        parent(p) matches Some(d) && d.len() > 0,
    ensures
        clean_dir(parent(p)->0),
        body_start(parent(p)->0) == body_start(p),
        has_root(parent(p)->0) == has_root(p),
{
    let lo = body_start(p);
    let e = body_end(p);
    let d = parent(p)->0;
    lemma_trimmed_end(p, lo, p.len() as int);
    if e > lo {
        lemma_last_index_bounds(p, '/', lo, e);
        let c = cut_before_piece(p, lo, e);
        lemma_trimmed_end(p, lo, c);
        let t = trimmed_end(p, lo, c);
        assert(d =~= p.subrange(0, t));
        // `d` starts the way `p` does.
        assert(d[0] == p[0]);
        if d.len() >= 2 {
            assert(d[1] == p[1]);
        }
        if d.len() == 1 && d[0] == '.' && lo == 0 {
            assert(p[0] == '.');
            assert(last_index_in(p, '/', 0, 0) == -1);
            assert(last_index_in(p, '/', 0, 1) == -1);
            assert(p.subrange(0, 1) =~= seq!['.']);
        }
        assert(body_start(d) == lo);
        lemma_trimmed_end_agree(p, d, lo, t);
    } else {
        assert(d.len() == 0);
    }
}

/// Joining the parent and the file name of a path gives a path with the same parent and
/// file name, when the parent is not empty.
pub proof fn law_join_parent_file_name(p: Seq<char>)
    requires
        file_name(p) is Some,
        parent(p) matches Some(d) && d.len() > 0,
    ensures
        parent(join(parent(p)->0, file_name(p)->0)) == parent(p),
        file_name(join(parent(p)->0, file_name(p)->0)) == file_name(p),
{
    lemma_file_name_plain(p);
    lemma_parent_clean(p);
    lemma_parent_of_join(parent(p)->0, file_name(p)->0);
    law_join_file_name(parent(p)->0, file_name(p)->0);
}

/// A file name is a plain name.
pub proof fn lemma_file_name_plain(p: Seq<char>)
    requires
        file_name(p) is Some,
    ensures
        plain_name(file_name(p)->0),
{
    let lo = body_start(p);
    let e = body_end(p);
    lemma_trimmed_end(p, lo, p.len() as int);
    crate::text::lemma_last_index_in(p, '/', lo, e);
    let s = piece_start(p, lo, e);
    let n = file_name(p)->0;
    assert(n =~= p.subrange(s, e));
    assert forall|i: int| 0 <= i < n.len() implies n[i] != '/' by {
        assert(n[i] == p[s + i]);
    }
}

} // verus!

verus! {

// ---------------------------------------------------------------------------
// Components and path equality
// ---------------------------------------------------------------------------

/// `trimmed_end` stays in its range, whatever the length of the path.
pub proof fn lemma_trimmed_end_range(p: Seq<char>, lo: int, hi: int)
    requires
        lo <= hi,
    ensures
        lo <= trimmed_end(p, lo, hi) <= hi,
    decreases hi - lo,
{
    if hi > lo {
        lemma_last_index_bounds(p, '/', lo, hi);
        if insignificant(p.subrange(piece_start(p, lo, hi), hi)) {
            lemma_trimmed_end_range(p, lo, cut_before_piece(p, lo, hi));
        }
    }
}

/// The components of `p[..hi]` after `lo`, in order: the pieces that are neither empty nor
/// `.` (a name, or `..`).
pub open spec fn pieces_upto(p: Seq<char>, lo: int, hi: int) -> Seq<Seq<char>>
    decreases hi - lo,
{
    if hi <= lo {
        Seq::empty()
    } else {
        let t = trimmed_end(p, lo, hi);
        if t <= lo {
            Seq::empty()
        } else {
            proof {
                lemma_trimmed_end_range(p, lo, hi);
                lemma_last_index_bounds(p, '/', lo, t);
            }
            pieces_upto(p, lo, cut_before_piece(p, lo, t)).push(
                p.subrange(piece_start(p, lo, t), t),
            )
        }
    }
}

/// The components of `p` after its root or leading `.`.
pub open spec fn components(p: Seq<char>) -> Seq<Seq<char>> {
    pieces_upto(p, body_start(p), p.len() as int)
}

/// Two paths that `std::path::Path` counts as equal: both or neither start at the root,
/// both or neither start with `.`, and they have the same components.
pub open spec fn same_path(a: Seq<char>, b: Seq<char>) -> bool {
    &&& has_root(a) == has_root(b)
    &&& starts_with_cur_dir(a) == starts_with_cur_dir(b)
    &&& components(a) == components(b)
}

/// Listing the components up to `hi` is listing them up to where trimming stops.
proof fn lemma_pieces_trimmed(p: Seq<char>, lo: int, hi: int)
    requires
        0 <= lo <= hi <= p.len(),
    ensures
        pieces_upto(p, lo, hi) == pieces_upto(p, lo, trimmed_end(p, lo, hi)),
{
    lemma_trimmed_end(p, lo, hi);
}

/// The components up to `hi` read nothing of a path past `hi`.
proof fn lemma_pieces_agree(p: Seq<char>, q: Seq<char>, lo: int, hi: int)
    requires
        0 <= lo <= hi,
        hi <= p.len(),
        hi <= q.len(),
        forall|j: int| 0 <= j < hi ==> p[j] == q[j],
    ensures
        pieces_upto(p, lo, hi) == pieces_upto(q, lo, hi),
    decreases hi - lo,
{
    if hi > lo {
        lemma_trimmed_end_agree(p, q, lo, hi);
        lemma_trimmed_end(p, lo, hi);
        let t = trimmed_end(p, lo, hi);
        if t > lo {
            lemma_last_index_agree(p, q, '/', lo, t);
            lemma_last_index_bounds(p, '/', lo, t);
            let s = piece_start(p, lo, t);
            assert(p.subrange(s, t) =~= q.subrange(s, t));
            lemma_pieces_agree(p, q, lo, cut_before_piece(p, lo, t));
        }
    }
}

/// A path's components are its parent's components and then its file name, when the
/// parent is not empty.
proof fn lemma_components_of_parent(p: Seq<char>)
    requires
        file_name(p) is Some,
        parent(p) matches Some(d) && d.len() > 0,
    ensures
        components(p) == components(parent(p)->0).push(file_name(p)->0),
{
    let lo = body_start(p);
    let e = body_end(p);
    lemma_trimmed_end(p, lo, p.len() as int);
    lemma_last_index_bounds(p, '/', lo, e);
    let c = cut_before_piece(p, lo, e);
    lemma_trimmed_end(p, lo, c);
    let t = trimmed_end(p, lo, c);
    let d = parent(p)->0;
    lemma_parent_clean(p);
    assert(d =~= p.subrange(0, t));
    lemma_pieces_trimmed(p, lo, c);
    lemma_pieces_agree(p, d, lo, t);
}

/// A clean directory joined with a plain name has the directory's components and then
/// the name.
proof fn lemma_components_of_join(d: Seq<char>, n: Seq<char>)
    requires
        plain_name(n),
        clean_dir(d),
    ensures
        components(join(d, n)) == components(d).push(n),
{
    let q = join(d, n);
    let lo = body_start(d);
    lemma_join_shape(d, n);
    assert forall|j: int| 0 <= j < d.len() implies q[j] == d[j] by {
        assert(q.subrange(0, d.len() as int)[j] == q[j]);
    }
    lemma_pieces_agree(q, d, lo, d.len() as int);
}

/// Joining the parent and the file name of a path gives the same path, as
/// `std::path::Path` compares paths, when the parent is not empty.
pub proof fn law_join_parent_file_name_same_path(p: Seq<char>)
    requires
        file_name(p) is Some,
        parent(p) matches Some(d) && d.len() > 0,
    ensures
        same_path(join(parent(p)->0, file_name(p)->0), p),
{
    let d = parent(p)->0;
    let n = file_name(p)->0;
    lemma_file_name_plain(p);
    lemma_parent_clean(p);
    lemma_join_shape(d, n);
    lemma_components_of_parent(p);
    lemma_components_of_join(d, n);
}

} // verus!

verus! {

/// A plain name on its own has the empty path as its parent.
pub proof fn lemma_parent_of_plain_name(n: Seq<char>)
    requires
        plain_name(n),
    ensures
        parent(n) == Some(Seq::<char>::empty()),
{
    if n[0] == '.' && n.len() > 1 {
        assert(n[1] != '/');
    }
    if n[0] == '.' && n.len() == 1 {
        assert(n =~= seq!['.']);
    }
    assert(body_start(n) == 0);
    lemma_last_index_skip(n, '/', 0, 0, n.len() as int);
    assert(piece_start(n, 0, n.len() as int) == 0);
    assert(n.subrange(0, n.len() as int) =~= n);
    assert(body_end(n) == n.len());
    assert(cut_before_piece(n, 0, n.len() as int) == 0);
    assert(n.subrange(0, 0) =~= Seq::<char>::empty());
}

} // verus!

verus! {

/// The extension is what follows the last `.` of the file name: the file name is a stem
/// that is not empty, a `.`, and the extension, which holds no `.`.
pub proof fn law_extension_is_suffix(p: Seq<char>)
    requires
        extension(p) is Some,
    ensures
        file_name(p) is Some,
        exists|stem: Seq<char>|
            stem.len() > 0 && file_name(p)->0 == stem + seq!['.'] + extension(p)->0,
        forall|i: int|
            0 <= i < (extension(p)->0).len() ==> (extension(p)->0)[i] != '.',
{
    let n = file_name(p)->0;
    let e = extension(p)->0;
    crate::text::lemma_last_index_in(n, '.', 0, n.len() as int);
    let i = last_index_in(n, '.', 0, n.len() as int);
    let stem = n.subrange(0, i);
    assert(n =~= stem + seq!['.'] + e);
    assert forall|k: int| 0 <= k < e.len() implies e[k] != '.' by {
        assert(e[k] == n[i + 1 + k]);
    }
}

} // verus!
