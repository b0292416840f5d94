use vstd::prelude::*;

verus! {

// ---------------------------------------------------------------------------
// Characters
// ---------------------------------------------------------------------------

/// Whether `c` has the Unicode `White_Space` property.
pub open spec fn is_white_space(c: char) -> bool {
    ||| ('\u{9}' <= c && c <= '\u{d}')
    ||| c == ' '
    ||| c == '\u{85}'
    ||| c == '\u{a0}'
    ||| c == '\u{1680}'
    ||| ('\u{2000}' <= c && c <= '\u{200a}')
    ||| c == '\u{2028}'
    ||| c == '\u{2029}'
    ||| c == '\u{202f}'
    ||| c == '\u{205f}'
    ||| c == '\u{3000}'
}

/// Executable test for the Unicode `White_Space` property.
pub fn white_space(c: char) -> (r: bool)
    ensures
        r == is_white_space(c),
{
    ('\u{9}' <= c && c <= '\u{d}') || c == ' ' || c == '\u{85}' || c == '\u{a0}' || c == '\u{1680}'
        || ('\u{2000}' <= c && c <= '\u{200a}') || c == '\u{2028}' || c == '\u{2029}' || c
        == '\u{202f}' || c == '\u{205f}' || c == '\u{3000}'
}

// ---------------------------------------------------------------------------
// Converting between strings and character vectors
// ---------------------------------------------------------------------------

/// Appends one character to a string (`String::push`).
#[verifier::external_body]
fn push_char(s: &mut String, c: char)
    ensures
        final(s)@ == old(s)@.push(c),
{
    s.push(c);
}

/// The characters of `s`, in order.
pub fn chars_of(s: &str) -> (v: Vec<char>)
    ensures
        v@ == s@,
{
    let n = s.unicode_len();
    let mut v: Vec<char> = Vec::new();
    let mut i: usize = 0;
    while i < n
        invariant
            n == s@.len(),
            i <= n,
            v@ == s@.subrange(0, i as int),
        decreases n - i,
    {
        let c = s.get_char(i);
        v.push(c);
        i = i + 1;
        assert(v@ =~= s@.subrange(0, i as int));
    }
    assert(v@ =~= s@);
    v
}

/// The string made of the characters `v@[lo..hi]`.
pub fn string_from_range(v: &Vec<char>, lo: usize, hi: usize) -> (s: String)
    requires
        lo <= hi <= v@.len(),
    ensures
        s@ == v@.subrange(lo as int, hi as int),
{
    let mut s = String::new();
    let mut i: usize = lo;
    while i < hi
        invariant
            lo <= i <= hi,
            hi <= v@.len(),
            s@ == v@.subrange(lo as int, i as int),
        decreases hi - i,
    {
        push_char(&mut s, v[i]);
        i = i + 1;
        assert(s@ =~= v@.subrange(lo as int, i as int));
    }
    s
}

/// The string made of the characters of `v`.
pub fn string_from_chars(v: &Vec<char>) -> (s: String)
    ensures
        s@ == v@,
{
    let s = string_from_range(v, 0, v.len());
    assert(v@.subrange(0, v@.len() as int) =~= v@);
    s
}

/// A fresh copy of `s`.
pub fn copy_str(s: &str) -> (r: String)
    ensures
        r@ == s@,
{
    let v = chars_of(s);
    string_from_chars(&v)
}

/// Whether two strings hold the same characters.
pub fn same_text(a: &str, b: &str) -> (r: bool)
    ensures
        r == (a@ == b@),
{
    let x = chars_of(a);
    let y = chars_of(b);
    if x.len() != y.len() {
        return false;
    }
    let mut i: usize = 0;
    while i < x.len()
        invariant
            x@ == a@,
            y@ == b@,
            x@.len() == y@.len(),
            i <= x@.len(),
            forall|k: int| 0 <= k < i ==> x@[k] == y@[k],
        decreases x.len() - i,
    {
        if x[i] != y[i] {
            assert(x@[i as int] != y@[i as int]);
            return false;
        }
        i = i + 1;
    }
    assert(x@ =~= y@);
    true
}

// ---------------------------------------------------------------------------
// Searching for a character
// ---------------------------------------------------------------------------

/// The largest index `k` with `lo <= k < hi` and `s[k] == c`, or `lo - 1` when there is none.
pub open spec fn last_index_in(s: Seq<char>, c: char, lo: int, hi: int) -> int
    decreases hi - lo,
{
    if hi <= lo {
        lo - 1
    } else if s[hi - 1] == c {
        hi - 1
    } else {
        last_index_in(s, c, lo, hi - 1)
    }
}

/// What `last_index_in` returns lies in `[lo - 1, hi)`, and nothing after it in range is `c`.
pub proof fn lemma_last_index_in(s: Seq<char>, c: char, lo: int, hi: int)
    requires
        0 <= lo <= hi <= s.len(),
    ensures
        lo - 1 <= last_index_in(s, c, lo, hi) < hi,
        last_index_in(s, c, lo, hi) >= lo ==> s[last_index_in(s, c, lo, hi)] == c,
        forall|j: int| last_index_in(s, c, lo, hi) < j < hi && lo <= j ==> s[j] != c,
    decreases hi - lo,
{
    if hi > lo && s[hi - 1] != c {
        lemma_last_index_in(s, c, lo, hi - 1);
    }
}

/// One past the last `c` in `v@[lo..hi]`, or `lo` when there is none.
pub fn after_last(v: &Vec<char>, c: char, lo: usize, hi: usize) -> (r: usize)
    requires
        lo <= hi <= v@.len(),
    ensures
        r == last_index_in(v@, c, lo as int, hi as int) + 1,
        lo <= r <= hi,
{
    let mut j: usize = hi;
    while j > lo
        invariant
            lo <= j <= hi,
            hi <= v@.len(),
            last_index_in(v@, c, lo as int, hi as int) == last_index_in(v@, c, lo as int, j as int),
        decreases j,
    {
        if v[j - 1] == c {
            return j;
        }
        j = j - 1;
    }
    j
}

// ---------------------------------------------------------------------------
// Trimming white space (`str::trim`)
// ---------------------------------------------------------------------------

/// `s` without its leading white space.
pub open spec fn trim_start(s: Seq<char>) -> Seq<char>
    decreases s.len(),
{
    if s.len() > 0 && is_white_space(s[0]) {
        trim_start(s.drop_first())
    } else {
        s
    }
}

/// `s` without its trailing white space.
pub open spec fn trim_end(s: Seq<char>) -> Seq<char>
    decreases s.len(),
{
    if s.len() > 0 && is_white_space(s.last()) {
        trim_end(s.drop_last())
    } else {
        s
    }
}

/// `s` without leading and trailing white space.
pub open spec fn trim(s: Seq<char>) -> Seq<char> {
    trim_end(trim_start(s))
}

/// `s` with leading and trailing white space removed.
pub fn trim_str(s: &str) -> (r: String)
    ensures
        r@ == trim(s@),
{
    let v = chars_of(s);
    let n = v.len();
    let mut i: usize = 0;
    assert(v@.subrange(0, n as int) =~= v@);
    while i < n && white_space(v[i])
        invariant
            n == v@.len(),
            i <= n,
            trim_start(v@) == trim_start(v@.subrange(i as int, n as int)),
        decreases n - i,
    {
        assert(v@.subrange(i as int, n as int).drop_first() =~= v@.subrange(i + 1, n as int));
        i = i + 1;
    }
    let mut j: usize = n;
    while j > i && white_space(v[j - 1])
        invariant
            n == v@.len(),
            i <= j <= n,
            trim_start(v@) == v@.subrange(i as int, n as int),
            trim_end(v@.subrange(i as int, n as int)) == trim_end(v@.subrange(i as int, j as int)),
        decreases j,
    {
        assert(v@.subrange(i as int, j as int).drop_last() =~= v@.subrange(i as int, j - 1));
        j = j - 1;
    }
    string_from_range(&v, i, j)
}

// ---------------------------------------------------------------------------
// Substring search (`str::contains`)
// ---------------------------------------------------------------------------

/// `p` occurs in `s` starting at index `i`.
pub open spec fn occurs_at(s: Seq<char>, p: Seq<char>, i: int) -> bool {
    0 <= i && i + p.len() <= s.len() && s.subrange(i, i + p.len()) == p
}

/// `p` occurs somewhere in `s`.
pub open spec fn contains_seq(s: Seq<char>, p: Seq<char>) -> bool {
    exists|i: int| occurs_at(s, p, i)
}

fn matches_at(s: &Vec<char>, p: &Vec<char>, i: usize) -> (r: bool)
    requires
        i + p@.len() <= s@.len(),
    ensures
        r == (s@.subrange(i as int, i + p@.len()) == p@),
{
    let mut j: usize = 0;
    let n = s.len();
    while j < p.len()
        invariant
            n == s@.len(),
            i + p@.len() <= s@.len(),
            j <= p@.len(),
            forall|k: int| 0 <= k < j ==> s@[i + k] == p@[k],
        decreases p.len() - j,
    {
        if s[i + j] != p[j] {
            assert(s@.subrange(i as int, i + p@.len())[j as int] != p@[j as int]);
            return false;
        }
        j = j + 1;
    }
    assert(s@.subrange(i as int, i + p@.len()) =~= p@);
    true
}

/// Whether `p` occurs in `s`.
pub fn contains_chars(s: &Vec<char>, p: &Vec<char>) -> (r: bool)
    ensures
        r == contains_seq(s@, p@),
{
    if p.len() > s.len() {
        assert forall|k: int| !occurs_at(s@, p@, k) by {}
        return false;
    }
    let last = s.len() - p.len();
    let mut i: usize = 0;
    loop
        invariant
            last == s@.len() - p@.len(),
            i <= last,
            forall|k: int| 0 <= k < i ==> !occurs_at(s@, p@, k),
        ensures
            forall|k: int| 0 <= k <= last ==> !occurs_at(s@, p@, k),
        decreases last - i,
    {
        if matches_at(s, p, i) {
            assert(occurs_at(s@, p@, i as int));
            return true;
        }
        assert(!occurs_at(s@, p@, i as int));
        if i == last {
            break;
        }
        i = i + 1;
    }
    assert forall|k: int| !occurs_at(s@, p@, k) by {}
    false
}

/// Whether `pattern` occurs in `s` (`str::contains` with a string pattern).
pub fn contains_str(s: &str, pattern: &str) -> (r: bool)
    ensures
        r == contains_seq(s@, pattern@),
{
    let a = chars_of(s);
    let b = chars_of(pattern);
    contains_chars(&a, &b)
}

// ---------------------------------------------------------------------------
// The last line of a text (`str::lines().last()`)
// ---------------------------------------------------------------------------

/// The last of the lines of `s` as `str::lines` yields them: lines end at `\n`, a final
/// `\n` ends the last line rather than starting an empty one, and a line that a `\n`
/// ends loses one `\r` before it. `None` when `s` is empty (there are no lines).
pub open spec fn last_line(s: Seq<char>) -> Option<Seq<char>> {
    if s.len() == 0 {
        None
    } else {
        let terminated = s.last() == '\n';
        let t = if terminated {
            s.drop_last()
        } else {
            s
        };
        let line = t.subrange(last_index_in(t, '\n', 0, t.len() as int) + 1, t.len() as int);
        if terminated && line.len() > 0 && line.last() == '\r' {
            Some(line.drop_last())
        } else {
            Some(line)
        }
    }
}

/// The last line of `s`, or `None` when `s` has no lines.
pub fn last_line_of(s: &str) -> (r: Option<String>)
    ensures
        match r {
            Some(line) => last_line(s@) == Some(line@),
            None => last_line(s@) is None,
        },
{
    let v = chars_of(s);
    let n = v.len();
    if n == 0 {
        return None;
    }
    let terminated = v[n - 1] == '\n';
    let end = if terminated {
        n - 1
    } else {
        n
    };
    let ghost t = if terminated {
        v@.drop_last()
    } else {
        v@
    };
    assert(t =~= v@.subrange(0, end as int));
    let start = after_last(&v, '\n', 0, end);
    proof {
        lemma_last_index_in_prefix(v@, '\n', end as int);
    }
    let mut stop = end;
    if terminated && end > start && v[end - 1] == '\r' {
        stop = end - 1;
    }
    let line = string_from_range(&v, start, stop);
    proof {
        let l = t.subrange(last_index_in(t, '\n', 0, t.len() as int) + 1, t.len() as int);
        assert(l =~= v@.subrange(start as int, end as int));
        if terminated && end > start && v@[end - 1] == '\r' {
            assert(l.drop_last() =~= v@.subrange(start as int, stop as int));
        }
    }
    Some(line)
}

/// Searching a prefix of `s` gives the same index as searching the same range of `s`.
proof fn lemma_last_index_in_prefix(s: Seq<char>, c: char, end: int)
    requires
        0 <= end <= s.len(),
    ensures
        last_index_in(s.subrange(0, end), c, 0, end) == last_index_in(s, c, 0, end),
    decreases end,
{
    if end > 0 {
        lemma_last_index_in_prefix(s, c, end - 1);
        lemma_last_index_in_prefix_shift(s, c, end, end - 1);
    }
}

proof fn lemma_last_index_in_prefix_shift(s: Seq<char>, c: char, end: int, hi: int)
    requires
        0 <= hi <= end <= s.len(),
    ensures
        last_index_in(s.subrange(0, end), c, 0, hi) == last_index_in(s, c, 0, hi),
    decreases hi,
{
    if hi > 0 {
        lemma_last_index_in_prefix_shift(s, c, end, hi - 1);
    }
}

// ---------------------------------------------------------------------------
// Decimal notation
// ---------------------------------------------------------------------------

/// The decimal digit for `d`.
pub open spec fn digit_char(d: nat) -> char {
    if d == 0 {
        '0'
    } else if d == 1 {
        '1'
    } else if d == 2 {
        '2'
    } else if d == 3 {
        '3'
    } else if d == 4 {
        '4'
    } else if d == 5 {
        '5'
    } else if d == 6 {
        '6'
    } else if d == 7 {
        '7'
    } else if d == 8 {
        '8'
    } else {
        '9'
    }
}

/// `n` written in decimal, without leading zeros.
pub open spec fn decimal(n: nat) -> Seq<char>
    decreases n,
{
    if n < 10 {
        seq![digit_char(n)]
    } else {
        decimal(n / 10).push(digit_char(n % 10))
    }
}

fn digit(d: usize) -> (c: char)
    requires
        d < 10,
    ensures
        c == digit_char(d as nat),
{
    if d == 0 {
        '0'
    } else if d == 1 {
        '1'
    } else if d == 2 {
        '2'
    } else if d == 3 {
        '3'
    } else if d == 4 {
        '4'
    } else if d == 5 {
        '5'
    } else if d == 6 {
        '6'
    } else if d == 7 {
        '7'
    } else if d == 8 {
        '8'
    } else {
        '9'
    }
}

fn push_decimal(n: usize, out: &mut String)
    ensures
        final(out)@ == old(out)@ + decimal(n as nat),
    decreases n,
{
    if n < 10 {
        push_char(out, digit(n));
        assert(decimal(n as nat) =~= seq![digit_char(n as nat)]);
    } else {
        push_decimal(n / 10, out);
        push_char(out, digit(n % 10));
    }
}

/// `n` written in decimal (`usize::to_string`).
pub fn decimal_string(n: usize) -> (s: String)
    ensures
        s@ == decimal(n as nat),
{
    let mut s = String::new();
    push_decimal(n, &mut s);
    assert(s@ =~= decimal(n as nat));
    s
}

} // verus!

verus! {

/// `n` copies of `c` (`str::repeat` on a one-character string).
pub fn repeat_char(c: char, n: usize) -> (r: String)
    ensures
        r@.len() == n,
        forall|i: int| 0 <= i < n ==> r@[i] == c,
{
    let mut r = String::new();
    let mut i: usize = 0;
    while i < n
        invariant
            i <= n,
            r@.len() == i,
            forall|k: int| 0 <= k < i ==> r@[k] == c,
        decreases n - i,
    {
        push_char(&mut r, c);
        i = i + 1;
    }
    r
}

} // verus!

verus! {

// ---------------------------------------------------------------------------
// What trimming keeps
// ---------------------------------------------------------------------------

/// `trim_start(s)` is `s` from its first character that is not white space.
proof fn lemma_trim_start_split(s: Seq<char>) -> (i: int)
    ensures
        0 <= i <= s.len(),
        trim_start(s) == s.subrange(i, s.len() as int),
        forall|k: int| 0 <= k < i ==> is_white_space(#[trigger] s[k]),
        i < s.len() ==> !is_white_space(s[i]),
    decreases s.len(),
{
    if s.len() > 0 && is_white_space(s[0]) {
        let i1 = lemma_trim_start_split(s.drop_first());
        assert(s.drop_first().subrange(i1, s.drop_first().len() as int) =~= s.subrange(
            i1 + 1,
            s.len() as int,
        ));
        assert forall|k: int| 0 <= k < i1 + 1 implies is_white_space(#[trigger] s[k]) by {
            if k > 0 {
                assert(s[k] == s.drop_first()[k - 1]);
            }
        }
        i1 + 1
    } else {
        assert(s.subrange(0, s.len() as int) =~= s);
        0
    }
}

/// `trim_end(s)` is `s` up to its last character that is not white space.
proof fn lemma_trim_end_split(s: Seq<char>) -> (j: int)
    ensures
        0 <= j <= s.len(),
        trim_end(s) == s.subrange(0, j),
        forall|k: int| j <= k < s.len() ==> is_white_space(#[trigger] s[k]),
        j > 0 ==> !is_white_space(s[j - 1]),
    decreases s.len(),
{
    if s.len() > 0 && is_white_space(s.last()) {
        let j1 = lemma_trim_end_split(s.drop_last());
        assert(s.drop_last().subrange(0, j1) =~= s.subrange(0, j1));
        assert forall|k: int| j1 <= k < s.len() implies is_white_space(#[trigger] s[k]) by {
            if k < s.len() - 1 {
                assert(s[k] == s.drop_last()[k]);
            }
        }
        j1
    } else {
        assert(s.subrange(0, s.len() as int) =~= s);
        s.len() as int
    }
}

/// Trimming keeps a stretch of `s` that has only white space before and after it, and that
/// is empty or starts and ends with a character that is not white space.
pub proof fn law_trim_keeps_inner(s: Seq<char>)
    ensures
        exists|i: int, j: int|
            {
                &&& 0 <= i <= j <= s.len()
                &&& trim(s) == s.subrange(i, j)
                &&& forall|k: int| 0 <= k < i ==> is_white_space(#[trigger] s[k])
                &&& forall|k: int| j <= k < s.len() ==> is_white_space(#[trigger] s[k])
                &&& i < j ==> !is_white_space(s[i]) && !is_white_space(s[j - 1])
            },
{
    let i = lemma_trim_start_split(s);
    let t = s.subrange(i, s.len() as int);
    let j1 = lemma_trim_end_split(t);
    let j = i + j1;
    assert(t.subrange(0, j1) =~= s.subrange(i, j));
    assert forall|k: int| j <= k < s.len() implies is_white_space(#[trigger] s[k]) by {
        assert(s[k] == t[k - i]);
    }
    if i < j {
        assert(s[i] == t[0]);
        assert(s[j - 1] == t[j1 - 1]);
    }
}

/// Dropping white space from the end of a text does not change what trimming keeps.
pub proof fn law_trim_ignores_trailing_space(s: Seq<char>)
    requires
        s.len() > 0,
        is_white_space(s.last()),
    ensures
        trim(s.drop_last()) == trim(s),
{
    lemma_trim_start_drop_last(s);
    let a = trim_start(s);
    if a.len() > 0 {
        assert(a.last() == s.last());
        assert(trim_end(a) == trim_end(a.drop_last()));
    } else {
        assert(trim_start(s.drop_last()).len() == 0);
    }
}

/// Trimming the start of a text whose last character is white space, with or without that
/// character.
proof fn lemma_trim_start_drop_last(s: Seq<char>)
    requires
        s.len() > 0,
        is_white_space(s.last()),
    ensures
        trim_start(s).len() > 0 ==> trim_start(s.drop_last()) == trim_start(s).drop_last()
            && trim_start(s).last() == s.last(),
        trim_start(s).len() == 0 ==> trim_start(s.drop_last()).len() == 0,
    decreases s.len(),
{
    if is_white_space(s[0]) {
        if s.len() == 1 {
            assert(s.drop_first().len() == 0);
            assert(s.drop_last().len() == 0);
        } else {
            assert(s.drop_first().last() == s.last());
            lemma_trim_start_drop_last(s.drop_first());
            assert(s.drop_last().drop_first() =~= s.drop_first().drop_last());
            assert(s.drop_last()[0] == s[0]);
            assert(trim_start(s.drop_last()) == trim_start(s.drop_last().drop_first()));
            assert(trim_start(s) == trim_start(s.drop_first()));
        }
    } else {
        assert(s.len() >= 2);
        assert(s.drop_last()[0] == s[0]);
        assert(trim_start(s.drop_last()) == s.drop_last());
        assert(trim_start(s) == s);
    }
}

} // verus!

verus! {

// ---------------------------------------------------------------------------
// Laws of search, lines and decimal notation
// ---------------------------------------------------------------------------

/// A text that holds `p` between two other texts contains `p`.
pub proof fn law_contains_embedded(a: Seq<char>, p: Seq<char>, b: Seq<char>)
    ensures
        contains_seq(a + p + b, p),
{
    assert((a + p + b).subrange(a.len() as int, (a.len() + p.len()) as int) =~= p);
    assert(occurs_at(a + p + b, p, a.len() as int));
}

/// A text contains `p` only when it is made of some text, then `p`, then some text.
pub proof fn law_contains_splits(s: Seq<char>, p: Seq<char>)
    requires
        contains_seq(s, p),
    ensures
        exists|a: Seq<char>, b: Seq<char>| s == a + p + b,
{
    let i = choose|i: int| occurs_at(s, p, i);
    let a = s.subrange(0, i);
    let b = s.subrange(i + p.len(), s.len() as int);
    assert(s =~= a + p + b);
}

/// Where the last `c` of `x + y` is: in `y` if `y` has one, else in `x`.
proof fn lemma_last_index_concat(x: Seq<char>, y: Seq<char>, c: char, hy: int)
    requires
        0 <= hy <= y.len(),
    ensures
        last_index_in(x + y, c, 0, x.len() + hy) == if last_index_in(y, c, 0, hy) >= 0 {
            x.len() + last_index_in(y, c, 0, hy)
        } else {
            last_index_in(x, c, 0, x.len() as int)
        },
    decreases hy,
{
    if hy > 0 {
        lemma_last_index_concat(x, y, c, hy - 1);
        assert((x + y)[x.len() + hy - 1] == y[hy - 1]);
        lemma_last_index_in(y, c, 0, hy - 1);
    } else {
        lemma_last_index_prefix_concat(x, y, c, x.len() as int);
    }
}

proof fn lemma_last_index_prefix_concat(x: Seq<char>, y: Seq<char>, c: char, h: int)
    requires
        0 <= h <= x.len(),
    ensures
        last_index_in(x + y, c, 0, h) == last_index_in(x, c, 0, h),
    decreases h,
{
    if h > 0 {
        lemma_last_index_prefix_concat(x, y, c, h - 1);
    }
}

/// The last line of a text is the last line of what follows its last line break, when
/// something follows it.
pub proof fn law_last_line_after_break(a: Seq<char>, b: Seq<char>)
    requires
        b.len() > 0,
    ensures
        last_line(a + seq!['\n'] + b) == last_line(b),
{
    let x = a + seq!['\n'];
    let s = x + b;
    assert(a + seq!['\n'] + b == s);
    assert(s.last() == b.last());
    let terminated = b.last() == '\n';
    let hb = if terminated {
        b.len() - 1
    } else {
        b.len() as int
    };
    let tb = b.subrange(0, hb);
    let ts = if terminated {
        s.drop_last()
    } else {
        s
    };
    assert(ts =~= x + tb);
    lemma_last_index_concat(x, tb, '\n', tb.len() as int);
    lemma_last_index_in(tb, '\n', 0, tb.len() as int);
    assert(last_index_in(x, '\n', 0, x.len() as int) == a.len());
    let kb = last_index_in(tb, '\n', 0, tb.len() as int);
    let ks = last_index_in(ts, '\n', 0, ts.len() as int);
    assert(ts.subrange(ks + 1, ts.len() as int) =~= tb.subrange(kb + 1, tb.len() as int));
    if terminated {
        assert(tb =~= b.drop_last());
    } else {
        assert(tb =~= b);
    }
}

/// A digit stands for its value.
proof fn lemma_digit_value(d: nat)
    requires
        d < 10,
    ensures
        digit_char(d) as int - '0' as int == d,
        '0' <= digit_char(d) <= '9',
{
}

/// The value of a text of decimal digits, read from left to right.
pub open spec fn digits_value(s: Seq<char>) -> int
    decreases s.len(),
{
    if s.len() == 0 {
        0
    } else {
        digits_value(s.drop_last()) * 10 + (s.last() as int - '0' as int)
    }
}

/// Reading `n` written in decimal gives `n` back, and the notation is all digits, with no
/// leading zero unless it is `0`.
pub proof fn law_decimal_reads_back(n: nat)
    ensures
        digits_value(decimal(n)) == n,
        decimal(n).len() > 0,
        forall|i: int| 0 <= i < decimal(n).len() ==> '0' <= #[trigger] decimal(n)[i] <= '9',
        decimal(n)[0] == '0' ==> n == 0,
    decreases n,
{
    lemma_digit_value((n % 10) as nat);
    if n < 10 {
        assert(decimal(n).drop_last() =~= Seq::<char>::empty());
        assert(n % 10 == n);
        assert(decimal(n).last() == digit_char(n));
        assert(digits_value(decimal(n)) == digits_value(decimal(n).drop_last()) * 10 + (
        decimal(n).last() as int - '0' as int));
        assert(digits_value(Seq::<char>::empty()) == 0);
    } else {
        law_decimal_reads_back(n / 10);
        assert(n == (n / 10) * 10 + n % 10);
        assert(decimal(n).last() == digit_char(n % 10));
        assert(digits_value(decimal(n)) == digits_value(decimal(n).drop_last()) * 10 + (
        decimal(n).last() as int - '0' as int));
        let d = decimal(n / 10);
        assert(decimal(n).drop_last() =~= d);
        assert forall|i: int| 0 <= i < decimal(n).len() implies '0' <= #[trigger] decimal(n)[i]
            <= '9' by {
            if i < d.len() {
                assert(decimal(n)[i] == d[i]);
            }
        }
        assert(decimal(n)[0] == d[0]);
    }
}

} // verus!
