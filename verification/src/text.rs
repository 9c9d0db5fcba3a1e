//! Character-level text utilities with their mathematical models.
use vstd::prelude::*;

verus! {

/// `c` is a Unicode `White_Space` character (what `char::is_whitespace` tests).
pub open spec fn is_whitespace(c: char) -> bool {
    ||| c == ' '
    ||| ('\t' <= c && c <= '\r')
    ||| c == '\u{85}'
    ||| c == '\u{a0}'
    ||| c == '\u{1680}'
    ||| ('\u{2000}' <= c && c <= '\u{200a}')
    ||| c == '\u{2028}'
    ||| c == '\u{2029}'
    ||| c == '\u{202f}'
    ||| c == '\u{205f}'
    ||| c == '\u{3000}'
}

/// `s` without its leading whitespace.
pub open spec fn trim_start(s: Seq<char>) -> Seq<char>
    decreases s.len(),
{
    if s.len() > 0 && is_whitespace(s[0]) {
        trim_start(s.drop_first())
    } else {
        s
    }
}

/// `s` without its trailing whitespace.
pub open spec fn trim_end(s: Seq<char>) -> Seq<char>
    decreases s.len(),
{
    if s.len() > 0 && is_whitespace(s.last()) {
        trim_end(s.drop_last())
    } else {
        s
    }
}

/// `s` without leading and trailing whitespace (what `str::trim` gives).
pub open spec fn trim(s: Seq<char>) -> Seq<char> {
    trim_end(trim_start(s))
}

/// Tests whether `c` is whitespace.
pub fn is_whitespace_char(c: char) -> (r: bool)
    ensures
        r == is_whitespace(c),
{
    c == ' ' || ('\t' <= c && c <= '\r') || c == '\u{85}' || c == '\u{a0}' || c == '\u{1680}' || (
    '\u{2000}' <= c && c <= '\u{200a}') || c == '\u{2028}' || c == '\u{2029}' || c == '\u{202f}'
        || c == '\u{205f}' || c == '\u{3000}'
}

/// The characters of `s`, in order.
pub fn chars_of(s: &str) -> (r: Vec<char>)
    ensures
        r@ == s@,
{
    let mut r: Vec<char> = Vec::new();
    for c in it: s.chars()
        invariant
            r@ == it.seq().take(it.index() as int),
            it.seq() == s@,
    {
        r.push(c);
    }
    r
}

/// Appends one character to a string (`String::push`).
#[verifier::external_body]
pub(crate) fn push_char(s: &mut String, c: char)
    ensures
        final(s)@ == old(s)@.push(c),
{
    s.push(c);
}

/// The string made of `v[lo..hi]`.
pub fn string_of(v: &Vec<char>, lo: usize, hi: usize) -> (r: String)
    requires
        lo <= hi <= v.len(),
    ensures
        r@ == v@.subrange(lo as int, hi as int),
{
    let mut r = String::new();
    let mut i = lo;
    while i < hi
        invariant
            lo <= i <= hi <= v.len(),
            r@ == v@.subrange(lo as int, i as int),
        decreases hi - i,
    {
        push_char(&mut r, v[i]);
        i = i + 1;
        assert(r@ == v@.subrange(lo as int, i as int));
    }
    r
}

/// The bounds of `v[lo..hi]` with surrounding whitespace removed.
pub fn trim_bounds(v: &Vec<char>, lo: usize, hi: usize) -> (r: (usize, usize))
    requires
        lo <= hi <= v.len(),
    ensures
        lo <= r.0 <= r.1 <= hi,
        v@.subrange(r.0 as int, r.1 as int) == trim(v@.subrange(lo as int, hi as int)),
{
    let mut a = lo;
    while a < hi && is_whitespace_char(v[a])
        invariant
            lo <= a <= hi <= v.len(),
            trim_start(v@.subrange(lo as int, hi as int)) == trim_start(v@.subrange(a as int, hi as int)),
        decreases hi - a,
    {
        assert(v@.subrange(a as int, hi as int).drop_first() =~= v@.subrange(a + 1, hi as int));
        a = a + 1;
    }
    assert(trim_start(v@.subrange(a as int, hi as int)) == v@.subrange(a as int, hi as int));
    let mut b = hi;
    while b > a && is_whitespace_char(v[b - 1])
        invariant
            lo <= a <= b <= hi <= v.len(),
            trim(v@.subrange(lo as int, hi as int)) == trim_end(v@.subrange(a as int, b as int)),
        decreases b - a,
    {
        assert(v@.subrange(a as int, b as int).drop_last() =~= v@.subrange(a as int, b - 1));
        b = b - 1;
    }
    (a, b)
}

/// `c` is one of the separators `a` and `b`.
pub open spec fn is_sep(c: char, a: char, b: char) -> bool {
    c == a || c == b
}

/// The index of the first separator in `s`, or the length of `s` where there is none.
pub open spec fn sep_index(s: Seq<char>, a: char, b: char) -> int
    decreases s.len(),
{
    if s.len() == 0 {
        0
    } else if is_sep(s[0], a, b) {
        0
    } else {
        1 + sep_index(s.drop_first(), a, b)
    }
}

/// `sep_index` is the position of the first separator.
pub proof fn lemma_sep_index(s: Seq<char>, a: char, b: char)
    ensures
        0 <= sep_index(s, a, b) <= s.len(),
        sep_index(s, a, b) < s.len() ==> is_sep(s[sep_index(s, a, b)], a, b),
        forall|j: int| 0 <= j < sep_index(s, a, b) ==> !is_sep(#[trigger] s[j], a, b),
    decreases s.len(),
{
    if s.len() > 0 && !is_sep(s[0], a, b) {
        lemma_sep_index(s.drop_first(), a, b);
        assert forall|j: int| 0 <= j < sep_index(s, a, b) implies !is_sep(#[trigger] s[j], a, b) by {
            if j > 0 {
                assert(s[j] == s.drop_first()[j - 1]);
            }
        }
    }
}

/// A position with no separator before it, at a separator or at the end, is `sep_index`.
pub proof fn lemma_sep_index_at(s: Seq<char>, a: char, b: char, i: int)
    requires
        0 <= i <= s.len(),
        i < s.len() ==> is_sep(s[i], a, b),
        forall|j: int| 0 <= j < i ==> !is_sep(#[trigger] s[j], a, b),
    ensures
        sep_index(s, a, b) == i,
    decreases s.len(),
{
    if s.len() > 0 && i > 0 {
        assert(!is_sep(s[0], a, b));
        assert forall|j: int| 0 <= j < i - 1 implies !is_sep(#[trigger] s.drop_first()[j], a, b) by {
            assert(s.drop_first()[j] == s[j + 1]);
        }
        lemma_sep_index_at(s.drop_first(), a, b, i - 1);
    }
}

/// The pieces of `s` between separators (what `str::split` yields; at least one piece).
pub open spec fn pieces(s: Seq<char>, a: char, b: char) -> Seq<Seq<char>>
    decreases s.len(),
{
    let i = sep_index(s, a, b);
    proof {
        lemma_sep_index(s, a, b);
    }
    if i < s.len() {
        seq![s.take(i)] + pieces(s.skip(i + 1), a, b)
    } else {
        seq![s]
    }
}

/// The text before and after the first `c` in `s`, if there is one (`str::split_once`).
pub open spec fn split_once(s: Seq<char>, c: char) -> Option<(Seq<char>, Seq<char>)> {
    let i = sep_index(s, c, c);
    if i < s.len() {
        Some((s.take(i), s.skip(i + 1)))
    } else {
        None
    }
}

/// The position in `v[lo..hi]` of the first `a` or `b`, or `hi` where there is none.
pub fn find_sep(v: &Vec<char>, lo: usize, hi: usize, a: char, b: char) -> (r: usize)
    requires
        lo <= hi <= v.len(),
    ensures
        lo <= r <= hi,
        r == lo + sep_index(v@.subrange(lo as int, hi as int), a, b),
{
    let mut i = lo;
    while i < hi && v[i] != a && v[i] != b
        invariant
            lo <= i <= hi <= v.len(),
            forall|j: int| lo <= j < i ==> !is_sep(#[trigger] v@[j], a, b),
        decreases hi - i,
    {
        i = i + 1;
    }
    proof {
        let s = v@.subrange(lo as int, hi as int);
        assert forall|j: int| 0 <= j < i - lo implies !is_sep(#[trigger] s[j], a, b) by {
            assert(s[j] == v@[lo + j]);
        }
        lemma_sep_index_at(s, a, b, i - lo);
    }
    i
}

/// The code of `c` with ASCII upper-case letters made lower-case.
pub open spec fn ascii_lower(c: char) -> int {
    if 'A' <= c && c <= 'Z' {
        (c as int) + 32
    } else {
        c as int
    }
}

/// `x` and `y` are equal when ASCII letter case is ignored (`str::eq_ignore_ascii_case`).
pub open spec fn eq_icase(x: Seq<char>, y: Seq<char>) -> bool {
    &&& x.len() == y.len()
    &&& forall|i: int| 0 <= i < x.len() ==> ascii_lower(#[trigger] x[i]) == ascii_lower(y[i])
}

/// Compares two characters with ASCII letter case ignored.
pub fn char_eq_icase(x: char, y: char) -> (r: bool)
    ensures
        r == (ascii_lower(x) == ascii_lower(y)),
{
    let a: u32 = if 'A' <= x && x <= 'Z' {
        (x as u32) + 32
    } else {
        x as u32
    };
    let b: u32 = if 'A' <= y && y <= 'Z' {
        (y as u32) + 32
    } else {
        y as u32
    };
    a == b
}

/// Tests whether `v[lo..hi]` equals `pat` with ASCII letter case ignored.
pub fn eq_icase_at(v: &Vec<char>, lo: usize, hi: usize, pat: &[char]) -> (r: bool)
    requires
        lo <= hi <= v.len(),
    ensures
        r == eq_icase(v@.subrange(lo as int, hi as int), pat@),
{
    if hi - lo != pat.len() {
        return false;
    }
    let mut i: usize = 0;
    while i < pat.len()
        invariant
            hi - lo == pat@.len(),
            lo <= hi <= v.len(),
            i <= pat@.len(),
            forall|j: int| 0 <= j < i ==> ascii_lower(#[trigger] v@[lo + j]) == ascii_lower(pat@[j]),
        decreases pat@.len() - i,
    {
        if !char_eq_icase(v[lo + i], pat[i]) {
            assert(v@.subrange(lo as int, hi as int)[i as int] == v@[lo + i]);
            return false;
        }
        i = i + 1;
    }
    assert forall|j: int| 0 <= j < hi - lo implies ascii_lower(#[trigger] v@.subrange(lo as int, hi as int)[j]) == ascii_lower(pat@[j]) by {
        assert(v@.subrange(lo as int, hi as int)[j] == v@[lo + j]);
    }
    true
}

/// No character of `s` is whitespace.
pub open spec fn no_ws(s: Seq<char>) -> bool {
    forall|i: int| 0 <= i < s.len() ==> !is_whitespace(#[trigger] s[i])
}

/// No character of `s` is one of the separators `a` and `b`.
pub open spec fn no_sep(s: Seq<char>, a: char, b: char) -> bool {
    forall|i: int| 0 <= i < s.len() ==> !is_sep(#[trigger] s[i], a, b)
}

/// Trimming text without whitespace leaves it as it is.
pub proof fn lemma_trim_no_ws(s: Seq<char>)
    requires
        no_ws(s),
    ensures
        trim(s) == s,
{
    assert(trim_start(s) == s);
    assert(trim_end(s) == s);
}

/// A text without separators is a single piece.
pub proof fn lemma_pieces_whole(s: Seq<char>, a: char, b: char)
    requires
        no_sep(s, a, b),
    ensures
        pieces(s, a, b) == seq![s],
        sep_index(s, a, b) == s.len(),
{
    lemma_sep_index_at(s, a, b, s.len() as int);
    lemma_sep_index(s, a, b);
}

/// The pieces of `x`, a separator, then `y`: `x`, then the pieces of `y`, where `x` has
/// no separator.
pub proof fn lemma_pieces_cons(x: Seq<char>, c: char, y: Seq<char>, a: char, b: char)
    requires
        no_sep(x, a, b),
        is_sep(c, a, b),
    ensures
        pieces(x + seq![c] + y, a, b) == seq![x] + pieces(y, a, b),
        sep_index(x + seq![c] + y, a, b) == x.len(),
{
    let s = x + seq![c] + y;
    assert forall|j: int| 0 <= j < x.len() implies !is_sep(#[trigger] s[j], a, b) by {
        assert(s[j] == x[j]);
    }
    assert(s[x.len() as int] == c);
    lemma_sep_index_at(s, a, b, x.len() as int);
    lemma_sep_index(s, a, b);
    assert(s.take(x.len() as int) =~= x);
    assert(s.skip(x.len() as int + 1) =~= y);
}

/// Splitting `x`, `c`, `y` at its first `c`, where `x` has none, gives `x` and `y`.
pub proof fn lemma_split_once_cons(x: Seq<char>, c: char, y: Seq<char>)
    requires
        no_sep(x, c, c),
    ensures
        split_once(x + seq![c] + y, c) == Some((x, y)),
{
    lemma_pieces_cons(x, c, y, c, c);
    let s = x + seq![c] + y;
    assert(s.take(x.len() as int) =~= x);
    assert(s.skip(x.len() as int + 1) =~= y);
}

/// `trim_start` drops a prefix: what is left starts with no whitespace.
pub proof fn lemma_trim_start(s: Seq<char>)
    ensures
        trim_start(s).len() <= s.len(),
        trim_start(s) == s.skip(s.len() - trim_start(s).len()),
        trim_start(s).len() == 0 || !is_whitespace(trim_start(s)[0]),
    decreases s.len(),
{
    if s.len() > 0 && is_whitespace(s[0]) {
        lemma_trim_start(s.drop_first());
        let t = trim_start(s.drop_first());
        assert(s.drop_first().skip(s.drop_first().len() - t.len()) =~= s.skip(s.len() - t.len()));
    } else {
        assert(s.skip(0) =~= s);
    }
}

/// `trim_end` drops a suffix: what is left ends with no whitespace.
pub proof fn lemma_trim_end(s: Seq<char>)
    ensures
        trim_end(s).len() <= s.len(),
        trim_end(s) == s.take(trim_end(s).len() as int),
        trim_end(s).len() == 0 || !is_whitespace(trim_end(s).last()),
    decreases s.len(),
{
    if s.len() > 0 && is_whitespace(s.last()) {
        lemma_trim_end(s.drop_last());
        let t = trim_end(s.drop_last());
        assert(s.drop_last().take(t.len() as int) =~= s.take(t.len() as int));
    } else {
        assert(s.take(s.len() as int) =~= s);
    }
}

/// Trimming trimmed text changes nothing.
pub proof fn lemma_trim_trim(s: Seq<char>)
    ensures
        trim(trim(s)) == trim(s),
{
    let a = trim_start(s);
    let t = trim_end(a);
    lemma_trim_start(s);
    lemma_trim_end(a);
    if t.len() > 0 {
        assert(t[0] == a[0]);
    }
    assert(trim_start(t) == t);
    assert(trim_end(t) == t);
}

} // verus!
