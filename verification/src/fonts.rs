//! Names of fonts: the standard fourteen fonts and their abbreviations, the CJK fonts, and
//! base font names with a subset tag.
use vstd::prelude::*;
use crate::text::{ascii_lower, chars_of, eq_icase, eq_icase_at, split_once, string_of};

verus! {

/// The character collections of the CJK fonts.
#[derive(Clone, Copy, Debug, PartialEq, Eq, Structural)]
pub enum CjkFontOrdering {
    /// Traditional Chinese (Adobe-CNS1).
    AdobeCns,
    /// Simplified Chinese (Adobe-GB1).
    AdobeGb,
    /// Japanese (Adobe-Japan1).
    AdobeJapan,
    /// Korean (Adobe-Korea1).
    AdobeKorea,
}

/// `s` without its leading `/` characters.
pub open spec fn strip_slashes(s: Seq<char>) -> Seq<char>
    decreases s.len(),
{
    if s.len() > 0 && s[0] == '/' {
        strip_slashes(s.drop_first())
    } else {
        s
    }
}

/// The name of the standard font that a font name stands for (after its leading `/`s,
/// letter case ignored): the full name or its four- or six-letter abbreviation.
pub open spec fn base14_name(name: Seq<char>) -> Option<Seq<char>> {
    let k = strip_slashes(name);
    if eq_icase(k, seq!['h', 'e', 'l', 'v']) || eq_icase(k, seq!['h', 'e', 'l', 'v', 'e', 't', 'i', 'c', 'a']) {
        Some("Helvetica"@)
    } else if eq_icase(k, seq!['h', 'e', 'i', 't']) || eq_icase(k, seq!['h', 'e', 'l', 'v', 'e', 't', 'i', 'c', 'a', '-', 'o', 'b', 'l', 'i', 'q', 'u', 'e']) {
        Some("Helvetica-Oblique"@)
    } else if eq_icase(k, seq!['h', 'e', 'b', 'o']) || eq_icase(k, seq!['h', 'e', 'l', 'v', 'e', 't', 'i', 'c', 'a', '-', 'b', 'o', 'l', 'd']) {
        Some("Helvetica-Bold"@)
    } else if eq_icase(k, seq!['h', 'e', 'b', 'o', 'i', 't']) || eq_icase(k, seq!['h', 'e', 'l', 'v', 'e', 't', 'i', 'c', 'a', '-', 'b', 'o', 'l', 'd', 'o', 'b', 'l', 'i', 'q', 'u', 'e']) {
        Some("Helvetica-BoldOblique"@)
    } else if eq_icase(k, seq!['c', 'o', 'u', 'r']) || eq_icase(k, seq!['c', 'o', 'u', 'r', 'i', 'e', 'r']) {
        Some("Courier"@)
    } else if eq_icase(k, seq!['c', 'o', 'i', 't']) || eq_icase(k, seq!['c', 'o', 'u', 'r', 'i', 'e', 'r', '-', 'o', 'b', 'l', 'i', 'q', 'u', 'e']) {
        Some("Courier-Oblique"@)
    } else if eq_icase(k, seq!['c', 'o', 'b', 'o']) || eq_icase(k, seq!['c', 'o', 'u', 'r', 'i', 'e', 'r', '-', 'b', 'o', 'l', 'd']) {
        Some("Courier-Bold"@)
    } else if eq_icase(k, seq!['c', 'o', 'b', 'o', 'i', 't']) || eq_icase(k, seq!['c', 'o', 'u', 'r', 'i', 'e', 'r', '-', 'b', 'o', 'l', 'd', 'o', 'b', 'l', 'i', 'q', 'u', 'e']) {
        Some("Courier-BoldOblique"@)
    } else if eq_icase(k, seq!['t', 'i', 'r', 'o']) || eq_icase(k, seq!['t', 'i', 'm', 'e', 's', '-', 'r', 'o', 'm', 'a', 'n']) {
        Some("Times-Roman"@)
    } else if eq_icase(k, seq!['t', 'i', 'b', 'o']) || eq_icase(k, seq!['t', 'i', 'm', 'e', 's', '-', 'b', 'o', 'l', 'd']) {
        Some("Times-Bold"@)
    } else if eq_icase(k, seq!['t', 'i', 'i', 't']) || eq_icase(k, seq!['t', 'i', 'm', 'e', 's', '-', 'i', 't', 'a', 'l', 'i', 'c']) {
        Some("Times-Italic"@)
    } else if eq_icase(k, seq!['t', 'i', 'b', 'i']) || eq_icase(k, seq!['t', 'i', 'm', 'e', 's', '-', 'b', 'o', 'l', 'd', 'i', 't', 'a', 'l', 'i', 'c']) {
        Some("Times-BoldItalic"@)
    } else if eq_icase(k, seq!['s', 'y', 'm', 'b']) || eq_icase(k, seq!['s', 'y', 'm', 'b', 'o', 'l']) {
        Some("Symbol"@)
    } else if eq_icase(k, seq!['z', 'a', 'd', 'b']) || eq_icase(k, seq!['z', 'a', 'p', 'f', 'd', 'i', 'n', 'g', 'b', 'a', 't', 's']) {
        Some("ZapfDingbats"@)
    } else {
        None
    }
}

/// The CJK character collection that a font name stands for (after its leading `/`s,
/// letter case ignored).
pub open spec fn cjk_ordering(name: Seq<char>) -> Option<CjkFontOrdering> {
    let k = strip_slashes(name);
    if eq_icase(k, seq!['c', 'h', 'i', 'n', 'a', '-', 't']) {
        Some(CjkFontOrdering::AdobeCns)
    } else if eq_icase(k, seq!['c', 'h', 'i', 'n', 'a', '-', 's']) {
        Some(CjkFontOrdering::AdobeGb)
    } else if eq_icase(k, seq!['j', 'a', 'p', 'a', 'n']) {
        Some(CjkFontOrdering::AdobeJapan)
    } else if eq_icase(k, seq!['k', 'o', 'r', 'e', 'a']) {
        Some(CjkFontOrdering::AdobeKorea)
    } else {
        None
    }
}

/// The font name of a CJK character collection.
pub open spec fn cjk_name(ordering: CjkFontOrdering) -> Seq<char> {
    match ordering {
        CjkFontOrdering::AdobeCns => "china-t"@,
        CjkFontOrdering::AdobeGb => "china-s"@,
        CjkFontOrdering::AdobeJapan => "japan"@,
        CjkFontOrdering::AdobeKorea => "korea"@,
    }
}

/// The position of the first character of `v` that is not a `/`, and that the rest of
/// `v` from there is `strip_slashes(v)`.
fn skip_slashes(v: &Vec<char>) -> (r: usize)
    ensures
        r <= v@.len(),
        v@.subrange(r as int, v@.len() as int) == strip_slashes(v@),
{
    let mut i: usize = 0;
    proof {
        assert(v@.subrange(0, v@.len() as int) =~= v@);
    }
    while i < v.len() && v[i] == '/'
        invariant
            i <= v@.len(),
            strip_slashes(v@.subrange(i as int, v@.len() as int)) == strip_slashes(v@),
        decreases v@.len() - i,
    {
        assert(v@.subrange(i as int, v@.len() as int).drop_first() =~= v@.subrange(i + 1, v@.len() as int));
        i = i + 1;
    }
    i
}

/// The standard font that a font name stands for (see [`base14_name`]).
pub fn canonical_base14_name(name: &str) -> (r: Option<&'static str>)
    ensures
        match r {
            Some(s) => base14_name(name@) == Some(s@),
            None => base14_name(name@) is None,
        },
{
    let v = chars_of(name);
    let lo = skip_slashes(&v);
    let hi = v.len();
    if eq_icase_at(&v, lo, hi, &['h', 'e', 'l', 'v']) || eq_icase_at(&v, lo, hi, &['h', 'e', 'l', 'v', 'e', 't', 'i', 'c', 'a']) {
        return Some("Helvetica");
    }
    if eq_icase_at(&v, lo, hi, &['h', 'e', 'i', 't']) || eq_icase_at(&v, lo, hi, &['h', 'e', 'l', 'v', 'e', 't', 'i', 'c', 'a', '-', 'o', 'b', 'l', 'i', 'q', 'u', 'e']) {
        return Some("Helvetica-Oblique");
    }
    if eq_icase_at(&v, lo, hi, &['h', 'e', 'b', 'o']) || eq_icase_at(&v, lo, hi, &['h', 'e', 'l', 'v', 'e', 't', 'i', 'c', 'a', '-', 'b', 'o', 'l', 'd']) {
        return Some("Helvetica-Bold");
    }
    if eq_icase_at(&v, lo, hi, &['h', 'e', 'b', 'o', 'i', 't']) || eq_icase_at(&v, lo, hi, &['h', 'e', 'l', 'v', 'e', 't', 'i', 'c', 'a', '-', 'b', 'o', 'l', 'd', 'o', 'b', 'l', 'i', 'q', 'u', 'e']) {
        return Some("Helvetica-BoldOblique");
    }
    if eq_icase_at(&v, lo, hi, &['c', 'o', 'u', 'r']) || eq_icase_at(&v, lo, hi, &['c', 'o', 'u', 'r', 'i', 'e', 'r']) {
        return Some("Courier");
    }
    if eq_icase_at(&v, lo, hi, &['c', 'o', 'i', 't']) || eq_icase_at(&v, lo, hi, &['c', 'o', 'u', 'r', 'i', 'e', 'r', '-', 'o', 'b', 'l', 'i', 'q', 'u', 'e']) {
        return Some("Courier-Oblique");
    }
    if eq_icase_at(&v, lo, hi, &['c', 'o', 'b', 'o']) || eq_icase_at(&v, lo, hi, &['c', 'o', 'u', 'r', 'i', 'e', 'r', '-', 'b', 'o', 'l', 'd']) {
        return Some("Courier-Bold");
    }
    if eq_icase_at(&v, lo, hi, &['c', 'o', 'b', 'o', 'i', 't']) || eq_icase_at(&v, lo, hi, &['c', 'o', 'u', 'r', 'i', 'e', 'r', '-', 'b', 'o', 'l', 'd', 'o', 'b', 'l', 'i', 'q', 'u', 'e']) {
        return Some("Courier-BoldOblique");
    }
    if eq_icase_at(&v, lo, hi, &['t', 'i', 'r', 'o']) || eq_icase_at(&v, lo, hi, &['t', 'i', 'm', 'e', 's', '-', 'r', 'o', 'm', 'a', 'n']) {
        return Some("Times-Roman");
    }
    if eq_icase_at(&v, lo, hi, &['t', 'i', 'b', 'o']) || eq_icase_at(&v, lo, hi, &['t', 'i', 'm', 'e', 's', '-', 'b', 'o', 'l', 'd']) {
        return Some("Times-Bold");
    }
    if eq_icase_at(&v, lo, hi, &['t', 'i', 'i', 't']) || eq_icase_at(&v, lo, hi, &['t', 'i', 'm', 'e', 's', '-', 'i', 't', 'a', 'l', 'i', 'c']) {
        return Some("Times-Italic");
    }
    if eq_icase_at(&v, lo, hi, &['t', 'i', 'b', 'i']) || eq_icase_at(&v, lo, hi, &['t', 'i', 'm', 'e', 's', '-', 'b', 'o', 'l', 'd', 'i', 't', 'a', 'l', 'i', 'c']) {
        return Some("Times-BoldItalic");
    }
    if eq_icase_at(&v, lo, hi, &['s', 'y', 'm', 'b']) || eq_icase_at(&v, lo, hi, &['s', 'y', 'm', 'b', 'o', 'l']) {
        return Some("Symbol");
    }
    if eq_icase_at(&v, lo, hi, &['z', 'a', 'd', 'b']) || eq_icase_at(&v, lo, hi, &['z', 'a', 'p', 'f', 'd', 'i', 'n', 'g', 'b', 'a', 't', 's']) {
        return Some("ZapfDingbats");
    }
    None
}

/// The CJK character collection that a font name stands for (see [`cjk_ordering`]).
pub fn cjk_ordering_from_font_name(name: &str) -> (r: Option<CjkFontOrdering>)
    ensures
        r == cjk_ordering(name@),
{
    let v = chars_of(name);
    let lo = skip_slashes(&v);
    let hi = v.len();
    if eq_icase_at(&v, lo, hi, &['c', 'h', 'i', 'n', 'a', '-', 't']) {
        return Some(CjkFontOrdering::AdobeCns);
    }
    if eq_icase_at(&v, lo, hi, &['c', 'h', 'i', 'n', 'a', '-', 's']) {
        return Some(CjkFontOrdering::AdobeGb);
    }
    if eq_icase_at(&v, lo, hi, &['j', 'a', 'p', 'a', 'n']) {
        return Some(CjkFontOrdering::AdobeJapan);
    }
    if eq_icase_at(&v, lo, hi, &['k', 'o', 'r', 'e', 'a']) {
        return Some(CjkFontOrdering::AdobeKorea);
    }
    None
}

/// The font name of a CJK character collection.
pub fn cjk_font_name(ordering: CjkFontOrdering) -> (r: &'static str)
    ensures
        r@ == cjk_name(ordering),
{
    match ordering {
        CjkFontOrdering::AdobeCns => "china-t",
        CjkFontOrdering::AdobeGb => "china-s",
        CjkFontOrdering::AdobeJapan => "japan",
        CjkFontOrdering::AdobeKorea => "korea",
    }
}

/// `c` is an ASCII upper-case letter.
pub open spec fn is_ascii_upper(c: char) -> bool {
    'A' <= c && c <= 'Z'
}

/// A base font name without its subset tag: six upper-case ASCII letters and a `+` before
/// the name are dropped; any other name is kept as it is.
pub open spec fn normalized_base_font(name: Seq<char>) -> Seq<char> {
    match split_once(name, '+') {
        Some((tag, rest)) => if tag.len() == 6 && forall|i: int| 0 <= i < 6 ==> #[trigger] is_ascii_upper(tag[i]) {
            rest
        } else {
            name
        },
        None => name,
    }
}

/// The first six characters of `v` are upper-case ASCII letters.
fn upper_tag(v: &Vec<char>) -> (r: bool)
    requires
        v@.len() >= 6,
    ensures
        r == forall|j: int| 0 <= j < 6 ==> #[trigger] is_ascii_upper(v@[j]),
{
    let mut i: usize = 0;
    while i < 6
        invariant
            i <= 6 <= v@.len(),
            forall|j: int| 0 <= j < i ==> #[trigger] is_ascii_upper(v@[j]),
        decreases 6 - i,
    {
        if !('A' <= v[i] && v[i] <= 'Z') {
            assert(!is_ascii_upper(v@[i as int]));
            return false;
        }
        i = i + 1;
    }
    true
}

/// A base font name without its subset tag (see [`normalized_base_font`]).
pub fn normalized_base_font_name(name: &str) -> (r: String)
    ensures
        r@ == normalized_base_font(name@),
{
    let v = chars_of(name);
    let n = v.len();
    assert(v@.subrange(0, n as int) =~= v@);
    let plus = crate::text::find_sep(&v, 0, n, '+', '+');
    proof {
        crate::text::lemma_sep_index(v@, '+', '+');
    }
    let tagged = plus < n && plus == 6 && upper_tag(&v);
    proof {
        if plus == 6 && plus < n {
            assert forall|j: int| 0 <= j < 6 implies v@.take(6)[j] == v@[j] by {}
            assert(tagged == forall|j: int| 0 <= j < 6 ==> #[trigger] is_ascii_upper(v@.take(6)[j]));
        }
    }
    if tagged {
        let r = string_of(&v, 7, n);
        assert(v@.skip(7) =~= v@.subrange(7, n as int));
        return r;
    }
    string_of(&v, 0, n)
}

/// The encodings of simple fonts.
#[derive(Clone, Copy, Debug, PartialEq, Eq, Structural)]
pub enum SimpleFontEncoding {
    Latin,
    Greek,
    Cyrillic,
}

/// `t` occurs in `s`.
pub open spec fn has_infix(s: Seq<char>, t: Seq<char>) -> bool {
    exists|i: int| 0 <= i <= s.len() - t.len() && #[trigger] s.subrange(i, i + t.len()) == t
}

/// A glyph name of the Cyrillic alphabet: it holds `cyrillic` or starts with `afii10`.
pub open spec fn is_cyrillic_glyph(n: Seq<char>) -> bool {
    has_infix(n, seq!['c', 'y', 'r', 'i', 'l', 'l', 'i', 'c']) || (n.len() >= 6 && n.take(6) == seq!['a', 'f', 'i', 'i', '1', '0'])
}

/// A glyph name of the Greek alphabet that marks a Greek encoding.
pub open spec fn is_greek_glyph(n: Seq<char>) -> bool {
    n == seq!['A', 'l', 'p', 'h', 'a'] || n == seq!['B', 'e', 't', 'a'] || n == seq!['G', 'a', 'm', 'm', 'a'] || n == seq!['D', 'e', 'l', 't', 'a', 'g', 'r', 'e', 'e', 'k'] || n == seq!['O', 'm', 'e', 'g', 'a', 'g', 'r', 'e', 'e', 'k'] || n == seq!['a', 'l', 'p', 'h', 'a'] || n == seq!['b', 'e', 't', 'a'] || n == seq!['g', 'a', 'm', 'm', 'a'] || n == seq!['d', 'e', 'l', 't', 'a'] || n == seq!['m', 'u', 'g', 'r', 'e', 'e', 'k'] || n == seq!['o', 'm', 'e', 'g', 'a'] || n == seq!['t', 'o', 'n', 'o', 's']
}

/// The encoding that the glyph names of an encoding's `Differences` array mark: that of
/// the first Cyrillic or Greek name; none where there is no such name.
pub open spec fn differences_encoding(names: Seq<Seq<char>>) -> Option<SimpleFontEncoding>
    decreases names.len(),
{
    if names.len() == 0 {
        None
    } else if is_cyrillic_glyph(names[0]) {
        Some(SimpleFontEncoding::Cyrillic)
    } else if is_greek_glyph(names[0]) {
        Some(SimpleFontEncoding::Greek)
    } else {
        differences_encoding(names.drop_first())
    }
}

/// `v` is exactly `pat`.
fn eq_chars(v: &Vec<char>, pat: &[char]) -> (r: bool)
    ensures
        r == (v@ == pat@),
{
    if v.len() != pat.len() {
        return false;
    }
    let mut i: usize = 0;
    while i < pat.len()
        invariant
            i <= pat@.len() == v@.len(),
            forall|j: int| 0 <= j < i ==> v@[j] == pat@[j],
        decreases pat@.len() - i,
    {
        if v[i] != pat[i] {
            return false;
        }
        i = i + 1;
    }
    assert(v@ =~= pat@);
    true
}

/// `pat` occurs in `v` at position `i`.
fn occurs_at(v: &Vec<char>, i: usize, pat: &[char]) -> (r: bool)
    requires
        i + pat@.len() <= v@.len(),
    ensures
        r == (v@.subrange(i as int, i + pat@.len()) == pat@),
{
    let n = v.len();
    let mut j: usize = 0;
    while j < pat.len()
        invariant
            n == v@.len(),
            i + pat@.len() <= v@.len(),
            j <= pat@.len(),
            forall|k: int| 0 <= k < j ==> v@[i + k] == pat@[k],
        decreases pat@.len() - j,
    {
        if v[i + j] != pat[j] {
            assert(v@.subrange(i as int, i + pat@.len())[j as int] != pat@[j as int]);
            return false;
        }
        j = j + 1;
    }
    assert(v@.subrange(i as int, i + pat@.len()) =~= pat@);
    true
}

/// `pat` occurs in `v`.
fn holds_infix(v: &Vec<char>, pat: &[char]) -> (r: bool)
    ensures
        r == has_infix(v@, pat@),
{
    if pat.len() > v.len() {
        return false;
    }
    if pat.len() == 0 {
        assert(v@.subrange(0, 0 + pat@.len() as int) =~= pat@);
        return true;
    }
    let n = v.len();
    let last = n - pat.len();
    let mut i: usize = 0;
    while i <= last
        invariant
            n == v@.len(),
            0 < pat@.len() <= v@.len(),
            last == v@.len() - pat@.len(),
            i <= last + 1,
            forall|k: int| 0 <= k < i ==> #[trigger] v@.subrange(k, k + pat@.len()) != pat@,
        decreases last + 1 - i,
    {
        if occurs_at(v, i, pat) {
            return true;
        }
        i = i + 1;
    }
    false
}

/// The encoding that the glyph names of an encoding's `Differences` array mark (see
/// [`differences_encoding`]).
pub fn encoding_from_differences(names: &Vec<String>) -> (r: Option<SimpleFontEncoding>)
    ensures
        r == differences_encoding(names@.map_values(|s: String| s@)),
{
    let ghost all = names@.map_values(|s: String| s@);
    let mut i: usize = 0;
    assert(all.skip(0) =~= all);
    while i < names.len()
        invariant
            i <= names@.len(),
            all == names@.map_values(|s: String| s@),
            differences_encoding(all.skip(i as int)) == differences_encoding(all),
        decreases names@.len() - i,
    {
        let v = chars_of(names[i].as_str());
        let ghost rest = all.skip(i as int);
        assert(rest[0] == v@);
        assert(rest.drop_first() =~= all.skip(i + 1));
        let cyrillic = holds_infix(&v, &['c', 'y', 'r', 'i', 'l', 'l', 'i', 'c'])
            || (v.len() >= 6 && occurs_at(&v, 0, &['a', 'f', 'i', 'i', '1', '0']));
        proof {
            if v@.len() >= 6 {
                assert(v@.subrange(0, 6) =~= v@.take(6));
            }
        }
        if cyrillic {
            return Some(SimpleFontEncoding::Cyrillic);
        }
        let greek = false
        || eq_chars(&v, &['A', 'l', 'p', 'h', 'a'])
        || eq_chars(&v, &['B', 'e', 't', 'a'])
        || eq_chars(&v, &['G', 'a', 'm', 'm', 'a'])
        || eq_chars(&v, &['D', 'e', 'l', 't', 'a', 'g', 'r', 'e', 'e', 'k'])
        || eq_chars(&v, &['O', 'm', 'e', 'g', 'a', 'g', 'r', 'e', 'e', 'k'])
        || eq_chars(&v, &['a', 'l', 'p', 'h', 'a'])
        || eq_chars(&v, &['b', 'e', 't', 'a'])
        || eq_chars(&v, &['g', 'a', 'm', 'm', 'a'])
        || eq_chars(&v, &['d', 'e', 'l', 't', 'a'])
        || eq_chars(&v, &['m', 'u', 'g', 'r', 'e', 'e', 'k'])
        || eq_chars(&v, &['o', 'm', 'e', 'g', 'a'])
        || eq_chars(&v, &['t', 'o', 'n', 'o', 's']);
        if greek {
            return Some(SimpleFontEncoding::Greek);
        }
        i = i + 1;
    }
    assert(all.skip(names@.len() as int) =~= Seq::<Seq<char>>::empty());
    None
}

/// The encoding of a simple font whose `Encoding` is a name: Latin for `WinAnsiEncoding`,
/// none for any other name.
pub fn encoding_from_name(name: &str) -> (r: Option<SimpleFontEncoding>)
    ensures
        r == (if name@ == seq!['W', 'i', 'n', 'A', 'n', 's', 'i', 'E', 'n', 'c', 'o', 'd', 'i', 'n', 'g'] {
            Some(SimpleFontEncoding::Latin)
        } else {
            None
        }),
{
    let v = chars_of(name);
    if eq_chars(&v, &['W', 'i', 'n', 'A', 'n', 's', 'i', 'E', 'n', 'c', 'o', 'd', 'i', 'n', 'g']) {
        Some(SimpleFontEncoding::Latin)
    } else {
        None
    }
}

/// The fourteen standard font names.
pub open spec fn base14_fonts() -> Seq<Seq<char>> {
    seq!["Helvetica"@, "Helvetica-Oblique"@, "Helvetica-Bold"@, "Helvetica-BoldOblique"@, "Courier"@, "Courier-Oblique"@, "Courier-Bold"@, "Courier-BoldOblique"@, "Times-Roman"@, "Times-Bold"@, "Times-Italic"@, "Times-BoldItalic"@, "Symbol"@, "ZapfDingbats"@]
}

/// `Helvetica` resolves to itself.
proof fn lemma_base14_self_0()
    ensures
        base14_name("Helvetica"@) == Some("Helvetica"@),
{
    reveal_strlit("Helvetica");
    let n = "Helvetica"@;
    assert(n =~= seq!['H', 'e', 'l', 'v', 'e', 't', 'i', 'c', 'a']);
    assert(strip_slashes(n) == n);
    assert(eq_icase(n, seq!['h', 'e', 'l', 'v', 'e', 't', 'i', 'c', 'a']));
}

/// `Helvetica-Oblique` resolves to itself.
proof fn lemma_base14_self_1()
    ensures
        base14_name("Helvetica-Oblique"@) == Some("Helvetica-Oblique"@),
{
    reveal_strlit("Helvetica-Oblique");
    let n = "Helvetica-Oblique"@;
    assert(n =~= seq!['H', 'e', 'l', 'v', 'e', 't', 'i', 'c', 'a', '-', 'O', 'b', 'l', 'i', 'q', 'u', 'e']);
    assert(strip_slashes(n) == n);
    assert(eq_icase(n, seq!['h', 'e', 'l', 'v', 'e', 't', 'i', 'c', 'a', '-', 'o', 'b', 'l', 'i', 'q', 'u', 'e']));
}

/// `Helvetica-Bold` resolves to itself.
proof fn lemma_base14_self_2()
    ensures
        base14_name("Helvetica-Bold"@) == Some("Helvetica-Bold"@),
{
    reveal_strlit("Helvetica-Bold");
    let n = "Helvetica-Bold"@;
    assert(n =~= seq!['H', 'e', 'l', 'v', 'e', 't', 'i', 'c', 'a', '-', 'B', 'o', 'l', 'd']);
    assert(strip_slashes(n) == n);
    assert(eq_icase(n, seq!['h', 'e', 'l', 'v', 'e', 't', 'i', 'c', 'a', '-', 'b', 'o', 'l', 'd']));
}

/// `Helvetica-BoldOblique` resolves to itself.
proof fn lemma_base14_self_3()
    ensures
        base14_name("Helvetica-BoldOblique"@) == Some("Helvetica-BoldOblique"@),
{
    reveal_strlit("Helvetica-BoldOblique");
    let n = "Helvetica-BoldOblique"@;
    assert(n =~= seq!['H', 'e', 'l', 'v', 'e', 't', 'i', 'c', 'a', '-', 'B', 'o', 'l', 'd', 'O', 'b', 'l', 'i', 'q', 'u', 'e']);
    assert(strip_slashes(n) == n);
    assert(eq_icase(n, seq!['h', 'e', 'l', 'v', 'e', 't', 'i', 'c', 'a', '-', 'b', 'o', 'l', 'd', 'o', 'b', 'l', 'i', 'q', 'u', 'e']));
}

/// `Courier` resolves to itself.
proof fn lemma_base14_self_4()
    ensures
        base14_name("Courier"@) == Some("Courier"@),
{
    reveal_strlit("Courier");
    let n = "Courier"@;
    assert(n =~= seq!['C', 'o', 'u', 'r', 'i', 'e', 'r']);
    assert(strip_slashes(n) == n);
    assert(eq_icase(n, seq!['c', 'o', 'u', 'r', 'i', 'e', 'r']));
}

/// `Courier-Oblique` resolves to itself.
proof fn lemma_base14_self_5()
    ensures
        base14_name("Courier-Oblique"@) == Some("Courier-Oblique"@),
{
    reveal_strlit("Courier-Oblique");
    let n = "Courier-Oblique"@;
    assert(n =~= seq!['C', 'o', 'u', 'r', 'i', 'e', 'r', '-', 'O', 'b', 'l', 'i', 'q', 'u', 'e']);
    assert(strip_slashes(n) == n);
    assert(eq_icase(n, seq!['c', 'o', 'u', 'r', 'i', 'e', 'r', '-', 'o', 'b', 'l', 'i', 'q', 'u', 'e']));
}

/// `Courier-Bold` resolves to itself.
proof fn lemma_base14_self_6()
    ensures
        base14_name("Courier-Bold"@) == Some("Courier-Bold"@),
{
    reveal_strlit("Courier-Bold");
    let n = "Courier-Bold"@;
    assert(n =~= seq!['C', 'o', 'u', 'r', 'i', 'e', 'r', '-', 'B', 'o', 'l', 'd']);
    assert(strip_slashes(n) == n);
    assert(eq_icase(n, seq!['c', 'o', 'u', 'r', 'i', 'e', 'r', '-', 'b', 'o', 'l', 'd']));
}

/// `Courier-BoldOblique` resolves to itself.
proof fn lemma_base14_self_7()
    ensures
        base14_name("Courier-BoldOblique"@) == Some("Courier-BoldOblique"@),
{
    reveal_strlit("Courier-BoldOblique");
    let n = "Courier-BoldOblique"@;
    assert(n =~= seq!['C', 'o', 'u', 'r', 'i', 'e', 'r', '-', 'B', 'o', 'l', 'd', 'O', 'b', 'l', 'i', 'q', 'u', 'e']);
    assert(strip_slashes(n) == n);
    assert(eq_icase(n, seq!['c', 'o', 'u', 'r', 'i', 'e', 'r', '-', 'b', 'o', 'l', 'd', 'o', 'b', 'l', 'i', 'q', 'u', 'e']));
}

/// `Times-Roman` resolves to itself.
proof fn lemma_base14_self_8()
    ensures
        base14_name("Times-Roman"@) == Some("Times-Roman"@),
{
    reveal_strlit("Times-Roman");
    let n = "Times-Roman"@;
    assert(n =~= seq!['T', 'i', 'm', 'e', 's', '-', 'R', 'o', 'm', 'a', 'n']);
    assert(strip_slashes(n) == n);
    assert(eq_icase(n, seq!['t', 'i', 'm', 'e', 's', '-', 'r', 'o', 'm', 'a', 'n']));
}

/// `Times-Bold` resolves to itself.
proof fn lemma_base14_self_9()
    ensures
        base14_name("Times-Bold"@) == Some("Times-Bold"@),
{
    reveal_strlit("Times-Bold");
    let n = "Times-Bold"@;
    assert(n =~= seq!['T', 'i', 'm', 'e', 's', '-', 'B', 'o', 'l', 'd']);
    assert(strip_slashes(n) == n);
    assert(eq_icase(n, seq!['t', 'i', 'm', 'e', 's', '-', 'b', 'o', 'l', 'd']));
}

/// `Times-Italic` resolves to itself.
proof fn lemma_base14_self_10()
    ensures
        base14_name("Times-Italic"@) == Some("Times-Italic"@),
{
    reveal_strlit("Times-Italic");
    let n = "Times-Italic"@;
    assert(n =~= seq!['T', 'i', 'm', 'e', 's', '-', 'I', 't', 'a', 'l', 'i', 'c']);
    assert(strip_slashes(n) == n);
    assert(ascii_lower(n[0]) != ascii_lower(seq!['c', 'o', 'u', 'r', 'i', 'e', 'r', '-', 'b', 'o', 'l', 'd'][0]));
    assert(eq_icase(n, seq!['t', 'i', 'm', 'e', 's', '-', 'i', 't', 'a', 'l', 'i', 'c']));
}

/// `Times-BoldItalic` resolves to itself.
proof fn lemma_base14_self_11()
    ensures
        base14_name("Times-BoldItalic"@) == Some("Times-BoldItalic"@),
{
    reveal_strlit("Times-BoldItalic");
    let n = "Times-BoldItalic"@;
    assert(n =~= seq!['T', 'i', 'm', 'e', 's', '-', 'B', 'o', 'l', 'd', 'I', 't', 'a', 'l', 'i', 'c']);
    assert(strip_slashes(n) == n);
    assert(eq_icase(n, seq!['t', 'i', 'm', 'e', 's', '-', 'b', 'o', 'l', 'd', 'i', 't', 'a', 'l', 'i', 'c']));
}

/// `Symbol` resolves to itself.
proof fn lemma_base14_self_12()
    ensures
        base14_name("Symbol"@) == Some("Symbol"@),
{
    reveal_strlit("Symbol");
    let n = "Symbol"@;
    assert(n =~= seq!['S', 'y', 'm', 'b', 'o', 'l']);
    assert(strip_slashes(n) == n);
    assert(ascii_lower(n[0]) != ascii_lower(seq!['h', 'e', 'b', 'o', 'i', 't'][0]));
    assert(ascii_lower(n[0]) != ascii_lower(seq!['c', 'o', 'b', 'o', 'i', 't'][0]));
    assert(eq_icase(n, seq!['s', 'y', 'm', 'b', 'o', 'l']));
}

/// `ZapfDingbats` resolves to itself.
proof fn lemma_base14_self_13()
    ensures
        base14_name("ZapfDingbats"@) == Some("ZapfDingbats"@),
{
    reveal_strlit("ZapfDingbats");
    let n = "ZapfDingbats"@;
    assert(n =~= seq!['Z', 'a', 'p', 'f', 'D', 'i', 'n', 'g', 'b', 'a', 't', 's']);
    assert(strip_slashes(n) == n);
    assert(ascii_lower(n[0]) != ascii_lower(seq!['c', 'o', 'u', 'r', 'i', 'e', 'r', '-', 'b', 'o', 'l', 'd'][0]));
    assert(ascii_lower(n[0]) != ascii_lower(seq!['t', 'i', 'm', 'e', 's', '-', 'i', 't', 'a', 'l', 'i', 'c'][0]));
    assert(eq_icase(n, seq!['z', 'a', 'p', 'f', 'd', 'i', 'n', 'g', 'b', 'a', 't', 's']));
}

/// Each of the fourteen standard font names resolves to itself, so no two of them resolve
/// to the same font.
pub proof fn law_base14_names_resolve_to_themselves()
    ensures
        forall|i: int| 0 <= i < base14_fonts().len() ==> #[trigger] base14_name(base14_fonts()[i]) == Some(base14_fonts()[i]),
        forall|i: int, j: int|
            0 <= i < j < base14_fonts().len() ==> #[trigger] base14_fonts()[i] != #[trigger] base14_fonts()[j],
{
    lemma_base14_self_0();
    lemma_base14_self_1();
    lemma_base14_self_2();
    lemma_base14_self_3();
    lemma_base14_self_4();
    lemma_base14_self_5();
    lemma_base14_self_6();
    lemma_base14_self_7();
    lemma_base14_self_8();
    lemma_base14_self_9();
    lemma_base14_self_10();
    lemma_base14_self_11();
    lemma_base14_self_12();
    lemma_base14_self_13();
    let b = base14_fonts();
    reveal_strlit("Helvetica");
    reveal_strlit("Helvetica-Oblique");
    reveal_strlit("Helvetica-Bold");
    reveal_strlit("Helvetica-BoldOblique");
    reveal_strlit("Courier");
    reveal_strlit("Courier-Oblique");
    reveal_strlit("Courier-Bold");
    reveal_strlit("Courier-BoldOblique");
    reveal_strlit("Times-Roman");
    reveal_strlit("Times-Bold");
    reveal_strlit("Times-Italic");
    reveal_strlit("Times-BoldItalic");
    reveal_strlit("Symbol");
    reveal_strlit("ZapfDingbats");
    assert forall|i: int, j: int| 0 <= i < j < b.len() implies #[trigger] b[i] != #[trigger] b[j] by {
        if b[i] == b[j] {
            assert(b[i].len() == b[j].len());
        }
    }
}

/// Texts equal up to ASCII letter case stay so after their leading `/`s are dropped.
proof fn lemma_strip_slashes_icase(s: Seq<char>, t: Seq<char>)
    requires
        eq_icase(s, t),
    ensures
        eq_icase(strip_slashes(s), strip_slashes(t)),
    decreases s.len(),
{
    if s.len() > 0 {
        assert(ascii_lower(s[0]) == ascii_lower(t[0]));
        assert((s[0] == '/') == (t[0] == '/'));
        if s[0] == '/' {
            assert forall|i: int| 0 <= i < s.drop_first().len() implies ascii_lower(
                #[trigger] s.drop_first()[i],
            ) == ascii_lower(t.drop_first()[i]) by {
                assert(ascii_lower(s[i + 1]) == ascii_lower(t[i + 1]));
            }
            lemma_strip_slashes_icase(s.drop_first(), t.drop_first());
        }
    }
}

/// Resolving a font name ignores ASCII letter case and leading `/`s: names equal up to
/// letter case resolve alike, and so do a name and the name after a `/`.
pub proof fn law_base14_ignores_case_and_slashes(s: Seq<char>, t: Seq<char>)
    ensures
        eq_icase(s, t) ==> base14_name(s) == base14_name(t),
        base14_name(seq!['/'] + s) == base14_name(s),
{
    if eq_icase(s, t) {
        lemma_strip_slashes_icase(s, t);
        let a = strip_slashes(s);
        let b = strip_slashes(t);
        assert forall|k: Seq<char>| #[trigger] eq_icase(a, k) == eq_icase(b, k) by {
            if eq_icase(a, k) {
                assert forall|i: int| 0 <= i < b.len() implies ascii_lower(#[trigger] b[i]) == ascii_lower(k[i]) by {
                    assert(ascii_lower(a[i]) == ascii_lower(b[i]));
                }
            }
            if eq_icase(b, k) {
                assert forall|i: int| 0 <= i < a.len() implies ascii_lower(#[trigger] a[i]) == ascii_lower(k[i]) by {
                    assert(ascii_lower(a[i]) == ascii_lower(b[i]));
                }
            }
        }
    }
    let u = seq!['/'] + s;
    assert(u.drop_first() =~= s);
    assert(strip_slashes(u) == strip_slashes(s));
}

} // verus!
