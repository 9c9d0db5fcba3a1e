//! Small pieces of the drawing API: text alignment, rotation checks, and trimming of
//! decimal number text.
use vstd::prelude::*;
use crate::error::Error;
use crate::number::{int_text, push_int};
use crate::text::{chars_of, lemma_sep_index, sep_index, string_of};

verus! {

/// Text alignment for text boxes.
#[derive(Clone, Copy, Debug, PartialEq, Eq)]
pub enum TextAlign {
    /// Align each line to the leading edge of the text box.
    Left,
    /// Center each line within the text box.
    Center,
    /// Align each line to the trailing edge of the text box.
    Right,
    /// Fully justify non-last paragraph lines by distributing extra width across word gaps.
    Justify,
}

impl Default for TextAlign {
    fn default() -> (r: TextAlign)
        ensures
            r == TextAlign::Left,
    {
        TextAlign::Left
    }
}

/// The message for a rotation that is not a right angle.
pub open spec fn bad_rotate_message(rotate: int) -> Seq<char> {
    "bad rotate value: "@ + int_text(rotate) + "; expected one of 0, 90, 180, 270"@
}

/// Checks a text rotation: 0, 90, 180 and 270 degrees are accepted as they are; any other
/// value is an `InvalidArgument` error naming it.
pub fn normalize_rotate(rotate: i32) -> (r: Result<i32, Error>)
    ensures
        (rotate == 0 || rotate == 90 || rotate == 180 || rotate == 270) ==> r == Ok::<i32, Error>(rotate),
        !(rotate == 0 || rotate == 90 || rotate == 180 || rotate == 270) ==> (r matches Err(
            Error::InvalidArgument(m),
        ) && m@ == bad_rotate_message(rotate as int)),
{
    if rotate == 0 || rotate == 90 || rotate == 180 || rotate == 270 {
        return Ok(rotate);
    }
    let mut m = String::new();
    m.append("bad rotate value: ");
    push_int(&mut m, rotate as i64);
    m.append("; expected one of 0, 90, 180, 270");
    assert(m@ =~= bad_rotate_message(rotate as int));
    Err(Error::InvalidArgument(m))
}

/// The number of characters left once trailing `0`s are dropped from `s`.
pub open spec fn zeros_end(s: Seq<char>) -> int
    decreases s.len(),
{
    if s.len() > 0 && s.last() == '0' {
        zeros_end(s.drop_last())
    } else {
        s.len() as int
    }
}

/// Decimal text with the trailing zeros of its fraction removed, and the `.` too where no
/// fraction digit is left; text without `.` is left as it is.
pub open spec fn strip_fraction_zeros(s: Seq<char>) -> Seq<char> {
    if !s.contains('.') {
        s
    } else {
        let t = s.take(zeros_end(s));
        if t.len() > 0 && t.last() == '.' {
            t.drop_last()
        } else {
            t
        }
    }
}

/// `zeros_end` is a length within `s`.
proof fn lemma_zeros_end(s: Seq<char>)
    ensures
        0 <= zeros_end(s) <= s.len(),
    decreases s.len(),
{
    if s.len() > 0 && s.last() == '0' {
        lemma_zeros_end(s.drop_last());
    }
}

/// Removes trailing zeros of the fraction of a decimal number, then a trailing `.`
/// (`1.500` becomes `1.5`, `2.000` becomes `2`, `100` stays `100`).
pub fn strip_trailing_fraction_zeros(value: &mut String)
    ensures
        final(value)@ == strip_fraction_zeros(old(value)@),
{
    let v = chars_of(value.as_str());
    let mut has_dot = false;
    let mut i: usize = 0;
    while i < v.len()
        invariant
            i <= v@.len(),
            has_dot == exists|j: int| 0 <= j < i && v@[j] == '.',
        decreases v@.len() - i,
    {
        if v[i] == '.' {
            has_dot = true;
        }
        i = i + 1;
    }
    if !has_dot {
        assert(!v@.contains('.'));
        return;
    }
    let mut n = v.len();
    assert(v@.take(n as int) =~= v@);
    while n > 0 && v[n - 1] == '0'
        invariant
            n <= v@.len(),
            zeros_end(v@.take(n as int)) == zeros_end(v@),
        decreases n,
    {
        assert(v@.take(n as int).drop_last() =~= v@.take(n - 1));
        n = n - 1;
    }
    proof {
        lemma_zeros_end(v@);
    }
    assert(zeros_end(v@.take(n as int)) == n);
    if n > 0 && v[n - 1] == '.' {
        n = n - 1;
    }
    *value = string_of(&v, 0, n);
    assert(final(value)@ =~= strip_fraction_zeros(old(value)@));
}

/// Whether a colour sets the stroke or the fill colour.
#[derive(Clone, Copy, Debug, PartialEq, Eq, Structural)]
pub enum ColorRole {
    Stroke,
    Fill,
}

/// The PDF operator that sets a colour of `count` components (grey, RGB or CMYK) for a
/// role; none for another count.
pub open spec fn color_operator(count: nat, role: ColorRole) -> Option<Seq<char>> {
    if count == 1 {
        Some(if role == ColorRole::Stroke { "G"@ } else { "g"@ })
    } else if count == 3 {
        Some(if role == ColorRole::Stroke { "RG"@ } else { "rg"@ })
    } else if count == 4 {
        Some(if role == ColorRole::Stroke { "K"@ } else { "k"@ })
    } else {
        None
    }
}

/// The texts joined with single spaces.
pub open spec fn join_spaces(parts: Seq<Seq<char>>) -> Seq<char>
    decreases parts.len(),
{
    if parts.len() == 0 {
        Seq::empty()
    } else if parts.len() == 1 {
        parts[0]
    } else {
        join_spaces(parts.drop_last()) + " "@ + parts.last()
    }
}

/// The operator that sets a colour of `count` components for a role.
fn operator_for(count: usize, role: ColorRole) -> (r: Option<&'static str>)
    ensures
        match r {
            Some(op) => color_operator(count as nat, role) == Some(op@),
            None => color_operator(count as nat, role) is None,
        },
{
    if count == 1 {
        match role {
            ColorRole::Stroke => Some("G"),
            ColorRole::Fill => Some("g"),
        }
    } else if count == 3 {
        match role {
            ColorRole::Stroke => Some("RG"),
            ColorRole::Fill => Some("rg"),
        }
    } else if count == 4 {
        match role {
            ColorRole::Stroke => Some("K"),
            ColorRole::Fill => Some("k"),
        }
    } else {
        None
    }
}

/// The content-stream line that sets a colour, from the texts of its components: the
/// components joined with spaces, a space, the operator and a line break; empty where the
/// number of components is not 1, 3 or 4.
pub fn color_code_text(components: &Vec<String>, role: ColorRole) -> (r: String)
    ensures
        match color_operator(components@.len(), role) {
            Some(op) => r@ == join_spaces(components@.map_values(|c: String| c@)) + " "@ + op + "\n"@,
            None => r@ == Seq::<char>::empty(),
        },
{
    let op = operator_for(components.len(), role);
    match op {
        None => String::new(),
        Some(op) => {
            let ghost parts = components@.map_values(|c: String| c@);
            let mut out = String::new();
            let mut i: usize = 0;
            while i < components.len()
                invariant
                    i <= components@.len(),
                    components@.len() >= 1,
                    parts == components@.map_values(|c: String| c@),
                    out@ == join_spaces(parts.take(i as int)),
                decreases components@.len() - i,
            {
                let ghost before = out@;
                if i > 0 {
                    out.append(" ");
                }
                out.append(components[i].as_str());
                proof {
                    let t = parts.take(i + 1);
                    assert(t.drop_last() =~= parts.take(i as int));
                    assert(t.last() == components@[i as int]@);
                    if i == 0 {
                        assert(parts.take(0) =~= Seq::<Seq<char>>::empty());
                        assert(out@ =~= join_spaces(t));
                    } else {
                        assert(out@ =~= join_spaces(t));
                    }
                }
                i = i + 1;
            }
            assert(parts.take(components@.len() as int) =~= parts);
            out.append(" ");
            out.append(op);
            out.append("\n");
            out
        },
    }
}

/// What `zeros_end` cuts off is zeros only, and what it keeps does not end in a zero.
proof fn lemma_zeros_end_cut(s: Seq<char>)
    ensures
        0 <= zeros_end(s) <= s.len(),
        forall|i: int| zeros_end(s) <= i < s.len() ==> #[trigger] s[i] == '0',
        zeros_end(s) > 0 ==> s[zeros_end(s) - 1] != '0',
    decreases s.len(),
{
    if s.len() > 0 && s.last() == '0' {
        lemma_zeros_end_cut(s.drop_last());
        assert forall|i: int| zeros_end(s) <= i < s.len() implies #[trigger] s[i] == '0' by {
            if i < s.len() - 1 {
                assert(s[i] == s.drop_last()[i]);
            }
        }
        if zeros_end(s) > 0 {
            assert(s[zeros_end(s) - 1] == s.drop_last()[zeros_end(s) - 1]);
        }
    }
}

/// Stripping the fraction zeros of decimal text keeps a prefix of it that holds the whole
/// integer part (everything before the first `.`), and cuts off only zeros, and a `.` just
/// before them; text without a `.` is kept whole.
pub proof fn law_strip_keeps_integer_part(s: Seq<char>)
    ensures
        ({
            let r = strip_fraction_zeros(s);
            &&& r.len() <= s.len()
            &&& r == s.take(r.len() as int)
            &&& !s.contains('.') ==> r == s
            &&& s.contains('.') ==> r.len() >= sep_index(s, '.', '.')
            &&& forall|i: int| r.len() <= i < s.len() ==> #[trigger] s[i] == '0' || (i == r.len()
                && s[i] == '.')
        }),
{
    let r = strip_fraction_zeros(s);
    if !s.contains('.') {
        assert(s.take(s.len() as int) =~= s);
    } else {
        lemma_zeros_end_cut(s);
        lemma_sep_index(s, '.', '.');
        let z = zeros_end(s);
        let d = sep_index(s, '.', '.');
        if d >= s.len() {
            let i = choose|i: int| 0 <= i < s.len() && s[i] == '.';
            assert(!crate::text::is_sep(s[i], '.', '.'));
        }
        assert(s[d] == '.');
        assert(d < z) by {
            if d >= z {
                assert(s[d] == '0');
            }
        }
        let t = s.take(z);
        if t.len() > 0 && t.last() == '.' {
            assert(r =~= s.take(z - 1));
        } else {
            assert(r =~= s.take(z));
        }
    }
}

} // verus!
