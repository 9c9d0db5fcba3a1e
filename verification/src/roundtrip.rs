//! The link URI of an action reads back as that action.
use vstd::prelude::*;
use crate::binary32::{
    hundred_bits, is_finite_bits, is_infinite_bits, is_nan_bits, is_zero_bits, le_zero_bits,
    neg_bits, Binary32,
};
use crate::destination::{default_kind, kind_fragment, number_text, opt_arg, opt_text, present, shown_zoom, DestinationKind};
use crate::parse::{
    finite_only, frag_init, frag_step, FragState, FragStep, nth_number, view_kind, viewrect_value,
    zoom_kind, read_number, zoom_value,
};
use crate::links::{action_uri, default_dest, dest_fragment, file_uri, fragment_sep, one_based, ActionModel, DestModel, FileModel};
use crate::parse::{head_and_params, is_external, is_pdf_name, parse_link, icase_prefix_rest};
use crate::number::{decimal, lemma_decimal_digits, lemma_parse_decimal, is_digit};
use crate::parse::{fragment_model, fragment_pairs, frag_run, kv_list, piece_kv, FragModel};
use crate::percent::{
    all_uri_safe, decoded_component, encode_uri, is_upper_hex, keeps, lemma_decode_encode,
    lemma_decode_prefixed, lemma_encode_kept_char, lemma_encode_tail, lemma_encode_uri_concat,
    lemma_utf8_ascii_tail, uri_safe,
};
use vstd::utf8::{char_u32_cast, encode_utf8};
use crate::path::{clean_name, law_cleanname_idempotent, lemma_clean_name_not_empty, lemma_cleanname_slashes};
use crate::parse::decode_and_clean;
use crate::text::{
    lemma_split_once_cons, split_once,
    eq_icase, ascii_lower, is_whitespace, lemma_pieces_cons, lemma_pieces_whole, lemma_trim_no_ws, no_sep, no_ws, pieces,
    trim,
};

verus! {

/// Text that may stand for a number in a fragment: not empty, without whitespace and
/// without `,` `&` `#` `=`.
pub open spec fn plain_text(t: Seq<char>) -> bool {
    &&& t.len() > 0
    &&& forall|i: int| 0 <= i < t.len() ==> {
        &&& !is_whitespace(#[trigger] t[i])
        &&& t[i] != ','
        &&& t[i] != '&'
        &&& t[i] != '#'
        &&& t[i] != '='
    }
}

/// The number functions agree: every finite value is written as plain text that reads back
/// as that value, and `nan` reads as no value or a NaN.
pub open spec fn numbers_agree(
    read: spec_fn(Seq<char>) -> Option<Binary32>,
    show: spec_fn(Binary32) -> Seq<char>,
) -> bool {
    &&& forall|x: Binary32| is_finite_bits(x.bits) ==> plain_text(#[trigger] show(x)) && read(show(x)) == Some(x)
    &&& match read(seq!['n', 'a', 'n']) {
        Some(x) => is_nan_bits(x.bits),
        None => true,
    }
}

/// An optional value that is absent or finite.
pub open spec fn finite_or_absent(o: Option<Binary32>) -> bool {
    match o {
        Some(x) => is_finite_bits(x.bits),
        None => true,
    }
}

/// A view whose fragment reads back as that view: its values are finite or absent, a zoom
/// is positive, and a rectangle has a non-zero width and height from which its corners are
/// computed back exactly.
pub open spec fn kind_returns(k: DestinationKind, sum: spec_fn(Binary32, Binary32) -> Binary32) -> bool {
    match k {
        DestinationKind::Fit | DestinationKind::FitB => true,
        DestinationKind::FitH { top } | DestinationKind::FitBH { top } => finite_or_absent(top),
        DestinationKind::FitV { left } | DestinationKind::FitBV { left } => finite_or_absent(left),
        DestinationKind::XYZ { left, top, zoom } => {
            &&& finite_or_absent(left)
            &&& finite_or_absent(top)
            &&& match zoom {
                Some(z) => is_finite_bits(z.bits) && !le_zero_bits(z.bits),
                None => true,
            }
        },
        DestinationKind::FitR { left, bottom, right, top } => {
            let w = sum(right, Binary32 { bits: neg_bits(left.bits) });
            let h = sum(top, Binary32 { bits: neg_bits(bottom.bits) });
            &&& is_finite_bits(left.bits)
            &&& is_finite_bits(bottom.bits)
            &&& is_finite_bits(w.bits)
            &&& !is_zero_bits(w.bits)
            &&& is_finite_bits(h.bits)
            &&& !is_zero_bits(h.bits)
            &&& sum(left, w) == right
            &&& sum(bottom, h) == top
        },
    }
}

/// Text is equal to itself with letter case ignored.
pub proof fn lemma_icase_refl(x: Seq<char>)
    ensures
        eq_icase(x, x),
{
}

/// Texts that differ at a position, letter case ignored, are not equal.
pub proof fn lemma_icase_differs(x: Seq<char>, y: Seq<char>, i: int)
    requires
        0 <= i < x.len(),
        ascii_lower(x[i]) != ascii_lower(y[i]),
    ensures
        !eq_icase(x, y),
{
}

/// Plain text has neither whitespace nor any of the given separators.
proof fn lemma_plain(t: Seq<char>)
    requires
        plain_text(t),
    ensures
        no_ws(t),
        no_sep(t, ',', ','),
        no_sep(t, '&', '#'),
        no_sep(t, '=', '='),
        no_sep(t, '#', '#'),
{
    assert forall|i: int| 0 <= i < t.len() implies !is_whitespace(#[trigger] t[i]) by {}
}

/// `nan` is plain text.
proof fn lemma_nan_plain()
    ensures
        plain_text(seq!['n', 'a', 'n']),
{
    let t = seq!['n', 'a', 'n'];
    assert forall|i: int| 0 <= i < t.len() implies {
        &&& !is_whitespace(#[trigger] t[i])
        &&& t[i] != ','
        &&& t[i] != '&'
        &&& t[i] != '#'
        &&& t[i] != '='
    } by {
        assert(t[i] == 'n' || t[i] == 'a');
    }
}

/// A finite value is written as plain text that reads back as itself.
proof fn lemma_number_text(x: Binary32, read: spec_fn(Seq<char>) -> Option<Binary32>, show: spec_fn(Binary32) -> Seq<char>)
    requires
        numbers_agree(read, show),
        is_finite_bits(x.bits),
    ensures
        number_text(x, show) == show(x),
        plain_text(show(x)),
        read_number(show(x), read) == Some(x),
{
    lemma_plain(show(x));
    lemma_trim_no_ws(show(x));
}

/// An optional value that is absent or finite is written as plain text (`nan` where it is
/// absent) that reads back as itself.
proof fn lemma_opt_text(o: Option<Binary32>, read: spec_fn(Seq<char>) -> Option<Binary32>, show: spec_fn(Binary32) -> Seq<char>)
    requires
        numbers_agree(read, show),
        finite_or_absent(o),
    ensures
        plain_text(opt_text(o, show)),
        read_number(opt_text(o, show), read) == o,
        o is None ==> opt_text(o, show) == seq!['n', 'a', 'n'],
{
    reveal_strlit("nan");
    assert("nan"@ =~= seq!['n', 'a', 'n']);
    lemma_nan_plain();
    match o {
        Some(x) => {
            lemma_number_text(x, read, show);
            assert(present(o) == Some(x));
            assert(opt_text(o, show) == show(x));
            assert(read_number(show(x), read) == Some(x));
            assert(read_number(opt_text(o, show), read) == Some(x));
        },
        None => {
            lemma_plain(seq!['n', 'a', 'n']);
            lemma_trim_no_ws(seq!['n', 'a', 'n']);
        },
    }
}

/// A zoom that is absent or finite and positive is written as plain text that reads back
/// as itself.
proof fn lemma_zoom_text(z: Option<Binary32>, read: spec_fn(Seq<char>) -> Option<Binary32>, show: spec_fn(Binary32) -> Seq<char>)
    requires
        numbers_agree(read, show),
        match z {
            Some(x) => is_finite_bits(x.bits) && !le_zero_bits(x.bits),
            None => true,
        },
    ensures
        plain_text(opt_text(shown_zoom(z), show)),
        zoom_value(read(trim(opt_text(shown_zoom(z), show)))) == z,
{
    reveal_strlit("nan");
    assert("nan"@ =~= seq!['n', 'a', 'n']);
    lemma_nan_plain();
    match z {
        Some(x) => {
            assert(present(z) == Some(x));
            assert(shown_zoom(z) == Some(x));
            assert(present(shown_zoom(z)) == Some(x));
            assert(opt_text(shown_zoom(z), show) == show(x));
            lemma_number_text(x, read, show);
            assert(!is_infinite_bits(x.bits) && !is_nan_bits(x.bits));
            lemma_plain(show(x));
            lemma_trim_no_ws(show(x));
        },
        None => {
            lemma_plain(seq!['n', 'a', 'n']);
            lemma_trim_no_ws(seq!['n', 'a', 'n']);
        },
    }
}

/// The pieces of a view name followed by an optional `,<value>`: the name, then the value
/// where there is one.
proof fn lemma_view_arg(
    name: Seq<char>,
    o: Option<Binary32>,
    read: spec_fn(Seq<char>) -> Option<Binary32>,
    show: spec_fn(Binary32) -> Seq<char>,
)
    requires
        numbers_agree(read, show),
        finite_or_absent(o),
        plain_text(name),
    ensures
        ({
            let v = name + opt_arg(o, show);
            let ps = pieces(v, ',', ',');
            &&& v.len() > 0
            &&& trim(ps[0]) == name
            &&& (if ps.len() > 1 {
                read_number(ps[1], read)
            } else {
                None
            }) == o
            &&& no_ws(v)
            &&& no_sep(v, '&', '#')
            &&& no_sep(v, '=', '=')
        }),
{
    lemma_plain(name);
    lemma_trim_no_ws(name);
    let v = name + opt_arg(o, show);
    reveal_strlit(",");
    match o {
        Some(x) => {
            lemma_number_text(x, read, show);
            lemma_plain(show(x));
            assert(present(o) == Some(x));
            assert(v =~= name + seq![','] + show(x));
            lemma_pieces_cons(name, ',', show(x), ',', ',');
            lemma_pieces_whole(show(x), ',', ',');
            assert(pieces(v, ',', ',')[1] == show(x));
            assert(no_ws(v)) by {
                assert forall|i: int| 0 <= i < v.len() implies !is_whitespace(#[trigger] v[i]) by {
                    if i < name.len() {
                        assert(v[i] == name[i]);
                    } else if i > name.len() {
                        assert(v[i] == show(x)[i - name.len() - 1]);
                    }
                }
            }
            assert(no_sep(v, '&', '#')) by {
                assert forall|i: int| 0 <= i < v.len() implies !crate::text::is_sep(#[trigger] v[i], '&', '#') by {
                    if i < name.len() {
                        assert(v[i] == name[i]);
                    } else if i > name.len() {
                        assert(v[i] == show(x)[i - name.len() - 1]);
                    }
                }
            }
            assert(no_sep(v, '=', '=')) by {
                assert forall|i: int| 0 <= i < v.len() implies !crate::text::is_sep(#[trigger] v[i], '=', '=') by {
                    if i < name.len() {
                        assert(v[i] == name[i]);
                    } else if i > name.len() {
                        assert(v[i] == show(x)[i - name.len() - 1]);
                    }
                }
            }
        },
        None => {
            assert(v =~= name);
            lemma_pieces_whole(name, ',', ',');
        },
    }
}

/// The key of the fragment parameter that describes a view: `zoom`, `viewrect` or `view`.
pub open spec fn kind_key(k: DestinationKind) -> Seq<char> {
    match k {
        DestinationKind::XYZ { .. } => seq!['z', 'o', 'o', 'm'],
        DestinationKind::FitR { .. } => seq!['v', 'i', 'e', 'w', 'r', 'e', 'c', 't'],
        _ => seq!['v', 'i', 'e', 'w'],
    }
}

/// The value of the fragment parameter that describes a view.
pub open spec fn kind_value(
    k: DestinationKind,
    show: spec_fn(Binary32) -> Seq<char>,
    sum: spec_fn(Binary32, Binary32) -> Binary32,
) -> Seq<char> {
    kind_fragment(k, show, sum).skip(kind_key(k).len() as int + 2)
}

/// A `view` parameter sets the view that its value reads as.
proof fn lemma_step_view(st: FragState, v: Seq<char>, read: spec_fn(Seq<char>) -> Option<Binary32>, sum: spec_fn(Binary32, Binary32) -> Binary32)
    ensures
        frag_step(st, seq!['v', 'i', 'e', 'w'], v, read, sum) == FragStep::Go(
            FragState {
                kind: match view_kind(v, read) {
                    Some(nk) => Some(nk),
                    None => st.kind,
                },
                ..st
            },
        ),
{
    let k = seq!['v', 'i', 'e', 'w'];
    lemma_icase_differs(k, seq!['p', 'a', 'g', 'e'], 0);
    lemma_icase_differs(k, seq!['z', 'o', 'o', 'm'], 0);
    lemma_icase_refl(k);
}

/// A `zoom` parameter sets the view that its value reads as.
proof fn lemma_step_zoom(st: FragState, v: Seq<char>, read: spec_fn(Seq<char>) -> Option<Binary32>, sum: spec_fn(Binary32, Binary32) -> Binary32)
    ensures
        frag_step(st, seq!['z', 'o', 'o', 'm'], v, read, sum) == FragStep::Go(
            FragState { kind: Some(zoom_kind(v, read)), ..st },
        ),
{
    let k = seq!['z', 'o', 'o', 'm'];
    lemma_icase_differs(k, seq!['p', 'a', 'g', 'e'], 0);
    lemma_icase_refl(k);
}

/// A `viewrect` parameter sets the view that its value reads as.
proof fn lemma_step_viewrect(st: FragState, v: Seq<char>, read: spec_fn(Seq<char>) -> Option<Binary32>, sum: spec_fn(Binary32, Binary32) -> Binary32)
    ensures
        frag_step(st, seq!['v', 'i', 'e', 'w', 'r', 'e', 'c', 't'], v, read, sum) == FragStep::Go(
            FragState {
                kind: match viewrect_value(v, read, sum) {
                    Some(nk) => Some(nk),
                    None => st.kind,
                },
                ..st
            },
        ),
{
    lemma_icase_refl(seq!['v', 'i', 'e', 'w', 'r', 'e', 'c', 't']);
}

/// What the properties of a view's fragment are, and that its parameter sets that view.
pub open spec fn kind_reads_back(
    k: DestinationKind,
    st: FragState,
    read: spec_fn(Seq<char>) -> Option<Binary32>,
    show: spec_fn(Binary32) -> Seq<char>,
    sum: spec_fn(Binary32, Binary32) -> Binary32,
) -> bool {
    let v = kind_value(k, show, sum);
    &&& kind_fragment(k, show, sum) == seq!['&'] + kind_key(k) + seq!['='] + v
    &&& no_ws(v)
    &&& no_sep(v, '&', '#')
    &&& no_sep(v, '=', '=')
    &&& frag_step(st, kind_key(k), v, read, sum) == FragStep::Go(FragState { kind: Some(k), ..st })
}

/// The six `view=` kinds read back.
proof fn lemma_view_kinds(
    k: DestinationKind,
    st: FragState,
    read: spec_fn(Seq<char>) -> Option<Binary32>,
    show: spec_fn(Binary32) -> Seq<char>,
    sum: spec_fn(Binary32, Binary32) -> Binary32,
)
    requires
        numbers_agree(read, show),
        kind_returns(k, sum),
        !(k is XYZ),
        !(k is FitR),
    ensures
        kind_reads_back(k, st, read, show, sum),
{
    let fit = seq!['F', 'i', 't'];
    let fit_b = seq!['F', 'i', 't', 'B'];
    let fit_h = seq!['F', 'i', 't', 'H'];
    let fit_bh = seq!['F', 'i', 't', 'B', 'H'];
    let fit_v = seq!['F', 'i', 't', 'V'];
    let fit_bv = seq!['F', 'i', 't', 'B', 'V'];
    let view = seq!['v', 'i', 'e', 'w'];
    let (name, o): (Seq<char>, Option<Binary32>) = match k {
        DestinationKind::Fit => (fit, None),
        DestinationKind::FitB => (fit_b, None),
        DestinationKind::FitH { top } => (fit_h, top),
        DestinationKind::FitBH { top } => (fit_bh, top),
        DestinationKind::FitV { left } => (fit_v, left),
        DestinationKind::FitBV { left } => (fit_bv, left),
        _ => (fit, None),
    };
    assert(plain_text(name)) by {
        assert forall|i: int| 0 <= i < name.len() implies {
            &&& !is_whitespace(#[trigger] name[i])
            &&& name[i] != ','
            &&& name[i] != '&'
            &&& name[i] != '#'
            &&& name[i] != '='
        } by {
            assert(name[i] == 'F' || name[i] == 'i' || name[i] == 't' || name[i] == 'B' || name[i] == 'H'
                || name[i] == 'V');
        }
    }
    lemma_view_arg(name, o, read, show);
    let v = name + opt_arg(o, show);
    match k {
        DestinationKind::Fit => {
            reveal_strlit("&view=Fit");
            assert(kind_fragment(k, show, sum) =~= seq!['&'] + view + seq!['='] + v);
            lemma_icase_refl(fit);
        },
        DestinationKind::FitB => {
            reveal_strlit("&view=FitB");
            assert(kind_fragment(k, show, sum) =~= seq!['&'] + view + seq!['='] + v);
            lemma_icase_refl(fit_b);
        },
        DestinationKind::FitH { .. } => {
            reveal_strlit("&view=FitH");
            assert(kind_fragment(k, show, sum) =~= seq!['&'] + view + seq!['='] + v);
            lemma_icase_differs(fit_h, fit_b, 3);
            lemma_icase_refl(fit_h);
        },
        DestinationKind::FitBH { .. } => {
            reveal_strlit("&view=FitBH");
            assert(kind_fragment(k, show, sum) =~= seq!['&'] + view + seq!['='] + v);
            lemma_icase_refl(fit_bh);
        },
        DestinationKind::FitV { .. } => {
            reveal_strlit("&view=FitV");
            assert(kind_fragment(k, show, sum) =~= seq!['&'] + view + seq!['='] + v);
            lemma_icase_differs(fit_v, fit_b, 3);
            lemma_icase_differs(fit_v, fit_h, 3);
            lemma_icase_refl(fit_v);
        },
        DestinationKind::FitBV { .. } => {
            reveal_strlit("&view=FitBV");
            assert(kind_fragment(k, show, sum) =~= seq!['&'] + view + seq!['='] + v);
            lemma_icase_differs(fit_bv, fit_bh, 4);
            lemma_icase_refl(fit_bv);
        },
        _ => {},
    }
    assert(kind_value(k, show, sum) =~= v);
    assert(view_kind(v, read) == Some(k));
    lemma_step_view(st, v, read, sum);
}

/// A text has no whitespace and none of `&` `#` `=`.
pub open spec fn value_text(v: Seq<char>) -> bool {
    &&& no_ws(v)
    &&& no_sep(v, '&', '#')
    &&& no_sep(v, '=', '=')
}

/// Plain text is value text.
proof fn lemma_plain_value(t: Seq<char>)
    requires
        plain_text(t),
    ensures
        value_text(t),
        no_sep(t, ',', ','),
{
    lemma_plain(t);
}

/// Value texts joined with `,` are value text, and split at `,` into their first part and
/// the rest.
proof fn lemma_comma_cons(a: Seq<char>, rest: Seq<char>)
    requires
        plain_text(a),
        value_text(rest),
    ensures
        value_text(a + seq![','] + rest),
        pieces(a + seq![','] + rest, ',', ',') == seq![a] + pieces(rest, ',', ','),
{
    lemma_plain(a);
    lemma_pieces_cons(a, ',', rest, ',', ',');
    let v = a + seq![','] + rest;
    assert forall|i: int| 0 <= i < v.len() implies {
        &&& !is_whitespace(#[trigger] v[i])
        &&& !crate::text::is_sep(v[i], '&', '#')
        &&& !crate::text::is_sep(v[i], '=', '=')
    } by {
        if i < a.len() {
            assert(v[i] == a[i]);
        } else if i > a.len() {
            assert(v[i] == rest[i - a.len() - 1]);
        }
    }
}

/// A non-default `XYZ` view reads back.
proof fn lemma_xyz_kind(
    k: DestinationKind,
    st: FragState,
    read: spec_fn(Seq<char>) -> Option<Binary32>,
    show: spec_fn(Binary32) -> Seq<char>,
    sum: spec_fn(Binary32, Binary32) -> Binary32,
)
    requires
        numbers_agree(read, show),
        kind_returns(k, sum),
        k is XYZ,
        k != default_kind(),
    ensures
        kind_reads_back(k, st, read, show, sum),
{
    if let DestinationKind::XYZ { left, top, zoom } = k {
        let a = opt_text(shown_zoom(zoom), show);
        let b = opt_text(left, show);
        let c = opt_text(top, show);
        lemma_zoom_text(zoom, read, show);
        lemma_opt_text(left, read, show);
        lemma_opt_text(top, read, show);
        lemma_plain_value(c);
        lemma_pieces_whole(c, ',', ',');
        lemma_comma_cons(b, c);
        let bc = b + seq![','] + c;
        lemma_comma_cons(a, bc);
        let v = a + seq![','] + bc;
        assert(pieces(v, ',', ',') =~= seq![a, b, c]);
        reveal_strlit("&zoom=");
        reveal_strlit(",");
        assert(!(shown_zoom(zoom) is None && present(left) is None && present(top) is None)) by {
            if zoom is None && left is None && top is None {
                assert(k == default_kind());
            }
        }
        assert(kind_fragment(k, show, sum) =~= seq!['&'] + kind_key(k) + seq!['='] + v);
        assert(kind_value(k, show, sum) =~= v);
        assert(zoom_kind(v, read) == k);
        lemma_step_zoom(st, v, read, sum);
    }
}

/// A `FitR` view reads back.
proof fn lemma_fitr_kind(
    k: DestinationKind,
    st: FragState,
    read: spec_fn(Seq<char>) -> Option<Binary32>,
    show: spec_fn(Binary32) -> Seq<char>,
    sum: spec_fn(Binary32, Binary32) -> Binary32,
)
    requires
        numbers_agree(read, show),
        kind_returns(k, sum),
        k is FitR,
    ensures
        kind_reads_back(k, st, read, show, sum),
{
    if let DestinationKind::FitR { left, bottom, right, top } = k {
        let w = sum(right, Binary32 { bits: neg_bits(left.bits) });
        let h = sum(top, Binary32 { bits: neg_bits(bottom.bits) });
        lemma_number_text(left, read, show);
        lemma_number_text(bottom, read, show);
        lemma_number_text(w, read, show);
        lemma_number_text(h, read, show);
        let (t1, t2, t3, t4) = (show(left), show(bottom), show(w), show(h));
        lemma_plain_value(t4);
        lemma_pieces_whole(t4, ',', ',');
        lemma_comma_cons(t3, t4);
        let r3 = t3 + seq![','] + t4;
        lemma_comma_cons(t2, r3);
        let r2 = t2 + seq![','] + r3;
        lemma_comma_cons(t1, r2);
        let v = t1 + seq![','] + r2;
        assert(pieces(v, ',', ',') =~= seq![t1, t2, t3, t4]);
        reveal_strlit("&viewrect=");
        reveal_strlit(",");
        assert(kind_fragment(k, show, sum) =~= seq!['&'] + kind_key(k) + seq!['='] + v);
        assert(kind_value(k, show, sum) =~= v);
        assert(nth_number(v, 0, read) == Some(left));
        assert(nth_number(v, 1, read) == Some(bottom));
        assert(nth_number(v, 2, read) == Some(w));
        assert(nth_number(v, 3, read) == Some(h));
        assert(viewrect_value(v, read, sum) == Some(k));
        lemma_step_viewrect(st, v, read, sum);
    }
}

/// Every view that reads back does so; the default view has no fragment parameter.
pub proof fn lemma_kind(
    k: DestinationKind,
    st: FragState,
    read: spec_fn(Seq<char>) -> Option<Binary32>,
    show: spec_fn(Binary32) -> Seq<char>,
    sum: spec_fn(Binary32, Binary32) -> Binary32,
)
    requires
        numbers_agree(read, show),
        kind_returns(k, sum),
    ensures
        k == default_kind() ==> kind_fragment(k, show, sum) == Seq::<char>::empty(),
        k != default_kind() ==> kind_reads_back(k, st, read, show, sum),
{
    if k == default_kind() {
    } else if k is XYZ {
        lemma_xyz_kind(k, st, read, show, sum);
    } else if k is FitR {
        lemma_fitr_kind(k, st, read, show, sum);
    } else {
        lemma_view_kinds(k, st, read, show, sum);
    }
}

/// A destination whose fragment reads back as that destination: a page below the largest
/// `i32` with a view that reads back, or a non-empty name.
pub open spec fn dest_returns(d: DestModel, sum: spec_fn(Binary32, Binary32) -> Binary32) -> bool {
    match d {
        DestModel::Page { page, kind } => page < i32::MAX && kind_returns(kind, sum),
        DestModel::Named(n) => n.len() > 0,
    }
}

/// What a fragment is read as, for a destination.
pub open spec fn dest_meaning(d: DestModel) -> FragModel {
    match d {
        DestModel::Page { page, kind } => FragModel::Explicit(page, kind),
        DestModel::Named(n) => FragModel::Named(n),
    }
}

/// Characters that percent-encoding produces make value text without `,`.
proof fn lemma_uri_safe_value(e: Seq<char>)
    requires
        all_uri_safe(e),
    ensures
        value_text(e),
        no_sep(e, ',', ','),
        no_sep(e, '#', '#'),
{
    assert forall|i: int| 0 <= i < e.len() implies {
        &&& !is_whitespace(#[trigger] e[i])
        &&& !crate::text::is_sep(e[i], '&', '#')
        &&& !crate::text::is_sep(e[i], '=', '=')
        &&& !crate::text::is_sep(e[i], ',', ',')
        &&& !crate::text::is_sep(e[i], '#', '#')
    } by {
        assert(uri_safe(e[i]));
    }
}

/// Decimal text is plain text.
proof fn lemma_decimal_plain(n: nat)
    ensures
        plain_text(decimal(n)),
{
    lemma_decimal_digits(n);
    let d = decimal(n);
    assert forall|i: int| 0 <= i < d.len() implies {
        &&& !is_whitespace(#[trigger] d[i])
        &&& d[i] != ','
        &&& d[i] != '&'
        &&& d[i] != '#'
        &&& d[i] != '='
    } by {
        assert(is_digit(d[i]));
    }
}

/// `key=value` splits into its key and value.
proof fn lemma_piece_kv(k: Seq<char>, v: Seq<char>)
    requires
        no_ws(k),
        no_ws(v),
        no_sep(k, '=', '='),
    ensures
        piece_kv(k + seq!['='] + v) == Some((k, v)),
        no_ws(k + seq!['='] + v),
{
    let p = k + seq!['='] + v;
    assert(no_ws(p)) by {
        assert forall|i: int| 0 <= i < p.len() implies !is_whitespace(#[trigger] p[i]) by {
            if i < k.len() {
                assert(p[i] == k[i]);
            } else if i > k.len() {
                assert(p[i] == v[i - k.len() - 1]);
            }
        }
    }
    lemma_trim_no_ws(p);
    lemma_trim_no_ws(k);
    lemma_trim_no_ws(v);
    lemma_split_once_cons(k, '=', v);
}

/// `page=<N>`, the one-based number of `page`, sets that page and the default view.
proof fn lemma_step_page(st: FragState, page: u32, read: spec_fn(Seq<char>) -> Option<Binary32>, sum: spec_fn(Binary32, Binary32) -> Binary32)
    requires
        page < i32::MAX,
    ensures
        frag_step(st, seq!['p', 'a', 'g', 'e'], decimal(one_based(page)), read, sum) == FragStep::Go(
            FragState { page: Some(page), kind: Some(default_kind()), named: None },
        ),
{
    lemma_parse_decimal(one_based(page));
    lemma_icase_refl(seq!['p', 'a', 'g', 'e']);
}

/// The parameters of a fragment that is a single `key=value` piece.
proof fn lemma_single_pair(k: Seq<char>, v: Seq<char>)
    requires
        no_ws(k),
        no_ws(v),
        no_sep(k, '=', '='),
        no_sep(k, '&', '#'),
        no_sep(v, '&', '#'),
    ensures
        fragment_pairs(k + seq!['='] + v) == seq![(k, v)],
        piece_kv(k + seq!['='] + v) == Some((k, v)),
        no_sep(k + seq!['='] + v, '&', '#'),
        no_sep(k + seq!['='] + v, '#', '#'),
        no_ws(k + seq!['='] + v),
{
    let f = k + seq!['='] + v;
    lemma_piece_kv(k, v);
    assert(no_sep(f, '&', '#') && no_sep(f, '#', '#')) by {
        assert forall|i: int| 0 <= i < f.len() implies !crate::text::is_sep(#[trigger] f[i], '&', '#') by {
            if i < k.len() {
                assert(f[i] == k[i]);
            } else if i > k.len() {
                assert(f[i] == v[i - k.len() - 1]);
            }
        }
    }
    lemma_pieces_whole(f, '&', '#');
    let ps = pieces(f, '&', '#');
    assert(ps[0] == f);
    assert(ps.drop_first() =~= Seq::<Seq<char>>::empty());
    assert(kv_list(ps.drop_first()) =~= Seq::<(Seq<char>, Seq<char>)>::empty());
    assert(kv_list(ps) =~= seq![(k, v)]);
}

/// Reading one parameter that goes on.
proof fn lemma_run1(
    kv: (Seq<char>, Seq<char>),
    st0: FragState,
    st1: FragState,
    read: spec_fn(Seq<char>) -> Option<Binary32>,
    sum: spec_fn(Binary32, Binary32) -> Binary32,
)
    requires
        frag_step(st0, kv.0, kv.1, read, sum) == FragStep::Go(st1),
    ensures
        frag_run(seq![kv], st0, read, sum) == FragStep::Go(st1),
{
    let pairs = seq![kv];
    assert(pairs[0] == kv);
    assert(pairs.drop_first() =~= Seq::<(Seq<char>, Seq<char>)>::empty());
    assert(frag_run(Seq::<(Seq<char>, Seq<char>)>::empty(), st1, read, sum) == FragStep::Go(st1));
}

/// Reading two parameters that go on.
proof fn lemma_run2(
    kv1: (Seq<char>, Seq<char>),
    kv2: (Seq<char>, Seq<char>),
    st0: FragState,
    st1: FragState,
    st2: FragState,
    read: spec_fn(Seq<char>) -> Option<Binary32>,
    sum: spec_fn(Binary32, Binary32) -> Binary32,
)
    requires
        frag_step(st0, kv1.0, kv1.1, read, sum) == FragStep::Go(st1),
        frag_step(st1, kv2.0, kv2.1, read, sum) == FragStep::Go(st2),
    ensures
        frag_run(seq![kv1, kv2], st0, read, sum) == FragStep::Go(st2),
{
    let pairs = seq![kv1, kv2];
    assert(pairs[0] == kv1);
    assert(pairs.drop_first() =~= seq![kv2]);
    lemma_run1(kv2, st1, st2, read, sum);
}

/// The fragment of a page destination with the default view.
proof fn lemma_dest_page_default(
    page: u32,
    read: spec_fn(Seq<char>) -> Option<Binary32>,
    show: spec_fn(Binary32) -> Seq<char>,
    sum: spec_fn(Binary32, Binary32) -> Binary32,
)
    requires
        page < i32::MAX,
    ensures
        ({
            let f = dest_fragment(DestModel::Page { page, kind: default_kind() }, show, sum);
            &&& f.len() > 0
            &&& no_ws(f)
            &&& no_sep(f, '#', '#')
            &&& fragment_model(f, read, sum) == FragModel::Explicit(page, default_kind())
        }),
{
    let kind = default_kind();
    let f = dest_fragment(DestModel::Page { page, kind }, show, sum);
    let key = seq!['p', 'a', 'g', 'e'];
    let dec = decimal(one_based(page));
    lemma_decimal_plain(one_based(page));
    lemma_plain(dec);
    lemma_single_pair(key, dec);
    reveal_strlit("page=");
    assert(kind_fragment(kind, show, sum) == Seq::<char>::empty());
    assert(f =~= key + seq!['='] + dec);
    let st1 = FragState { page: Some(page), kind: Some(default_kind()), named: None };
    lemma_step_page(frag_init(), page, read, sum);
    lemma_run1((key, dec), frag_init(), st1, read, sum);
}

/// Two `key=value` pieces joined with `&`.
proof fn lemma_amp_join(p1: Seq<char>, p2: Seq<char>)
    requires
        no_ws(p1),
        no_ws(p2),
        no_sep(p1, '&', '#'),
        no_sep(p2, '&', '#'),
    ensures
        no_ws(p1 + seq!['&'] + p2),
        no_sep(p1 + seq!['&'] + p2, '#', '#'),
        pieces(p1 + seq!['&'] + p2, '&', '#') == seq![p1, p2],
{
    let f = p1 + seq!['&'] + p2;
    assert forall|i: int| 0 <= i < f.len() implies !is_whitespace(#[trigger] f[i])
        && !crate::text::is_sep(f[i], '#', '#') by {
        if i < p1.len() {
            assert(f[i] == p1[i]);
        } else if i > p1.len() {
            assert(f[i] == p2[i - p1.len() - 1]);
        }
    }
    lemma_pieces_cons(p1, '&', p2, '&', '#');
    lemma_pieces_whole(p2, '&', '#');
    assert(seq![p1] + seq![p2] =~= seq![p1, p2]);
}

/// The fragment of a page destination with a view other than the default.
#[verifier::spinoff_prover]
proof fn lemma_dest_page_view(
    page: u32,
    kind: DestinationKind,
    read: spec_fn(Seq<char>) -> Option<Binary32>,
    show: spec_fn(Binary32) -> Seq<char>,
    sum: spec_fn(Binary32, Binary32) -> Binary32,
)
    requires
        numbers_agree(read, show),
        page < i32::MAX,
        kind_returns(kind, sum),
        kind != default_kind(),
    ensures
        ({
            let f = dest_fragment(DestModel::Page { page, kind }, show, sum);
            &&& f.len() > 0
            &&& no_ws(f)
            &&& no_sep(f, '#', '#')
            &&& fragment_model(f, read, sum) == FragModel::Explicit(page, kind)
        }),
{
    let f = dest_fragment(DestModel::Page { page, kind }, show, sum);
    let key = seq!['p', 'a', 'g', 'e'];
    let dec = decimal(one_based(page));
    lemma_decimal_plain(one_based(page));
    lemma_plain(dec);
    let p1 = key + seq!['='] + dec;
    lemma_single_pair(key, dec);
    let st1 = FragState { page: Some(page), kind: Some(default_kind()), named: None };
    let st2 = FragState { kind: Some(kind), ..st1 };
    lemma_step_page(frag_init(), page, read, sum);
    lemma_kind(kind, st1, read, show, sum);
    let kk = kind_key(kind);
    let v = kind_value(kind, show, sum);
    let p2 = kk + seq!['='] + v;
    lemma_single_pair(kk, v);
    lemma_amp_join(p1, p2);
    reveal_strlit("page=");
    assert(f =~= p1 + seq!['&'] + p2);
    let ps = pieces(f, '&', '#');
    assert(ps.drop_first() =~= seq![p2]);
    assert(seq![p2].drop_first() =~= Seq::<Seq<char>>::empty());
    assert(seq![p2][0] == p2);
    assert(kv_list(Seq::<Seq<char>>::empty()) =~= Seq::<(Seq<char>, Seq<char>)>::empty());
    assert(kv_list(seq![p2]) =~= seq![(kk, v)]);
    assert(ps[0] == p1);
    assert(fragment_pairs(f) =~= seq![(key, dec), (kk, v)]);
    lemma_run2((key, dec), (kk, v), frag_init(), st1, st2, read, sum);
}

/// The fragment of a page destination that reads back is read as that page and view.
proof fn lemma_dest_page(
    page: u32,
    kind: DestinationKind,
    read: spec_fn(Seq<char>) -> Option<Binary32>,
    show: spec_fn(Binary32) -> Seq<char>,
    sum: spec_fn(Binary32, Binary32) -> Binary32,
)
    requires
        numbers_agree(read, show),
        page < i32::MAX,
        kind_returns(kind, sum),
    ensures
        ({
            let f = dest_fragment(DestModel::Page { page, kind }, show, sum);
            &&& f.len() > 0
            &&& no_ws(f)
            &&& no_sep(f, '#', '#')
            &&& fragment_model(f, read, sum) == FragModel::Explicit(page, kind)
        }),
{
    if kind == default_kind() {
        lemma_dest_page_default(page, read, show, sum);
    } else {
        lemma_dest_page_view(page, kind, read, show, sum);
    }
}

/// The fragment of a named destination with a non-empty name is read as that name.
proof fn lemma_dest_named(
    n: Seq<char>,
    read: spec_fn(Seq<char>) -> Option<Binary32>,
    show: spec_fn(Binary32) -> Seq<char>,
    sum: spec_fn(Binary32, Binary32) -> Binary32,
)
    requires
        n.len() > 0,
    ensures
        ({
            let f = dest_fragment(DestModel::Named(n), show, sum);
            &&& f.len() > 0
            &&& no_ws(f)
            &&& no_sep(f, '#', '#')
            &&& fragment_model(f, read, sum) == FragModel::Named(n)
        }),
{
    let f = dest_fragment(DestModel::Named(n), show, sum);
    let key = seq!['n', 'a', 'm', 'e', 'd', 'd', 'e', 's', 't'];
    let e = encode_uri(n, false);
    lemma_decode_encode(n, false);
    lemma_uri_safe_value(e);
    lemma_single_pair(key, e);
    reveal_strlit("nameddest=");
    assert(f =~= key + seq!['='] + e);
    lemma_icase_refl(key);
    let st = FragState { page: None, kind: None, named: Some(e) };
    assert(frag_step(frag_init(), key, e, read, sum) == FragStep::Go(st));
    lemma_run1((key, e), frag_init(), st, read, sum);
}

/// The fragment of a destination that reads back is read as that destination.
pub proof fn lemma_dest(
    d: DestModel,
    read: spec_fn(Seq<char>) -> Option<Binary32>,
    show: spec_fn(Binary32) -> Seq<char>,
    sum: spec_fn(Binary32, Binary32) -> Binary32,
)
    requires
        numbers_agree(read, show),
        dest_returns(d, sum),
    ensures
        dest_fragment(d, show, sum).len() > 0,
        no_ws(dest_fragment(d, show, sum)),
        no_sep(dest_fragment(d, show, sum), '#', '#'),
        fragment_model(dest_fragment(d, show, sum), read, sum) == dest_meaning(d),
{
    match d {
        DestModel::Page { page, kind } => lemma_dest_page(page, kind, read, show, sum),
        DestModel::Named(n) => lemma_dest_named(n, read, show, sum),
    }
}

/// The link URI of a `GoTo` action whose destination reads back is read as that action.
proof fn lemma_goto(
    d: DestModel,
    read: spec_fn(Seq<char>) -> Option<Binary32>,
    show: spec_fn(Binary32) -> Seq<char>,
    sum: spec_fn(Binary32, Binary32) -> Binary32,
)
    requires
        numbers_agree(read, show),
        dest_returns(d, sum),
    ensures
        parse_link(action_uri(ActionModel::GoTo(d), show, sum), read, sum) == Some(ActionModel::GoTo(d)),
{
    let f = dest_fragment(d, show, sum);
    lemma_dest(d, read, show, sum);
    let uri = action_uri(ActionModel::GoTo(d), show, sum);
    reveal_strlit("#");
    assert(uri =~= Seq::<char>::empty() + seq!['#'] + f);
    assert(no_ws(uri)) by {
        assert forall|i: int| 0 <= i < uri.len() implies !is_whitespace(#[trigger] uri[i]) by {
            if i > 0 {
                assert(uri[i] == f[i - 1]);
            }
        }
    }
    lemma_trim_no_ws(uri);
    lemma_split_once_cons(Seq::<char>::empty(), '#', f);
    lemma_trim_no_ws(f);
    lemma_trim_no_ws(Seq::<char>::empty());
    assert(head_and_params(uri) == (Seq::<char>::empty(), f));
}

/// The text of a URI action that reads back: no whitespace around it, an external link,
/// and before any `#` neither a `file:` prefix nor a `.pdf` name.
pub open spec fn uri_returns(u: Seq<char>) -> bool {
    let h = head_and_params(u).0;
    &&& u.len() > 0
    &&& trim(u) == u
    &&& h.len() > 0
    &&& icase_prefix_rest(h, seq!['f', 'i', 'l', 'e', ':']) is None
    &&& !is_pdf_name(h)
    &&& is_external(u)
}

/// The link URI of a `Uri` action that reads back is read as that action.
proof fn lemma_uri(
    u: Seq<char>,
    read: spec_fn(Seq<char>) -> Option<Binary32>,
    show: spec_fn(Binary32) -> Seq<char>,
    sum: spec_fn(Binary32, Binary32) -> Binary32,
)
    requires
        uri_returns(u),
    ensures
        parse_link(action_uri(ActionModel::Uri(u), show, sum), read, sum) == Some(ActionModel::Uri(u)),
{
}

/// A URL of a `GoToR` action that reads back: no whitespace and no `#` in it, no `file:`
/// prefix, an external link, and a `.pdf` name.
pub open spec fn url_returns(u: Seq<char>) -> bool {
    &&& no_ws(u)
    &&& no_sep(u, '#', '#')
    &&& icase_prefix_rest(u, seq!['f', 'i', 'l', 'e', ':']) is None
    &&& is_pdf_name(u)
    &&& is_external(u)
}

/// The link URI of a `GoToR` action to a URL that reads back is read as that action.
proof fn lemma_gotor_url(
    u: Seq<char>,
    d: DestModel,
    read: spec_fn(Seq<char>) -> Option<Binary32>,
    show: spec_fn(Binary32) -> Seq<char>,
    sum: spec_fn(Binary32, Binary32) -> Binary32,
)
    requires
        numbers_agree(read, show),
        dest_returns(d, sum),
        url_returns(u),
    ensures
        parse_link(action_uri(ActionModel::GoToR { file: FileModel::Url(u), dest: d }, show, sum), read, sum)
            == Some(ActionModel::GoToR { file: FileModel::Url(u), dest: d }),
{
    let f = dest_fragment(d, show, sum);
    lemma_dest(d, read, show, sum);
    let uri = action_uri(ActionModel::GoToR { file: FileModel::Url(u), dest: d }, show, sum);
    reveal_strlit("#");
    assert(!u.contains('#')) by {
        if u.contains('#') {
            let i = choose|i: int| 0 <= i < u.len() && u[i] == '#';
            assert(!crate::text::is_sep(u[i], '#', '#'));
        }
    }
    assert(fragment_sep(FileModel::Url(u)) == seq!['#']);
    assert(uri =~= u + seq!['#'] + f);
    assert(no_ws(uri)) by {
        assert forall|i: int| 0 <= i < uri.len() implies !is_whitespace(#[trigger] uri[i]) by {
            if i < u.len() {
                assert(uri[i] == u[i]);
            } else if i > u.len() {
                assert(uri[i] == f[i - u.len() - 1]);
            }
        }
    }
    lemma_trim_no_ws(uri);
    lemma_split_once_cons(u, '#', f);
    lemma_trim_no_ws(f);
    lemma_trim_no_ws(u);
    assert(head_and_params(uri) == (u, f));
    assert(u.len() > 0);
}

/// A character that equals one of `.pdf` (letter case ignored) is an ASCII character that a
/// path keeps.
proof fn lemma_pdf_char(c: char, d: char)
    requires
        ascii_lower(c) == ascii_lower(d),
        d == '.' || d == 'p' || d == 'd' || d == 'f',
    ensures
        '\0' <= c <= '\u{7f}',
        keeps(c as u8, true),
{
}

/// The encoding of a `.pdf` path ends with the same four characters.
proof fn lemma_encode_pdf_tail(p: Seq<char>)
    requires
        is_pdf_name(p),
    ensures
        encode_uri(p, true).len() >= 4,
        encode_uri(p, true).skip(encode_uri(p, true).len() - 4) == p.skip(p.len() - 4),
        is_pdf_name(encode_uri(p, true)),
{
    let n = p.len() as int;
    let q = p.take(n - 4);
    let t = p.skip(n - 4);
    let ext = seq!['.', 'p', 'd', 'f'];
    assert(p =~= q + t);
    assert(ascii_lower(t[0]) == ascii_lower(ext[0]));
    assert(ascii_lower(t[1]) == ascii_lower(ext[1]));
    assert(ascii_lower(t[2]) == ascii_lower(ext[2]));
    assert(ascii_lower(t[3]) == ascii_lower(ext[3]));
    lemma_pdf_char(t[0], '.');
    lemma_pdf_char(t[1], 'p');
    lemma_pdf_char(t[2], 'd');
    lemma_pdf_char(t[3], 'f');
    lemma_encode_kept_char(t[0], true);
    lemma_encode_kept_char(t[1], true);
    lemma_encode_kept_char(t[2], true);
    lemma_encode_kept_char(t[3], true);
    assert(t =~= seq![t[0]] + (seq![t[1]] + (seq![t[2]] + seq![t[3]])));
    lemma_encode_uri_concat(seq![t[2]], seq![t[3]], true);
    lemma_encode_uri_concat(seq![t[1]], seq![t[2]] + seq![t[3]], true);
    lemma_encode_uri_concat(seq![t[0]], seq![t[1]] + (seq![t[2]] + seq![t[3]]), true);
    assert(encode_uri(t, true) =~= t);
    lemma_encode_uri_concat(q, t, true);
    let e = encode_uri(p, true);
    assert(e =~= encode_uri(q, true) + t);
    assert(e.skip(e.len() - 4) =~= t);
}

/// A path of a `GoToR` action that reads back: a `.pdf` name in normal form.
pub open spec fn pdf_path_returns(p: Seq<char>) -> bool {
    is_pdf_name(p) && clean_name(p) == p
}

/// The `file:` URI of a path reads back (after `file:`) as that path, when the path is in
/// normal form.
proof fn lemma_file_uri(p: Seq<char>)
    requires
        p.len() > 0,
        clean_name(p) == p,
    ensures
        ({
            let u = file_uri(FileModel::Path(p));
            let five = seq!['f', 'i', 'l', 'e', ':'];
            let rest = u.skip(5);
            &&& u.len() >= 5
            &&& icase_prefix_rest(u, five) == Some(rest)
            &&& decode_and_clean(rest) == p
            &&& no_ws(u)
            &&& no_sep(u, '#', '#')
            &&& rest.len() > 0
            &&& rest.len() >= encode_uri(p, true).len()
            &&& rest.skip(rest.len() - encode_uri(p, true).len()) == encode_uri(p, true)
            &&& (rest == encode_uri(p, true) || rest == seq!['/', '/'] + encode_uri(p, true))
        }),
{
    let e = encode_uri(p, true);
    lemma_decode_encode(p, true);
    lemma_uri_safe_value(e);
    let u = file_uri(FileModel::Path(p));
    let five = seq!['f', 'i', 'l', 'e', ':'];
    reveal_strlit("file://");
    reveal_strlit("file:");
    lemma_icase_refl(five);
    if p[0] == '/' {
        let slashes = seq!['/', '/'];
        assert(u =~= five + slashes + e);
        let rest = u.skip(5);
        assert(rest =~= slashes + e);
        assert(u.take(5) =~= five);
        lemma_decode_prefixed(slashes, p, true);
        lemma_cleanname_slashes(p);
        assert(rest.skip(rest.len() - e.len()) =~= e);
        assert(no_ws(u) && no_sep(u, '#', '#')) by {
            assert forall|i: int| 0 <= i < u.len() implies !is_whitespace(#[trigger] u[i])
                && !crate::text::is_sep(u[i], '#', '#') by {
                if i >= 7 {
                    assert(u[i] == e[i - 7]);
                }
            }
        }
    } else {
        assert(u =~= five + e);
        let rest = u.skip(5);
        assert(rest =~= e);
        assert(u.take(5) =~= five);
        assert(rest.skip(rest.len() - e.len()) =~= e);
        assert(no_ws(u) && no_sep(u, '#', '#')) by {
            assert forall|i: int| 0 <= i < u.len() implies !is_whitespace(#[trigger] u[i])
                && !crate::text::is_sep(u[i], '#', '#') by {
                if i >= 5 {
                    assert(u[i] == e[i - 5]);
                }
            }
        }
    }
}

/// The link URI of a `GoToR` action to a path that reads back is read as that action.
proof fn lemma_gotor_path(
    p: Seq<char>,
    d: DestModel,
    read: spec_fn(Seq<char>) -> Option<Binary32>,
    show: spec_fn(Binary32) -> Seq<char>,
    sum: spec_fn(Binary32, Binary32) -> Binary32,
)
    requires
        numbers_agree(read, show),
        dest_returns(d, sum),
        pdf_path_returns(p),
    ensures
        parse_link(action_uri(ActionModel::GoToR { file: FileModel::Path(p), dest: d }, show, sum), read, sum)
            == Some(ActionModel::GoToR { file: FileModel::Path(p), dest: d }),
{
    let f = dest_fragment(d, show, sum);
    lemma_dest(d, read, show, sum);
    let u = file_uri(FileModel::Path(p));
    lemma_file_uri(p);
    lemma_encode_pdf_tail(p);
    let e = encode_uri(p, true);
    let rest = u.skip(5);
    assert(rest.skip(rest.len() - 4) =~= e.skip(e.len() - 4));
    assert(is_pdf_name(rest));
    let uri = action_uri(ActionModel::GoToR { file: FileModel::Path(p), dest: d }, show, sum);
    reveal_strlit("#");
    assert(uri =~= u + seq!['#'] + f);
    assert(no_ws(uri)) by {
        assert forall|i: int| 0 <= i < uri.len() implies !is_whitespace(#[trigger] uri[i]) by {
            if i < u.len() {
                assert(uri[i] == u[i]);
            } else if i > u.len() {
                assert(uri[i] == f[i - u.len() - 1]);
            }
        }
    }
    lemma_trim_no_ws(uri);
    lemma_split_once_cons(u, '#', f);
    lemma_trim_no_ws(f);
    lemma_trim_no_ws(u);
    assert(head_and_params(uri) == (u, f));
}

/// The encoding of a path that is not a `.pdf` name, after `file:`, is not one either.
proof fn lemma_encoded_not_pdf(p: Seq<char>, rest: Seq<char>)
    requires
        !is_pdf_name(p),
        rest == encode_uri(p, true) || rest == seq!['/', '/'] + encode_uri(p, true),
    ensures
        !is_pdf_name(rest),
{
    let e = encode_uri(p, true);
    let ext = seq!['.', 'p', 'd', 'f'];
    if is_pdf_name(rest) {
        let t = rest.skip(rest.len() - 4);
        assert(ascii_lower(t[0]) == ascii_lower(ext[0]));
        assert(ascii_lower(t[1]) == ascii_lower(ext[1]));
        assert(ascii_lower(t[2]) == ascii_lower(ext[2]));
        assert(ascii_lower(t[3]) == ascii_lower(ext[3]));
        assert(t[0] == '.');
        if e.len() < 4 {
            assert(rest != e);
            assert(rest[rest.len() - 4] == '/') by {
                assert(rest.len() - 4 < 2);
            }
        } else {
            assert(t =~= e.skip(e.len() - 4));
            let b = encode_utf8(p);
            lemma_encode_tail(b, t, true);
            assert forall|i: int| b.len() - 4 <= i < b.len() implies #[trigger] b[i] < 0x80 by {
                assert(keeps(b[b.len() - 4 + (i - (b.len() - 4))], true));
            }
            lemma_utf8_ascii_tail(p, 4);
            assert(p.skip(p.len() - 4) =~= t) by {
                assert forall|i: int| 0 <= i < 4 implies p.skip(p.len() - 4)[i] == t[i] by {
                    let c = p[p.len() - 4 + i];
                    let x = b[b.len() - 4 + i];
                    assert(c as u32 == x as u32);
                    assert(x as char == t[i]);
                    char_u32_cast(c, c as u32);
                    assert((x as u32) as char == x as char);
                }
            }
            assert(is_pdf_name(p));
        }
    }
}

/// The link URI of a `Launch` action of a path that reads back is read as that action.
proof fn lemma_launch_path(
    p: Seq<char>,
    read: spec_fn(Seq<char>) -> Option<Binary32>,
    show: spec_fn(Binary32) -> Seq<char>,
    sum: spec_fn(Binary32, Binary32) -> Binary32,
)
    requires
        p.len() > 0,
        clean_name(p) == p,
        !is_pdf_name(p),
    ensures
        parse_link(action_uri(ActionModel::Launch(FileModel::Path(p)), show, sum), read, sum)
            == Some(ActionModel::Launch(FileModel::Path(p))),
{
    let u = file_uri(FileModel::Path(p));
    lemma_file_uri(p);
    let rest = u.skip(5);
    lemma_encoded_not_pdf(p, rest);
    let f = seq!['p', 'a', 'g', 'e', '=', '1'];
    let uri = action_uri(ActionModel::Launch(FileModel::Path(p)), show, sum);
    reveal_strlit("#");
    reveal_strlit("page=1");
    assert(uri =~= u + seq!['#'] + f);
    assert(no_ws(uri)) by {
        assert forall|i: int| 0 <= i < uri.len() implies !is_whitespace(#[trigger] uri[i]) by {
            if i < u.len() {
                assert(uri[i] == u[i]);
            } else if i > u.len() {
                assert(uri[i] == f[i - u.len() - 1]);
            }
        }
    }
    lemma_trim_no_ws(uri);
    lemma_split_once_cons(u, '#', f);
    lemma_trim_no_ws(f);
    lemma_trim_no_ws(u);
    assert(head_and_params(uri) == (u, f));
}

/// An action whose link URI reads back as that action: a `GoTo` to a destination that reads
/// back; a `GoToR` to a `.pdf` path in normal form, or to a URL that reads back, with a
/// destination that reads back; a `Launch` of a non-empty path in normal form that is not a
/// `.pdf` name; a `Uri` whose text reads back.
pub open spec fn action_returns(a: ActionModel, sum: spec_fn(Binary32, Binary32) -> Binary32) -> bool {
    match a {
        ActionModel::GoTo(d) => dest_returns(d, sum),
        ActionModel::GoToR { file, dest } => {
            &&& dest_returns(dest, sum)
            &&& match file {
                FileModel::Path(p) => pdf_path_returns(p),
                FileModel::Url(u) => url_returns(u),
            }
        },
        ActionModel::Launch(f) => match f {
            FileModel::Path(p) => p.len() > 0 && clean_name(p) == p && !is_pdf_name(p),
            FileModel::Url(_) => false,
        },
        ActionModel::Uri(u) => uri_returns(u),
    }
}

/// Writing an action as a link URI and reading the URI back gives the action again, for
/// every action that can be written so (see [`action_returns`]), where the number functions
/// agree: the text that `show` writes for a finite number is read by `read` as that number.
pub proof fn law_uri_round_trip(
    a: ActionModel,
    read: spec_fn(Seq<char>) -> Option<Binary32>,
    show: spec_fn(Binary32) -> Seq<char>,
    sum: spec_fn(Binary32, Binary32) -> Binary32,
)
    requires
        numbers_agree(read, show),
        action_returns(a, sum),
    ensures
        parse_link(action_uri(a, show, sum), read, sum) == Some(a),
{
    match a {
        ActionModel::GoTo(d) => lemma_goto(d, read, show, sum),
        ActionModel::GoToR { file, dest } => match file {
            FileModel::Path(p) => lemma_gotor_path(p, dest, read, show, sum),
            FileModel::Url(u) => lemma_gotor_url(u, dest, read, show, sum),
        },
        ActionModel::Launch(f) => match f {
            FileModel::Path(p) => lemma_launch_path(p, read, show, sum),
            FileModel::Url(_) => {},
        },
        ActionModel::Uri(u) => lemma_uri(u, read, show, sum),
    }
}

/// The URI of a file path never holds a `#`, since the path is percent-encoded: the
/// fragment of the URI of a `GoToR` or `Launch` action to a path always follows the first
/// `#`.
pub proof fn law_path_uri_has_no_hash(p: Seq<char>)
    ensures
        !file_uri(FileModel::Path(p)).contains('#'),
{
    let e = encode_uri(p, true);
    lemma_decode_encode(p, true);
    let u = file_uri(FileModel::Path(p));
    reveal_strlit("file://");
    reveal_strlit("file:");
    if u.contains('#') {
        let i = choose|i: int| 0 <= i < u.len() && u[i] == '#';
        if p.len() > 0 && p[0] == '/' {
            assert(u =~= seq!['f', 'i', 'l', 'e', ':', '/', '/'] + e);
            if i >= 7 {
                assert(u[i] == e[i - 7]);
                assert(uri_safe(e[i - 7]));
            }
        } else {
            assert(u =~= seq!['f', 'i', 'l', 'e', ':'] + e);
            if i >= 5 {
                assert(u[i] == e[i - 5]);
                assert(uri_safe(e[i - 5]));
            }
        }
    }
}

/// A path that a link URI is read as, when the URI is read as a launch of it and the path
/// is not a `.pdf` name, reads back from the URI of that launch: reading a URI, writing
/// the action and reading again gives the same action.
pub proof fn law_launch_reads_back(
    uri: Seq<char>,
    p: Seq<char>,
    read: spec_fn(Seq<char>) -> Option<Binary32>,
    show: spec_fn(Binary32) -> Seq<char>,
    sum: spec_fn(Binary32, Binary32) -> Binary32,
)
    requires
        parse_link(uri, read, sum) == Some(ActionModel::Launch(FileModel::Path(p))),
        !is_pdf_name(p),
    ensures
        parse_link(action_uri(ActionModel::Launch(FileModel::Path(p)), show, sum), read, sum)
            == Some(ActionModel::Launch(FileModel::Path(p))),
{
    let t = trim(uri);
    let head = head_and_params(t).0;
    let stripped = icase_prefix_rest(head, seq!['f', 'i', 'l', 'e', ':']);
    let link = match stripped {
        Some(l) => l,
        None => head,
    };
    let x = if stripped is Some { link } else { t };
    assert(p == decode_and_clean(x));
    law_cleanname_idempotent(decoded_component(x));
    lemma_clean_name_not_empty(decoded_component(x));
    lemma_launch_path(p, read, show, sum);
}

/// The URI of a launch of a file is the URI of a go-to of the first page of that file,
/// with the default view: the same file prefix, the same separator before the fragment,
/// and `page=1`.
pub proof fn law_launch_uri_is_first_page_uri(
    f: FileModel,
    show: spec_fn(Binary32) -> Seq<char>,
    sum: spec_fn(Binary32, Binary32) -> Binary32,
)
    ensures
        action_uri(ActionModel::Launch(f), show, sum) == action_uri(
            ActionModel::GoToR { file: f, dest: default_dest() },
            show,
            sum,
        ),
{
    reveal_strlit("page=1");
    reveal_strlit("page=");
    assert(decimal(1) =~= seq!['1']);
    assert(kind_fragment(default_kind(), show, sum) =~= Seq::<char>::empty());
    assert(dest_fragment(default_dest(), show, sum) =~= seq!['p', 'a', 'g', 'e', '=', '1']);
    assert(action_uri(ActionModel::Launch(f), show, sum) =~= action_uri(
        ActionModel::GoToR { file: f, dest: default_dest() },
        show,
        sum,
    ));
}

/// The URI of a launch of a URL starts with the URL; where the URL already holds a `#`,
/// the rest of the URI holds none (the fragment goes on after `&`), and otherwise the rest
/// starts with the `#` of the fragment.
pub proof fn law_launch_url_one_fragment(
    u: Seq<char>,
    show: spec_fn(Binary32) -> Seq<char>,
    sum: spec_fn(Binary32, Binary32) -> Binary32,
)
    ensures
        ({
            let r = action_uri(ActionModel::Launch(FileModel::Url(u)), show, sum);
            &&& r.len() > u.len()
            &&& r.take(u.len() as int) == u
            &&& u.contains('#') ==> !r.skip(u.len() as int).contains('#')
            &&& !u.contains('#') ==> r[u.len() as int] == '#'
        }),
{
    reveal_strlit("page=1");
    reveal_strlit("&");
    reveal_strlit("#");
    let r = action_uri(ActionModel::Launch(FileModel::Url(u)), show, sum);
    let tail = fragment_sep(FileModel::Url(u)) + seq!['p', 'a', 'g', 'e', '=', '1'];
    assert(r =~= u + tail);
    assert(r.take(u.len() as int) =~= u);
    assert(r.skip(u.len() as int) =~= tail);
    if u.contains('#') {
        assert(tail =~= seq!['&', 'p', 'a', 'g', 'e', '=', '1']);
        if tail.contains('#') {
            let i = choose|i: int| 0 <= i < tail.len() && tail[i] == '#';
            assert(tail[i] != '#');
        }
    } else {
        assert(r[u.len() as int] == tail[0]);
    }
}

} // verus!
