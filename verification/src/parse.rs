//! Reading MuPDF link URIs back into link actions.
use vstd::prelude::*;
use crate::binary32::{
    add_by, hundred_bits, is_adder, is_finite_bits, is_infinite_bits, is_nan_bits, is_reader,
    is_zero_bits, le_zero_bits, lemma_add_by, lemma_read_by, read_by, Binary32,
};
use crate::destination::{default_kind, DestinationKind};
use crate::links::{default_dest, ActionModel, DestModel, FileModel, FileSpec, PdfAction, PdfDestination};
use crate::number::{parse_i32, parse_i32_chars};
use crate::path::{clean_chars, clean_name, lemma_pieces_step};
use crate::percent::{decoded_component, decode_uri_component};
use crate::text::{
    chars_of, eq_icase, eq_icase_at, find_sep, lemma_trim_trim, pieces, sep_index, split_once,
    string_of, trim, trim_bounds,
};

verus! {

/// `pat` starts `s`, ASCII letter case ignored; the rest of `s` after it.
pub open spec fn icase_prefix_rest(s: Seq<char>, pat: Seq<char>) -> Option<Seq<char>> {
    if s.len() >= pat.len() && eq_icase(s.take(pat.len() as int), pat) {
        Some(s.skip(pat.len() as int))
    } else {
        None
    }
}

/// The file name ends with `.pdf`, ASCII letter case ignored.
pub open spec fn is_pdf_name(s: Seq<char>) -> bool {
    s.len() >= 4 && eq_icase(s.skip(s.len() - 4), seq!['.', 'p', 'd', 'f'])
}

/// `c` is an ASCII letter.
pub open spec fn is_ascii_alpha(c: char) -> bool {
    ('a' <= c && c <= 'z') || ('A' <= c && c <= 'Z')
}

/// `c` may stand in a URI scheme after its first letter: an ASCII letter or digit, `+`,
/// `-` or `.`.
pub open spec fn is_scheme_char(c: char) -> bool {
    is_ascii_alpha(c) || ('0' <= c && c <= '9') || c == '+' || c == '-' || c == '.'
}

/// `s` starts with a URI scheme of at least three characters and a `:` (so that a drive
/// letter such as `C:` is not taken for a scheme).
pub open spec fn is_external(s: Seq<char>) -> bool {
    match split_once(s, ':') {
        Some((scheme, _)) => {
            &&& scheme.len() >= 3
            &&& is_ascii_alpha(scheme[0])
            &&& forall|i: int| 1 <= i < scheme.len() ==> #[trigger] is_scheme_char(scheme[i])
        },
        None => false,
    }
}

/// A path as a URI carries it: percent-decoded, then normalised.
pub open spec fn decode_and_clean(s: Seq<char>) -> Seq<char> {
    clean_name(decoded_component(s))
}

/// The zero-based page of a one-based page number; numbers below 1 give the first page.
pub open spec fn parse_page(v: Seq<char>) -> Option<u32> {
    match parse_i32(v) {
        Some(n) => Some(
            if n < 2 {
                0u32
            } else {
                (n - 1) as u32
            },
        ),
        None => None,
    }
}

/// A value that is present and finite.
pub open spec fn finite_only(o: Option<Binary32>) -> Option<Binary32> {
    match o {
        Some(x) => if is_finite_bits(x.bits) {
            Some(x)
        } else {
            None
        },
        None => None,
    }
}

/// The finite number that a piece of text denotes once trimmed, if any.
pub open spec fn read_number(p: Seq<char>, read: spec_fn(Seq<char>) -> Option<Binary32>) -> Option<Binary32> {
    finite_only(read(trim(p)))
}

/// The finite number in the `n`-th comma-separated piece of `s`, if any.
pub open spec fn nth_number(s: Seq<char>, n: int, read: spec_fn(Seq<char>) -> Option<Binary32>) -> Option<Binary32> {
    let ps = pieces(s, ',', ',');
    if n < ps.len() {
        read_number(ps[n], read)
    } else {
        None
    }
}

/// The view of `viewrect=left,top,width,height`: four finite numbers, a non-zero width and
/// height.
pub open spec fn viewrect_value(
    s: Seq<char>,
    read: spec_fn(Seq<char>) -> Option<Binary32>,
    sum: spec_fn(Binary32, Binary32) -> Binary32,
) -> Option<DestinationKind> {
    match (nth_number(s, 0, read), nth_number(s, 1, read), nth_number(s, 2, read), nth_number(s, 3, read)) {
        (Some(x), Some(y), Some(w), Some(h)) => if is_zero_bits(w.bits) || is_zero_bits(h.bits) {
            None
        } else {
            Some(DestinationKind::FitR { left: x, bottom: y, right: sum(x, w), top: sum(y, h) })
        },
        _ => None,
    }
}

/// A zoom as read: a NaN is absent, and an infinite or non-positive zoom is 100 percent.
pub open spec fn zoom_value(o: Option<Binary32>) -> Option<Binary32> {
    match o {
        Some(x) => if is_nan_bits(x.bits) {
            None
        } else if is_infinite_bits(x.bits) || le_zero_bits(x.bits) {
            Some(Binary32 { bits: hundred_bits() })
        } else {
            Some(x)
        },
        None => None,
    }
}

/// The view of `zoom=scale,left,top`.
pub open spec fn zoom_kind(s: Seq<char>, read: spec_fn(Seq<char>) -> Option<Binary32>) -> DestinationKind {
    let ps = pieces(s, ',', ',');
    DestinationKind::XYZ {
        left: nth_number(s, 1, read),
        top: nth_number(s, 2, read),
        zoom: zoom_value(read(trim(ps[0]))),
    }
}

/// The view of `view=Fit`, `view=FitB`, `view=FitH[,top]`, `view=FitBH[,top]`,
/// `view=FitV[,left]` or `view=FitBV[,left]` (names in any ASCII letter case).
pub open spec fn view_kind(s: Seq<char>, read: spec_fn(Seq<char>) -> Option<Binary32>) -> Option<DestinationKind> {
    let ps = pieces(s, ',', ',');
    let key = trim(ps[0]);
    let val = if ps.len() > 1 {
        read_number(ps[1], read)
    } else {
        None
    };
    if s.len() == 0 {
        None
    } else if eq_icase(key, seq!['F', 'i', 't']) {
        Some(DestinationKind::Fit)
    } else if eq_icase(key, seq!['F', 'i', 't', 'B']) {
        Some(DestinationKind::FitB)
    } else if eq_icase(key, seq!['F', 'i', 't', 'H']) {
        Some(DestinationKind::FitH { top: val })
    } else if eq_icase(key, seq!['F', 'i', 't', 'B', 'H']) {
        Some(DestinationKind::FitBH { top: val })
    } else if eq_icase(key, seq!['F', 'i', 't', 'V']) {
        Some(DestinationKind::FitV { left: val })
    } else if eq_icase(key, seq!['F', 'i', 't', 'B', 'V']) {
        Some(DestinationKind::FitBV { left: val })
    } else {
        None
    }
}

/// What the fragment parameters read so far say: a page, a view, a named destination.
pub struct FragState {
    pub page: Option<u32>,
    pub kind: Option<DestinationKind>,
    pub named: Option<Seq<char>>,
}

/// After one parameter: go on with a new state, or stop at a parameter that is not a
/// destination parameter, keeping the named destination in force there (an empty
/// `nameddest=` stops with an empty name).
pub enum FragStep {
    Go(FragState),
    Stop(Option<Seq<char>>),
}

/// How one `key=value` parameter changes what the fragment says. `page` sets the page and
/// resets the view and the named destination; `nameddest` sets the named destination and
/// resets the page and view; `viewrect`, `zoom` and `view` set the view where their value
/// reads as one.
pub open spec fn frag_step(
    st: FragState,
    k: Seq<char>,
    v: Seq<char>,
    read: spec_fn(Seq<char>) -> Option<Binary32>,
    sum: spec_fn(Binary32, Binary32) -> Binary32,
) -> FragStep {
    if eq_icase(k, seq!['p', 'a', 'g', 'e']) && parse_page(v) is Some {
        FragStep::Go(FragState { page: parse_page(v), kind: Some(default_kind()), named: None })
    } else if eq_icase(k, seq!['n', 'a', 'm', 'e', 'd', 'd', 'e', 's', 't']) {
        if v.len() > 0 {
            FragStep::Go(FragState { page: None, kind: None, named: Some(v) })
        } else {
            FragStep::Stop(Some(Seq::empty()))
        }
    } else if eq_icase(k, seq!['v', 'i', 'e', 'w', 'r', 'e', 'c', 't']) {
        FragStep::Go(
            FragState {
                kind: match viewrect_value(v, read, sum) {
                    Some(nk) => Some(nk),
                    None => st.kind,
                },
                ..st
            },
        )
    } else if eq_icase(k, seq!['z', 'o', 'o', 'm']) {
        FragStep::Go(FragState { kind: Some(zoom_kind(v, read)), ..st })
    } else if eq_icase(k, seq!['v', 'i', 'e', 'w']) {
        FragStep::Go(
            FragState {
                kind: match view_kind(v, read) {
                    Some(nk) => Some(nk),
                    None => st.kind,
                },
                ..st
            },
        )
    } else {
        FragStep::Stop(st.named)
    }
}

/// The `key=value` parameter of a fragment piece: the piece trimmed and split at its first
/// `=`, key and value trimmed; none where there is no `=`.
pub open spec fn piece_kv(p: Seq<char>) -> Option<(Seq<char>, Seq<char>)> {
    match split_once(trim(p), '=') {
        Some((k, v)) => Some((trim(k), trim(v))),
        None => None,
    }
}

/// The parameters of the pieces `ps`, in order.
pub open spec fn kv_list(ps: Seq<Seq<char>>) -> Seq<(Seq<char>, Seq<char>)>
    decreases ps.len(),
{
    if ps.len() == 0 {
        Seq::empty()
    } else {
        match piece_kv(ps[0]) {
            Some(kv) => seq![kv] + kv_list(ps.drop_first()),
            None => kv_list(ps.drop_first()),
        }
    }
}

/// The `key=value` parameters of a fragment, whose pieces are separated by `&` or `#`.
pub open spec fn fragment_pairs(s: Seq<char>) -> Seq<(Seq<char>, Seq<char>)> {
    kv_list(pieces(s, '&', '#'))
}

/// What the parameters `pairs` say, read left to right from `st`.
pub open spec fn frag_run(
    pairs: Seq<(Seq<char>, Seq<char>)>,
    st: FragState,
    read: spec_fn(Seq<char>) -> Option<Binary32>,
    sum: spec_fn(Binary32, Binary32) -> Binary32,
) -> FragStep
    decreases pairs.len(),
{
    if pairs.len() == 0 {
        FragStep::Go(st)
    } else {
        match frag_step(st, pairs[0].0, pairs[0].1, read, sum) {
            FragStep::Go(st2) => frag_run(pairs.drop_first(), st2, read, sum),
            FragStep::Stop(n) => FragStep::Stop(n),
        }
    }
}

/// The state before any parameter.
pub open spec fn frag_init() -> FragState {
    FragState { page: None, kind: None, named: None }
}

/// What a URI fragment denotes.
pub enum FragModel {
    /// There is no fragment.
    Empty,
    /// A page and a view.
    Explicit(u32, DestinationKind),
    /// A named destination.
    Named(Seq<char>),
    /// A parameter that is not a destination parameter, and the named destination in force
    /// before it.
    Unknown(Option<Seq<char>>),
}

/// What the fragment `params` denotes. A named destination in force at the end wins; a
/// fragment with no page and no view is itself a (percent-encoded) named destination.
pub open spec fn fragment_model(
    params: Seq<char>,
    read: spec_fn(Seq<char>) -> Option<Binary32>,
    sum: spec_fn(Binary32, Binary32) -> Binary32,
) -> FragModel {
    if params.len() == 0 {
        FragModel::Empty
    } else {
        match frag_run(fragment_pairs(params), frag_init(), read, sum) {
            FragStep::Stop(n) => FragModel::Unknown(n),
            FragStep::Go(st) => match st.named {
                Some(n) => FragModel::Named(decoded_component(n)),
                None => if st.page is None && st.kind is None {
                    FragModel::Named(decoded_component(params))
                } else {
                    FragModel::Explicit(
                        match st.page {
                            Some(p) => p,
                            None => 0,
                        },
                        match st.kind {
                            Some(k) => k,
                            None => default_kind(),
                        },
                    )
                },
            },
        }
    }
}

/// The text before the first `#` (trimmed) and the fragment after it (trimmed; empty where
/// there is no `#`).
pub open spec fn head_and_params(uri: Seq<char>) -> (Seq<char>, Seq<char>) {
    match split_once(uri, '#') {
        Some((h, p)) => (trim(h), trim(p)),
        None => (uri, Seq::empty()),
    }
}

/// The action that a MuPDF link URI denotes (trimmed first), if any:
/// - a fragment alone is a `GoTo` to the page, view or named destination it gives;
/// - a `.pdf` file (after an optional `file:`) is a `GoToR` to it, with a URL where the
///   text is an external link and no `file:` was given, a decoded and normalised path
///   otherwise; a fragment with other parameters makes the whole text a `Uri`;
/// - another `file:` path, or any text that is not an external link, is a `Launch` of the
///   decoded and normalised path;
/// - any other text is a `Uri`.
pub open spec fn parse_link(
    uri0: Seq<char>,
    read: spec_fn(Seq<char>) -> Option<Binary32>,
    sum: spec_fn(Binary32, Binary32) -> Binary32,
) -> Option<ActionModel> {
    let uri = trim(uri0);
    let head = head_and_params(uri).0;
    let params = head_and_params(uri).1;
    let stripped = icase_prefix_rest(head, seq!['f', 'i', 'l', 'e', ':']);
    let explicit = stripped is Some;
    let link = match stripped {
        Some(l) => l,
        None => head,
    };
    if uri.len() == 0 {
        None
    } else if head.len() == 0 {
        match fragment_model(params, read, sum) {
            FragModel::Empty => None,
            FragModel::Explicit(page, kind) => Some(ActionModel::GoTo(DestModel::Page { page, kind })),
            FragModel::Named(n) => Some(ActionModel::GoTo(DestModel::Named(n))),
            FragModel::Unknown(Some(n)) => if n.len() == 0 {
                None
            } else {
                Some(ActionModel::GoTo(DestModel::Named(decoded_component(n))))
            },
            FragModel::Unknown(None) => Some(ActionModel::GoTo(DestModel::Named(decoded_component(params)))),
        }
    } else if is_pdf_name(link) {
        let file = if !explicit && is_external(link) {
            FileModel::Url(link)
        } else {
            FileModel::Path(decode_and_clean(link))
        };
        match fragment_model(params, read, sum) {
            FragModel::Empty => Some(ActionModel::GoToR { file, dest: default_dest() }),
            FragModel::Explicit(page, kind) => Some(ActionModel::GoToR { file, dest: DestModel::Page { page, kind } }),
            FragModel::Named(n) => Some(ActionModel::GoToR { file, dest: DestModel::Named(n) }),
            FragModel::Unknown(_) => Some(ActionModel::Uri(uri)),
        }
    } else if explicit {
        if link.len() == 0 {
            None
        } else {
            Some(ActionModel::Launch(FileModel::Path(decode_and_clean(link))))
        }
    } else if !is_external(uri) {
        Some(ActionModel::Launch(FileModel::Path(decode_and_clean(uri))))
    } else {
        Some(ActionModel::Uri(uri))
    }
}

/// The model of an optional action.
pub open spec fn opt_model(a: Option<PdfAction>) -> Option<ActionModel> {
    match a {
        Some(x) => Some(x@),
        None => None,
    }
}

/// Tests whether `v[lo..hi]` starts with `pat`, ASCII letter case ignored; the position
/// after it where it does.
fn strip_prefix_icase(v: &Vec<char>, lo: usize, hi: usize, pat: &[char]) -> (r: Option<usize>)
    requires
        lo <= hi <= v.len(),
    ensures
        match r {
            Some(p) => {
                &&& lo <= p <= hi
                &&& p - lo == pat@.len()
                &&& icase_prefix_rest(v@.subrange(lo as int, hi as int), pat@) == Some(
                    v@.subrange(p as int, hi as int),
                )
            },
            None => icase_prefix_rest(v@.subrange(lo as int, hi as int), pat@) is None,
        },
{
    let ghost s = v@.subrange(lo as int, hi as int);
    if hi - lo >= pat.len() && eq_icase_at(v, lo, lo + pat.len(), pat) {
        assert(s.take(pat@.len() as int) =~= v@.subrange(lo as int, lo + pat@.len()));
        assert(s.skip(pat@.len() as int) =~= v@.subrange(lo + pat@.len(), hi as int));
        Some(lo + pat.len())
    } else {
        proof {
            if s.len() >= pat@.len() {
                assert(s.take(pat@.len() as int) =~= v@.subrange(lo as int, lo + pat@.len()));
            }
        }
        None
    }
}

/// Tests whether the file name `v[lo..hi]` ends with `.pdf`, ASCII letter case ignored.
fn is_pdf_path_at(v: &Vec<char>, lo: usize, hi: usize) -> (r: bool)
    requires
        lo <= hi <= v.len(),
    ensures
        r == is_pdf_name(v@.subrange(lo as int, hi as int)),
{
    let ext: [char; 4] = ['.', 'p', 'd', 'f'];
    if hi - lo < 4 {
        return false;
    }
    let r = eq_icase_at(v, hi - 4, hi, &ext);
    assert(v@.subrange(lo as int, hi as int).skip(hi - lo - 4) =~= v@.subrange(hi - 4, hi as int));
    r
}

/// Checks whether a file name ends with `.pdf` (ASCII letter case ignored).
pub fn is_pdf_path(file_name: &str) -> (r: bool)
    ensures
        r == is_pdf_name(file_name@),
{
    let v = chars_of(file_name);
    assert(v@.subrange(0, v@.len() as int) =~= v@);
    is_pdf_path_at(&v, 0, v.len())
}

/// Tests whether `c` is an ASCII letter.
fn is_ascii_alpha_char(c: char) -> (r: bool)
    ensures
        r == is_ascii_alpha(c),
{
    ('a' <= c && c <= 'z') || ('A' <= c && c <= 'Z')
}

/// Tests whether `v[lo..hi]` starts with a URI scheme of at least three characters and a
/// `:`.
fn is_external_at(v: &Vec<char>, lo: usize, hi: usize) -> (r: bool)
    requires
        lo <= hi <= v.len(),
    ensures
        r == is_external(v@.subrange(lo as int, hi as int)),
{
    let ghost s = v@.subrange(lo as int, hi as int);
    let colon = find_sep(v, lo, hi, ':', ':');
    if colon == hi {
        return false;
    }
    let ghost scheme = s.take(colon - lo);
    assert(scheme =~= v@.subrange(lo as int, colon as int));
    if colon - lo < 3 || !is_ascii_alpha_char(v[lo]) {
        return false;
    }
    let mut i = lo + 1;
    while i < colon
        invariant
            lo < i <= colon < hi <= v.len(),
            scheme == v@.subrange(lo as int, colon as int),
            s == v@.subrange(lo as int, hi as int),
            colon == lo + sep_index(s, ':', ':'),
            scheme == s.take(colon - lo),
            forall|j: int| 1 <= j < i - lo ==> #[trigger] is_scheme_char(scheme[j]),
        decreases colon - i,
    {
        let c = v[i];
        if !(is_ascii_alpha_char(c) || ('0' <= c && c <= '9') || c == '+' || c == '-' || c == '.') {
            assert(scheme[i - lo] == c);
            assert(!is_scheme_char(scheme[i - lo]));
            return false;
        }
        i = i + 1;
    }
    true
}

/// Checks whether a string is an external URI (as `fz_is_external_link` does): a scheme of
/// at least three characters (an ASCII letter, then ASCII letters, digits, `+`, `-` or
/// `.`) followed by `:`. A drive letter such as `C:` is no scheme.
pub fn is_external_link(uri: &str) -> (r: bool)
    ensures
        r == is_external(uri@),
{
    let v = chars_of(uri);
    assert(v@.subrange(0, v@.len() as int) =~= v@);
    is_external_at(&v, 0, v.len())
}

/// Percent-decodes `v[lo..hi]` and normalises it as a path.
fn decode_and_clean_path(v: &Vec<char>, lo: usize, hi: usize) -> (r: String)
    requires
        lo <= hi <= v.len(),
    ensures
        r@ == decode_and_clean(v@.subrange(lo as int, hi as int)),
{
    let s = string_of(v, lo, hi);
    let d = decode_uri_component(s.as_str());
    let dv = chars_of(d.as_str());
    clean_chars(&dv)
}

/// Reads a one-based page number as a zero-based page: numbers below 1 give page 0.
fn parse_page_1based_to_0based(v: &Vec<char>, lo: usize, hi: usize) -> (r: Option<u32>)
    requires
        lo <= hi <= v.len(),
    ensures
        r == parse_page(v@.subrange(lo as int, hi as int)),
{
    match parse_i32_chars(v, lo, hi) {
        Some(n) => if n < 2 {
            Some(0)
        } else {
            Some((n - 1) as u32)
        },
        None => None,
    }
}

/// Reads numbers from the comma-separated pieces of a text, one piece at a time.
struct FloatParser<'a> {
    chars: &'a Vec<char>,
    pos: usize,
    hi: usize,
    done: bool,
}

impl<'a> FloatParser<'a> {
    /// The pieces not read yet.
    closed spec fn remaining(&self) -> Seq<Seq<char>> {
        if self.done {
            Seq::empty()
        } else {
            pieces(self.chars@.subrange(self.pos as int, self.hi as int), ',', ',')
        }
    }

    /// The position is inside the text.
    closed spec fn wf(&self) -> bool {
        self.pos <= self.hi <= self.chars@.len()
    }

    /// A parser over the pieces of `v[lo..hi]`.
    fn new(v: &'a Vec<char>, lo: usize, hi: usize) -> (r: FloatParser<'a>)
        requires
            lo <= hi <= v.len(),
        ensures
            r.wf(),
            r.remaining() == pieces(v@.subrange(lo as int, hi as int), ',', ','),
    {
        FloatParser { chars: v, pos: lo, hi, done: false }
    }

    /// The number that the next piece denotes once trimmed, as `rd` reads it (NaN and
    /// infinities included); `None` where it denotes none or no piece is left.
    fn next_raw<R: Fn(&str) -> Option<Binary32>>(&mut self, rd: &R) -> (r: Option<Binary32>)
        requires
            old(self).wf(),
            is_reader(*rd),
        ensures
            final(self).wf(),
            old(self).remaining().len() > 0 ==> r == read_by(*rd)(trim(old(self).remaining()[0]))
                && final(self).remaining() == old(self).remaining().drop_first(),
            old(self).remaining().len() == 0 ==> r is None && final(self).remaining() == old(self).remaining(),
    {
        if self.done {
            return None;
        }
        let ghost rest = self.chars@.subrange(self.pos as int, self.hi as int);
        let end = find_sep(self.chars, self.pos, self.hi, ',', ',');
        proof {
            crate::path::lemma_pieces_step(rest, ',', ',');
            assert(rest.take(end - self.pos) =~= self.chars@.subrange(self.pos as int, end as int));
            if end < self.hi {
                assert(rest.skip(end - self.pos + 1) =~= self.chars@.subrange(end + 1, self.hi as int));
            }
        }
        let (a, b) = trim_bounds(self.chars, self.pos, end);
        let piece = string_of(self.chars, a, b);
        let text = piece.as_str();
        let r = rd(text);
        proof {
            lemma_read_by(*rd, text, r);
        }
        if end == self.hi {
            self.done = true;
            assert(pieces(rest, ',', ',').drop_first() =~= Seq::<Seq<char>>::empty());
        } else {
            self.pos = end + 1;
            assert(pieces(rest, ',', ',').drop_first() =~= self.remaining());
        }
        r
    }

    /// The finite number that the next piece denotes once trimmed; `None` where it denotes
    /// none, or no finite one, or no piece is left.
    fn next<R: Fn(&str) -> Option<Binary32>>(&mut self, rd: &R) -> (r: Option<Binary32>)
        requires
            old(self).wf(),
            is_reader(*rd),
        ensures
            final(self).wf(),
            old(self).remaining().len() > 0 ==> r == read_number(old(self).remaining()[0], read_by(*rd))
                && final(self).remaining() == old(self).remaining().drop_first(),
            old(self).remaining().len() == 0 ==> r is None && final(self).remaining() == old(self).remaining(),
    {
        match self.next_raw(rd) {
            Some(x) => if x.is_finite() {
                Some(x)
            } else {
                None
            },
            None => None,
        }
    }
}

/// Reads `viewrect=left,top,width,height` (the `FitR` view).
fn parse_viewrect<R, A>(v: &Vec<char>, lo: usize, hi: usize, rd: &R, ad: &A) -> (r: Option<DestinationKind>)
    where
        R: Fn(&str) -> Option<Binary32>,
        A: Fn(Binary32, Binary32) -> Binary32,
    requires
        lo <= hi <= v.len(),
        is_reader(*rd),
        is_adder(*ad),
    ensures
        r == viewrect_value(v@.subrange(lo as int, hi as int), read_by(*rd), add_by(*ad)),
{
    let ghost s = v@.subrange(lo as int, hi as int);
    let ghost ps = pieces(s, ',', ',');
    let mut floats = FloatParser::new(v, lo, hi);
    let x = floats.next(rd);
    let y = floats.next(rd);
    let w = floats.next(rd);
    let h = floats.next(rd);
    proof {
        if ps.len() > 1 {
            assert(ps.drop_first()[0] == ps[1]);
        }
        if ps.len() > 2 {
            assert(ps.drop_first().drop_first()[0] == ps[2]);
        }
        if ps.len() > 3 {
            assert(ps.drop_first().drop_first().drop_first()[0] == ps[3]);
        }
    }
    match (x, y, w, h) {
        (Some(x), Some(y), Some(w), Some(h)) => {
            if w.is_zero() || h.is_zero() {
                None
            } else {
                let right = ad(x, w);
                let top = ad(y, h);
                proof {
                    lemma_add_by(*ad, x, w, right);
                    lemma_add_by(*ad, y, h, top);
                }
                Some(DestinationKind::FitR { left: x, bottom: y, right, top })
            }
        },
        _ => None,
    }
}

/// Reads `zoom=scale,left,top` (the `XYZ` view). A NaN zoom is absent; an infinite or
/// non-positive zoom is 100 percent.
fn parse_zoom<R>(v: &Vec<char>, lo: usize, hi: usize, rd: &R) -> (r: DestinationKind)
    where
        R: Fn(&str) -> Option<Binary32>,
    requires
        lo <= hi <= v.len(),
        is_reader(*rd),
    ensures
        r == zoom_kind(v@.subrange(lo as int, hi as int), read_by(*rd)),
{
    let ghost s = v@.subrange(lo as int, hi as int);
    let ghost ps = pieces(s, ',', ',');
    proof {
        crate::path::lemma_pieces_step(s, ',', ',');
    }
    let mut floats = FloatParser::new(v, lo, hi);
    let z = floats.next_raw(rd);
    let left = floats.next(rd);
    let top = floats.next(rd);
    proof {
        if ps.len() > 1 {
            assert(ps.drop_first()[0] == ps[1]);
        }
        if ps.len() > 2 {
            assert(ps.drop_first().drop_first()[0] == ps[2]);
        }
    }
    let zoom = match z {
        Some(x) => if x.is_nan() {
            None
        } else if x.is_infinite() || x.le_zero() {
            Some(Binary32::hundred())
        } else {
            Some(x)
        },
        None => None,
    };
    DestinationKind::XYZ { left, top, zoom }
}

/// The finite number that `v[lo..hi]` denotes once trimmed, as `rd` reads it.
fn read_number_at<R: Fn(&str) -> Option<Binary32>>(v: &Vec<char>, lo: usize, hi: usize, rd: &R) -> (r: Option<Binary32>)
    requires
        lo <= hi <= v.len(),
        is_reader(*rd),
    ensures
        r == read_number(v@.subrange(lo as int, hi as int), read_by(*rd)),
{
    let (a, b) = trim_bounds(v, lo, hi);
    let piece = string_of(v, a, b);
    let text = piece.as_str();
    let x = rd(text);
    proof {
        lemma_read_by(*rd, text, x);
    }
    match x {
        Some(x) => if x.is_finite() {
            Some(x)
        } else {
            None
        },
        None => None,
    }
}

/// Reads `view=<name>[,<value>]`: `Fit`, `FitB`, `FitH`, `FitBH`, `FitV` or `FitBV`, in any
/// ASCII letter case, with the finite value where there is one.
fn parse_view<R: Fn(&str) -> Option<Binary32>>(v: &Vec<char>, lo: usize, hi: usize, rd: &R) -> (r: Option<DestinationKind>)
    requires
        lo <= hi <= v.len(),
        is_reader(*rd),
    ensures
        r == view_kind(v@.subrange(lo as int, hi as int), read_by(*rd)),
{
    let ghost s = v@.subrange(lo as int, hi as int);
    let ghost ps = pieces(s, ',', ',');
    if lo == hi {
        return None;
    }
    let e0 = find_sep(v, lo, hi, ',', ',');
    proof {
        lemma_pieces_step(s, ',', ',');
        assert(s.take(e0 - lo) =~= v@.subrange(lo as int, e0 as int));
    }
    let (ka, kb) = trim_bounds(v, lo, e0);
    let fit: [char; 3] = ['F', 'i', 't'];
    let fit_b: [char; 4] = ['F', 'i', 't', 'B'];
    let fit_h: [char; 4] = ['F', 'i', 't', 'H'];
    let fit_bh: [char; 5] = ['F', 'i', 't', 'B', 'H'];
    let fit_v: [char; 4] = ['F', 'i', 't', 'V'];
    let fit_bv: [char; 5] = ['F', 'i', 't', 'B', 'V'];
    if eq_icase_at(v, ka, kb, &fit) {
        return Some(DestinationKind::Fit);
    }
    if eq_icase_at(v, ka, kb, &fit_b) {
        return Some(DestinationKind::FitB);
    }
    let val = if e0 < hi {
        let e1 = find_sep(v, e0 + 1, hi, ',', ',');
        proof {
            let rest = s.skip(e0 - lo + 1);
            assert(rest =~= v@.subrange(e0 + 1, hi as int));
            lemma_pieces_step(rest, ',', ',');
            assert(rest.take(e1 - e0 - 1) =~= v@.subrange(e0 + 1, e1 as int));
            assert(ps[1] == pieces(rest, ',', ',')[0]);
        }
        read_number_at(v, e0 + 1, e1, rd)
    } else {
        None
    };
    if eq_icase_at(v, ka, kb, &fit_h) {
        Some(DestinationKind::FitH { top: val })
    } else if eq_icase_at(v, ka, kb, &fit_bh) {
        Some(DestinationKind::FitBH { top: val })
    } else if eq_icase_at(v, ka, kb, &fit_v) {
        Some(DestinationKind::FitV { left: val })
    } else if eq_icase_at(v, ka, kb, &fit_bv) {
        Some(DestinationKind::FitBV { left: val })
    } else {
        None
    }
}

/// The texts that index ranges `(key start, key end, value start, value end)` of `v` stand for.
pub open spec fn pairs_view(v: Seq<char>, ps: Seq<(usize, usize, usize, usize)>) -> Seq<(Seq<char>, Seq<char>)> {
    ps.map_values(|r: (usize, usize, usize, usize)| (v.subrange(r.0 as int, r.1 as int), v.subrange(r.2 as int, r.3 as int)))
}

/// The ranges are inside `v`.
pub open spec fn pairs_in(n: int, ps: Seq<(usize, usize, usize, usize)>) -> bool {
    forall|k: int| 0 <= k < ps.len() ==> {
        &&& (#[trigger] ps[k]).0 <= ps[k].1 <= n
        &&& ps[k].2 <= ps[k].3 <= n
    }
}

/// The `key=value` parameters of the fragment `v[lo..hi]`: its pieces between `&` and `#`,
/// trimmed, split at their first `=`, key and value trimmed; pieces without `=` are skipped.
fn fragment_kv_pairs(v: &Vec<char>, lo: usize, hi: usize) -> (r: Vec<(usize, usize, usize, usize)>)
    requires
        lo <= hi <= v.len(),
    ensures
        pairs_in(v@.len() as int, r@),
        pairs_view(v@, r@) == fragment_pairs(v@.subrange(lo as int, hi as int)),
{
    let ghost whole = kv_list(pieces(v@.subrange(lo as int, hi as int), '&', '#'));
    let mut out: Vec<(usize, usize, usize, usize)> = Vec::new();
    let mut pos = lo;
    assert(pairs_view(v@, out@) =~= Seq::<(Seq<char>, Seq<char>)>::empty());
    loop
        invariant_except_break
            lo <= pos <= hi <= v.len(),
            pairs_in(v@.len() as int, out@),
            pairs_view(v@, out@) + kv_list(pieces(v@.subrange(pos as int, hi as int), '&', '#')) == whole,
        ensures
            pairs_in(v@.len() as int, out@),
            pairs_view(v@, out@) == whole,
        decreases hi - pos,
    {
        let ghost rest = v@.subrange(pos as int, hi as int);
        let ghost before = pairs_view(v@, out@);
        let end = find_sep(v, pos, hi, '&', '#');
        let ghost piece = v@.subrange(pos as int, end as int);
        proof {
            lemma_pieces_step(rest, '&', '#');
            assert(rest.take(end - pos) =~= piece);
            if end < hi {
                assert(rest.skip(end - pos + 1) =~= v@.subrange(end + 1, hi as int));
            }
        }
        let (a, b) = trim_bounds(v, pos, end);
        let eq = find_sep(v, a, b, '=', '=');
        proof {
            let t = v@.subrange(a as int, b as int);
            assert(t == trim(piece));
            if eq < b {
                assert(t.take(eq - a) =~= v@.subrange(a as int, eq as int));
                assert(t.skip(eq - a + 1) =~= v@.subrange(eq + 1, b as int));
            }
        }
        if eq < b {
            let (ka, kb) = trim_bounds(v, a, eq);
            let (va, vb) = trim_bounds(v, eq + 1, b);
            out.push((ka, kb, va, vb));
            assert(pairs_view(v@, out@) =~= before.push(piece_kv(piece)->0));
        }
        let ghost after_piece = pieces(rest, '&', '#').drop_first();
        assert(kv_list(pieces(rest, '&', '#')) == match piece_kv(piece) {
            Some(kv) => seq![kv] + kv_list(after_piece),
            None => kv_list(after_piece),
        });
        if end == hi {
            assert(after_piece =~= Seq::<Seq<char>>::empty());
            assert(pairs_view(v@, out@) =~= whole);
            break;
        }
        assert(after_piece =~= pieces(v@.subrange(end + 1, hi as int), '&', '#'));
        pos = end + 1;
        assert(pairs_view(v@, out@) + kv_list(pieces(v@.subrange(pos as int, hi as int), '&', '#')) =~= whole);
    }
    out
}

/// What a URI fragment denotes.
enum ParsedFragment {
    /// There is no fragment.
    Empty,
    /// A page and a view.
    Explicit(u32, DestinationKind),
    /// A (decoded) named destination.
    Named(String),
    /// A parameter that is not a destination parameter, and the (raw) named destination in
    /// force before it.
    ContainsUnknownKeys(Option<String>),
}

impl View for ParsedFragment {
    type V = FragModel;

    closed spec fn view(&self) -> FragModel {
        match self {
            ParsedFragment::Empty => FragModel::Empty,
            ParsedFragment::Explicit(p, k) => FragModel::Explicit(*p, *k),
            ParsedFragment::Named(n) => FragModel::Named(n@),
            ParsedFragment::ContainsUnknownKeys(n) => FragModel::Unknown(
                match n {
                    Some(x) => Some(x@),
                    None => None,
                },
            ),
        }
    }
}

/// The state that exec values stand for.
spec fn state_view(v: Seq<char>, page: Option<u32>, kind: Option<DestinationKind>, named: Option<(usize, usize)>) -> FragState {
    FragState {
        page,
        kind,
        named: match named {
            Some(r) => Some(v.subrange(r.0 as int, r.1 as int)),
            None => None,
        },
    }
}

/// Reads the destination parameters of the fragment `v[lo..hi]`, left to right: `page`,
/// `nameddest`, `viewrect`, `zoom` and `view` (keys in any ASCII letter case). A later
/// `page` or `nameddest` overrides an earlier one of either; `page` resets the view. Any
/// other key stops the reading.
fn parse_params<R, A>(v: &Vec<char>, lo: usize, hi: usize, rd: &R, ad: &A) -> (r: ParsedFragment)
    where
        R: Fn(&str) -> Option<Binary32>,
        A: Fn(Binary32, Binary32) -> Binary32,
    requires
        lo <= hi <= v.len(),
        is_reader(*rd),
        is_adder(*ad),
    ensures
        r@ == fragment_model(v@.subrange(lo as int, hi as int), read_by(*rd), add_by(*ad)),
{
    let ghost read = read_by(*rd);
    let ghost sum = add_by(*ad);
    if lo == hi {
        return ParsedFragment::Empty;
    }
    let pairs = fragment_kv_pairs(v, lo, hi);
    let ghost pv = pairs_view(v@, pairs@);
    let ghost target = frag_run(pv, frag_init(), read, sum);
    let mut page: Option<u32> = None;
    let mut kind: Option<DestinationKind> = None;
    let mut named: Option<(usize, usize)> = None;
    let key_page: [char; 4] = ['p', 'a', 'g', 'e'];
    let key_named: [char; 9] = ['n', 'a', 'm', 'e', 'd', 'd', 'e', 's', 't'];
    let key_viewrect: [char; 8] = ['v', 'i', 'e', 'w', 'r', 'e', 'c', 't'];
    let key_zoom: [char; 4] = ['z', 'o', 'o', 'm'];
    let key_view: [char; 4] = ['v', 'i', 'e', 'w'];
    let mut i: usize = 0;
    assert(pv.skip(0) =~= pv);
    while i < pairs.len()
        invariant
            lo < hi <= v.len(),
            is_reader(*rd),
            is_adder(*ad),
            pv == fragment_pairs(v@.subrange(lo as int, hi as int)),
            target == frag_run(pv, frag_init(), read, sum),
            read == read_by(*rd),
            sum == add_by(*ad),
            i <= pairs@.len(),
            pairs_in(v@.len() as int, pairs@),
            pv == pairs_view(v@, pairs@),
            named matches Some(r) ==> r.0 <= r.1 <= v@.len(),
            frag_run(pv.skip(i as int), state_view(v@, page, kind, named), read, sum) == target,
            key_page@ == seq!['p', 'a', 'g', 'e'],
            key_named@ == seq!['n', 'a', 'm', 'e', 'd', 'd', 'e', 's', 't'],
            key_viewrect@ == seq!['v', 'i', 'e', 'w', 'r', 'e', 'c', 't'],
            key_zoom@ == seq!['z', 'o', 'o', 'm'],
            key_view@ == seq!['v', 'i', 'e', 'w'],
        decreases pairs@.len() - i,
    {
        let (ka, kb, va, vb) = pairs[i];
        let ghost st = state_view(v@, page, kind, named);
        let ghost k = v@.subrange(ka as int, kb as int);
        let ghost val = v@.subrange(va as int, vb as int);
        proof {
            assert(pv.skip(i as int)[0] == pv[i as int]);
            assert(pv[i as int] == (k, val));
            assert(pv.skip(i as int).drop_first() =~= pv.skip(i + 1));
        }
        let mut done = false;
        if eq_icase_at(v, ka, kb, &key_page) {
            match parse_page_1based_to_0based(v, va, vb) {
                Some(p) => {
                    page = Some(p);
                    kind = Some(DestinationKind::default());
                    named = None;
                    done = true;
                },
                None => {},
            }
        }
        if !done {
            if eq_icase_at(v, ka, kb, &key_named) {
                if va < vb {
                    named = Some((va, vb));
                    page = None;
                    kind = None;
                } else {
                    assert(frag_step(st, k, val, read, sum) == FragStep::Stop(Some(Seq::<char>::empty())));
                    assert(frag_run(pv.skip(i as int), st, read, sum) == FragStep::Stop(Some(Seq::<char>::empty())));
                    return ParsedFragment::ContainsUnknownKeys(Some(String::new()));
                }
            } else if eq_icase_at(v, ka, kb, &key_viewrect) {
                match parse_viewrect(v, va, vb, rd, ad) {
                    Some(nk) => {
                        kind = Some(nk);
                    },
                    None => {},
                }
            } else if eq_icase_at(v, ka, kb, &key_zoom) {
                kind = Some(parse_zoom(v, va, vb, rd));
            } else if eq_icase_at(v, ka, kb, &key_view) {
                match parse_view(v, va, vb, rd) {
                    Some(nk) => {
                        kind = Some(nk);
                    },
                    None => {},
                }
            } else {
                let n = match named {
                    Some((a, b)) => Some(string_of(v, a, b)),
                    None => None,
                };
                assert(frag_step(st, k, val, read, sum) == FragStep::Stop(st.named));
                assert(frag_run(pv.skip(i as int), st, read, sum) == FragStep::Stop(st.named));
                return ParsedFragment::ContainsUnknownKeys(n);
            }
        }
        assert(frag_step(st, k, val, read, sum) == FragStep::Go(state_view(v@, page, kind, named)));
        i = i + 1;
    }
    assert(pv.skip(i as int) =~= Seq::<(Seq<char>, Seq<char>)>::empty());
    match named {
        Some((a, b)) => {
            let raw = string_of(v, a, b);
            ParsedFragment::Named(decode_uri_component(raw.as_str()))
        },
        None => {
            if page.is_none() && kind.is_none() {
                let raw = string_of(v, lo, hi);
                ParsedFragment::Named(decode_uri_component(raw.as_str()))
            } else {
                ParsedFragment::Explicit(
                    match page {
                        Some(p) => p,
                        None => 0,
                    },
                    match kind {
                        Some(k) => k,
                        None => DestinationKind::default(),
                    },
                )
            }
        },
    }
}

/// Reads a MuPDF link URI (as `pdf_parse_link_action` writes one) back into the action it
/// stands for; `None` where it stands for none. Numbers in the fragment are read by `rd`,
/// and the corner of a `viewrect` is computed with `ad`.
///
/// - `#<fragment>`: `GoTo` the page and view (`page=`, `view=`, `zoom=`, `viewrect=`) or the
///   named destination (`nameddest=`, or the whole fragment percent-decoded) it gives;
/// - `[file:]<path>.pdf[#<fragment>]`: `GoToR` to that file (a URL where the text before
///   `#` is an external link and has no `file:`, the decoded and normalised path otherwise);
///   a fragment with other parameters makes the whole text a `Uri`;
/// - `file:<path>`, or a text that is not an external link: `Launch` the decoded and
///   normalised path;
/// - any other external link: `Uri`.
pub fn parse_external_link<R, A>(uri: &str, rd: &R, ad: &A) -> (r: Option<PdfAction>)
    where
        R: Fn(&str) -> Option<Binary32>,
        A: Fn(Binary32, Binary32) -> Binary32,
    requires
        is_reader(*rd),
        is_adder(*ad),
    ensures
        opt_model(r) == parse_link(uri@, read_by(*rd), add_by(*ad)),
{
    let ghost read = read_by(*rd);
    let ghost sum = add_by(*ad);
    let v = chars_of(uri);
    assert(v@.subrange(0, v@.len() as int) =~= v@);
    let (lo, hi) = trim_bounds(&v, 0, v.len());
    let ghost u = v@.subrange(lo as int, hi as int);
    if lo == hi {
        return None;
    }
    let hash = find_sep(&v, lo, hi, '#', '#');
    let (hlo, hhi, plo, phi) = if hash < hi {
        let (a, b) = trim_bounds(&v, lo, hash);
        let (c, d) = trim_bounds(&v, hash + 1, hi);
        proof {
            assert(u.take(hash - lo) =~= v@.subrange(lo as int, hash as int));
            assert(u.skip(hash - lo + 1) =~= v@.subrange(hash + 1, hi as int));
        }
        (a, b, c, d)
    } else {
        assert(v@.subrange(hi as int, hi as int) =~= Seq::<char>::empty());
        (lo, hi, hi, hi)
    };
    let ghost head = v@.subrange(hlo as int, hhi as int);
    let ghost params = v@.subrange(plo as int, phi as int);
    assert(head_and_params(u) == (head, params));
    if hlo == hhi {
        return match parse_params(&v, plo, phi, rd, ad) {
            ParsedFragment::Empty => None,
            ParsedFragment::Explicit(page, kind) => Some(PdfAction::GoTo(PdfDestination::Page { page, kind })),
            ParsedFragment::Named(n) => Some(PdfAction::GoTo(PdfDestination::Named(n))),
            ParsedFragment::ContainsUnknownKeys(Some(n)) => {
                if n.as_str().is_empty() {
                    None
                } else {
                    Some(PdfAction::GoTo(PdfDestination::Named(decode_uri_component(n.as_str()))))
                }
            },
            ParsedFragment::ContainsUnknownKeys(None) => {
                let raw = string_of(&v, plo, phi);
                Some(PdfAction::GoTo(PdfDestination::Named(decode_uri_component(raw.as_str()))))
            },
        };
    }
    let file_prefix: [char; 5] = ['f', 'i', 'l', 'e', ':'];
    let (llo, explicit) = match strip_prefix_icase(&v, hlo, hhi, &file_prefix) {
        Some(p) => (p, true),
        None => (hlo, false),
    };
    let ghost link = v@.subrange(llo as int, hhi as int);
    if is_pdf_path_at(&v, llo, hhi) {
        let file = if !explicit && is_external_at(&v, llo, hhi) {
            FileSpec::Url(string_of(&v, llo, hhi))
        } else {
            FileSpec::Path(decode_and_clean_path(&v, llo, hhi))
        };
        let dest = match parse_params(&v, plo, phi, rd, ad) {
            ParsedFragment::Empty => PdfDestination::default(),
            ParsedFragment::Explicit(page, kind) => PdfDestination::Page { page, kind },
            ParsedFragment::Named(n) => PdfDestination::Named(n),
            ParsedFragment::ContainsUnknownKeys(_) => {
                return Some(PdfAction::Uri(string_of(&v, lo, hi)));
            },
        };
        return Some(PdfAction::GoToR { file, dest });
    }
    if explicit {
        if llo == hhi {
            None
        } else {
            Some(PdfAction::Launch(FileSpec::Path(decode_and_clean_path(&v, llo, hhi))))
        }
    } else if !is_external_at(&v, lo, hi) {
        Some(PdfAction::Launch(FileSpec::Path(decode_and_clean_path(&v, lo, hi))))
    } else {
        Some(PdfAction::Uri(string_of(&v, lo, hi)))
    }
}

/// Reading a link URI ignores the whitespace around it: a URI and its trimmed text are
/// read as the same action.
pub proof fn law_parse_ignores_outer_whitespace(
    uri: Seq<char>,
    read: spec_fn(Seq<char>) -> Option<Binary32>,
    sum: spec_fn(Binary32, Binary32) -> Binary32,
)
    ensures
        parse_link(trim(uri), read, sum) == parse_link(uri, read, sum),
{
    lemma_trim_trim(uri);
}

} // verus!
