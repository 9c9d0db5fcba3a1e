//! Views of a destination page: how a PDF viewer positions the page, and the URI fragment
//! that describes it.
use vstd::prelude::*;
use crate::binary32::{
    add_by, hundred_bits, is_adder, is_nan_bits, is_shower, is_zero_bits, lemma_add_by,
    lemma_show_by, neg_bits, show_by, Binary32,
};

verus! {

/// How a destination page is shown (PDF 32000-1:2008, 12.3.2.2, Table 151).
#[derive(Clone, Copy, Debug, PartialEq)]
pub enum DestinationKind {
    /// Fit the whole page in the window.
    Fit,
    /// Fit the page's bounding box in the window.
    FitB,
    /// Fit the page width, with `top` at the top edge of the window.
    FitH { top: Option<Binary32> },
    /// Fit the bounding box width, with `top` at the top edge of the window.
    FitBH { top: Option<Binary32> },
    /// Fit the page height, with `left` at the left edge of the window.
    FitV { left: Option<Binary32> },
    /// Fit the bounding box height, with `left` at the left edge of the window.
    FitBV { left: Option<Binary32> },
    /// Put (`left`, `top`) at the upper-left corner of the window, magnified by `zoom`
    /// percent; an absent value leaves the viewer's current one.
    XYZ { left: Option<Binary32>, top: Option<Binary32>, zoom: Option<Binary32> },
    /// Fit the rectangle `left`, `bottom`, `right`, `top` in the window.
    FitR { left: Binary32, bottom: Binary32, right: Binary32, top: Binary32 },
}

/// The default view: `XYZ` with every value absent.
pub open spec fn default_kind() -> DestinationKind {
    DestinationKind::XYZ { left: None, top: None, zoom: None }
}

impl Default for DestinationKind {
    fn default() -> (r: DestinationKind)
        ensures
            r == default_kind(),
    {
        DestinationKind::XYZ { left: None, top: None, zoom: None }
    }
}

/// The text of a number in a fragment: `nan` for a NaN, the shower's text otherwise.
pub open spec fn number_text(x: Binary32, show: spec_fn(Binary32) -> Seq<char>) -> Seq<char> {
    if is_nan_bits(x.bits) {
        "nan"@
    } else {
        show(x)
    }
}

/// A value that is present and not a NaN.
pub open spec fn present(o: Option<Binary32>) -> Option<Binary32> {
    match o {
        Some(x) => if is_nan_bits(x.bits) {
            None
        } else {
            Some(x)
        },
        None => None,
    }
}

/// The text of an optional number: `nan` where it is absent.
pub open spec fn opt_text(o: Option<Binary32>, show: spec_fn(Binary32) -> Seq<char>) -> Seq<char> {
    match present(o) {
        Some(x) => show(x),
        None => "nan"@,
    }
}

/// `,<value>` where the value is present, nothing otherwise.
pub open spec fn opt_arg(o: Option<Binary32>, show: spec_fn(Binary32) -> Seq<char>) -> Seq<char> {
    match present(o) {
        Some(x) => ","@ + show(x),
        None => Seq::empty(),
    }
}

/// A zoom that is present, not a NaN and not zero (a zero zoom leaves the current one).
pub open spec fn shown_zoom(o: Option<Binary32>) -> Option<Binary32> {
    match present(o) {
        Some(x) => if is_zero_bits(x.bits) {
            None
        } else {
            Some(x)
        },
        None => None,
    }
}

/// The fragment parameters that describe a view (the "Parameters for Opening PDF Files"):
/// `&view=...`, `&zoom=zoom,left,top` (left out where all three are absent) or
/// `&viewrect=left,bottom,width,height`.
pub open spec fn kind_fragment(
    kind: DestinationKind,
    show: spec_fn(Binary32) -> Seq<char>,
    sum: spec_fn(Binary32, Binary32) -> Binary32,
) -> Seq<char> {
    match kind {
        DestinationKind::Fit => "&view=Fit"@,
        DestinationKind::FitB => "&view=FitB"@,
        DestinationKind::FitH { top } => "&view=FitH"@ + opt_arg(top, show),
        DestinationKind::FitBH { top } => "&view=FitBH"@ + opt_arg(top, show),
        DestinationKind::FitV { left } => "&view=FitV"@ + opt_arg(left, show),
        DestinationKind::FitBV { left } => "&view=FitBV"@ + opt_arg(left, show),
        DestinationKind::XYZ { left, top, zoom } => if shown_zoom(zoom) is None && present(left) is None
            && present(top) is None {
            Seq::empty()
        } else {
            "&zoom="@ + opt_text(shown_zoom(zoom), show) + ","@ + opt_text(left, show) + ","@
                + opt_text(top, show)
        },
        DestinationKind::FitR { left, bottom, right, top } => "&viewrect="@ + number_text(left, show)
            + ","@ + number_text(bottom, show) + ","@ + number_text(
            sum(right, Binary32 { bits: neg_bits(left.bits) }),
            show,
        ) + ","@ + number_text(sum(top, Binary32 { bits: neg_bits(bottom.bits) }), show),
    }
}

/// Appends the text of a number: `nan` for a NaN, the shower's text otherwise.
fn push_number<S: Fn(Binary32) -> String>(out: &mut String, x: Binary32, sh: &S)
    requires
        is_shower(*sh),
    ensures
        final(out)@ == old(out)@ + number_text(x, show_by(*sh)),
{
    if x.is_nan() {
        out.append("nan");
    } else {
        let t = sh(x);
        proof {
            lemma_show_by(*sh, x, t);
        }
        out.append(t.as_str());
    }
}

/// Appends the text of an optional number: `nan` where it is absent or a NaN.
fn push_opt<S: Fn(Binary32) -> String>(out: &mut String, o: Option<Binary32>, sh: &S)
    requires
        is_shower(*sh),
    ensures
        final(out)@ == old(out)@ + opt_text(o, show_by(*sh)),
{
    match o {
        Some(x) => push_number(out, x, sh),
        None => out.append("nan"),
    }
}

/// Appends `,<value>` where the value is present and not a NaN.
fn push_opt_arg<S: Fn(Binary32) -> String>(out: &mut String, o: Option<Binary32>, sh: &S)
    requires
        is_shower(*sh),
    ensures
        final(out)@ == old(out)@ + opt_arg(o, show_by(*sh)),
{
    match o {
        Some(x) => {
            if !x.is_nan() {
                out.append(",");
                push_number(out, x, sh);
            }
        },
        None => {},
    }
}

/// Keeps a zoom only where it is present, not a NaN and not zero.
fn zoom_to_show(o: Option<Binary32>) -> (r: Option<Binary32>)
    ensures
        r == shown_zoom(o),
{
    match o {
        Some(x) => if x.is_nan() || x.is_zero() {
            None
        } else {
            Some(x)
        },
        None => None,
    }
}

/// Keeps a value only where it is present and not a NaN.
fn present_value(o: Option<Binary32>) -> (r: Option<Binary32>)
    ensures
        r == present(o),
{
    match o {
        Some(x) => if x.is_nan() {
            None
        } else {
            Some(x)
        },
        None => None,
    }
}

impl DestinationKind {
    /// Appends the fragment parameters that describe this view (`&view=FitH,500`,
    /// `&zoom=150,100,600`, `&viewrect=50,100,150,200`, ...).
    pub fn push_fragment<S, A>(&self, out: &mut String, sh: &S, ad: &A)
        where
            S: Fn(Binary32) -> String,
            A: Fn(Binary32, Binary32) -> Binary32,
        requires
            is_shower(*sh),
            is_adder(*ad),
        ensures
            final(out)@ == old(out)@ + kind_fragment(*self, show_by(*sh), add_by(*ad)),
    {
        let ghost start = out@;
        match *self {
            DestinationKind::Fit => out.append("&view=Fit"),
            DestinationKind::FitB => out.append("&view=FitB"),
            DestinationKind::FitH { top } => {
                out.append("&view=FitH");
                push_opt_arg(out, top, sh);
            },
            DestinationKind::FitBH { top } => {
                out.append("&view=FitBH");
                push_opt_arg(out, top, sh);
            },
            DestinationKind::FitV { left } => {
                out.append("&view=FitV");
                push_opt_arg(out, left, sh);
            },
            DestinationKind::FitBV { left } => {
                out.append("&view=FitBV");
                push_opt_arg(out, left, sh);
            },
            DestinationKind::XYZ { left, top, zoom } => {
                let z = zoom_to_show(zoom);
                if z.is_some() || present_value(left).is_some() || present_value(top).is_some() {
                    out.append("&zoom=");
                    push_opt(out, z, sh);
                    out.append(",");
                    push_opt(out, left, sh);
                    out.append(",");
                    push_opt(out, top, sh);
                    assert(present(z) == z);
                }
            },
            DestinationKind::FitR { left, bottom, right, top } => {
                out.append("&viewrect=");
                push_number(out, left, sh);
                out.append(",");
                push_number(out, bottom, sh);
                out.append(",");
                let w = ad(right, left.neg());
                proof {
                    lemma_add_by(*ad, right, Binary32 { bits: neg_bits(left.bits) }, w);
                }
                push_number(out, w, sh);
                out.append(",");
                let h = ad(top, bottom.neg());
                proof {
                    lemma_add_by(*ad, top, Binary32 { bits: neg_bits(bottom.bits) }, h);
                }
                push_number(out, h, sh);
            },
        }
        assert(out@ =~= start + kind_fragment(*self, show_by(*sh), add_by(*ad)));
    }
}

} // verus!
