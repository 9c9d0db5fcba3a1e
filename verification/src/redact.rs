//! Options for applying redaction annotations.
use vstd::prelude::*;

verus! {

/// What redaction does to images under a redaction area.
#[derive(Clone, Copy, Debug, PartialEq, Eq, Structural)]
pub enum PdfRedactImageMethod {
    /// Leave images as they are.
    Ignore,
    /// Remove images that the area touches.
    Remove,
    /// Blank the pixels of images under the area.
    Pixels,
    /// Remove images that the area touches, unless they are invisible.
    RemoveUnlessInvisible,
}

impl Default for PdfRedactImageMethod {
    fn default() -> (r: PdfRedactImageMethod)
        ensures
            r == PdfRedactImageMethod::Pixels,
    {
        PdfRedactImageMethod::Pixels
    }
}

/// What redaction does to line art under a redaction area.
#[derive(Clone, Copy, Debug, PartialEq, Eq, Structural)]
pub enum PdfRedactLineArtMethod {
    /// Leave line art as it is.
    Ignore,
    /// Remove line art that the area covers completely.
    RemoveIfCovered,
    /// Remove line art that the area touches.
    RemoveIfTouched,
}

impl Default for PdfRedactLineArtMethod {
    fn default() -> (r: PdfRedactLineArtMethod)
        ensures
            r == PdfRedactLineArtMethod::Ignore,
    {
        PdfRedactLineArtMethod::Ignore
    }
}

/// What redaction does to text under a redaction area.
#[derive(Clone, Copy, Debug, PartialEq, Eq, Structural)]
pub enum PdfRedactTextMethod {
    /// Remove the text.
    Remove,
    /// Leave the text as it is.
    Ignore,
    /// Remove the text, invisible text included.
    RemoveInvisible,
}

impl Default for PdfRedactTextMethod {
    fn default() -> (r: PdfRedactTextMethod)
        ensures
            r == PdfRedactTextMethod::Remove,
    {
        PdfRedactTextMethod::Remove
    }
}

/// Options controlling how redaction annotations are applied.
#[derive(Clone, Copy, Debug, PartialEq, Eq, Structural)]
pub struct PdfRedactOptions {
    pub black_boxes: bool,
    pub image_method: PdfRedactImageMethod,
    pub line_art: PdfRedactLineArtMethod,
    pub text: PdfRedactTextMethod,
}

impl PdfRedactOptions {
    /// MuPDF's own defaults: no black boxes, pixel redaction of images, line art left, text
    /// removed.
    pub fn mupdf_default() -> (r: PdfRedactOptions)
        ensures
            r == (PdfRedactOptions {
                black_boxes: false,
                image_method: PdfRedactImageMethod::Pixels,
                line_art: PdfRedactLineArtMethod::Ignore,
                text: PdfRedactTextMethod::Remove,
            }),
    {
        PdfRedactOptions {
            black_boxes: false,
            image_method: PdfRedactImageMethod::Pixels,
            line_art: PdfRedactLineArtMethod::Ignore,
            text: PdfRedactTextMethod::Remove,
        }
    }

    /// PyMuPDF's defaults: MuPDF's, with line art removed where the area covers it.
    pub fn pymupdf_default() -> (r: PdfRedactOptions)
        ensures
            r == (PdfRedactOptions {
                black_boxes: false,
                image_method: PdfRedactImageMethod::Pixels,
                line_art: PdfRedactLineArtMethod::RemoveIfCovered,
                text: PdfRedactTextMethod::Remove,
            }),
    {
        PdfRedactOptions { line_art: PdfRedactLineArtMethod::RemoveIfCovered, ..Self::mupdf_default() }
    }
}

impl Default for PdfRedactOptions {
    fn default() -> (r: PdfRedactOptions)
        ensures
            r == (PdfRedactOptions {
                black_boxes: false,
                image_method: PdfRedactImageMethod::Pixels,
                line_art: PdfRedactLineArtMethod::Ignore,
                text: PdfRedactTextMethod::Remove,
            }),
    {
        PdfRedactOptions::mupdf_default()
    }
}

} // verus!
