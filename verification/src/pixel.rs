//! Pixels of a pixmap, and where a pixel lies in the pixmap's samples.
use vstd::prelude::*;
use crate::error::{fails_with, Error};
use crate::irect::{irect_text, IRect};
use crate::number::{decimal, int_text, push_decimal, push_int};

verus! {

/// The components of one pixel: its colour bytes, then its alpha byte where there is one.
#[derive(Clone, Debug, PartialEq, Eq, Hash)]
pub struct Pixel {
    components: Vec<u8>,
}

impl View for Pixel {
    type V = Seq<u8>;

    closed spec fn view(&self) -> Seq<u8> {
        self.components@
    }
}

impl Pixel {
    /// The pixel with these components.
    pub fn new(components: Vec<u8>) -> (r: Pixel)
        ensures
            r@ == components@,
    {
        Pixel { components }
    }

    /// A grey pixel.
    pub fn gray(value: u8) -> (r: Pixel)
        ensures
            r@ == seq![value],
    {
        let mut v: Vec<u8> = Vec::new();
        v.push(value);
        assert(v@ =~= seq![value]);
        Pixel { components: v }
    }

    /// An RGB pixel.
    pub fn rgb(red: u8, green: u8, blue: u8) -> (r: Pixel)
        ensures
            r@ == seq![red, green, blue],
    {
        let mut v: Vec<u8> = Vec::new();
        v.push(red);
        v.push(green);
        v.push(blue);
        assert(v@ =~= seq![red, green, blue]);
        Pixel { components: v }
    }

    /// An RGB pixel with alpha.
    pub fn rgba(red: u8, green: u8, blue: u8, alpha: u8) -> (r: Pixel)
        ensures
            r@ == seq![red, green, blue, alpha],
    {
        let mut v: Vec<u8> = Vec::new();
        v.push(red);
        v.push(green);
        v.push(blue);
        v.push(alpha);
        assert(v@ =~= seq![red, green, blue, alpha]);
        Pixel { components: v }
    }

    /// The components of the pixel.
    pub fn components(&self) -> (r: &[u8])
        ensures
            r@ == self@,
    {
        self.components.as_slice()
    }
}

impl From<Vec<u8>> for Pixel {
    fn from(components: Vec<u8>) -> (r: Pixel)
        ensures
            r@ == components@,
    {
        Pixel { components }
    }
}

impl vstd::std_specs::convert::FromSpecImpl<Vec<u8>> for Pixel {
    open spec fn obeys_from_spec() -> bool {
        true
    }

    closed spec fn from_spec(v: Vec<u8>) -> Pixel {
        Pixel { components: v }
    }
}

/// The MD5 digest of a pixmap's samples.
#[derive(Clone, Copy, Debug, PartialEq, Eq, Hash)]
pub struct PixmapDigest(pub [u8; 16]);

impl PixmapDigest {
    /// The sixteen bytes of the digest.
    pub fn as_bytes(&self) -> (r: &[u8; 16])
        ensures
            *r == self.0,
    {
        &self.0
    }
}

/// Checks that a pixel has the `expected` number of components of a pixmap.
pub fn validate_pixel_components(expected: usize, pixel: &Pixel) -> (r: Result<(), Error>)
    ensures
        pixel@.len() == expected ==> r == Ok::<(), Error>(()),
        pixel@.len() != expected ==> fails_with(
            r,
            "pixel has "@ + decimal(pixel@.len()) + " components but pixmap requires "@ + decimal(
                expected as nat,
            ),
        ),
{
    let actual = pixel.components.len();
    if actual != expected {
        let mut m = String::new();
        m.append("pixel has ");
        push_decimal(&mut m, actual as u64);
        m.append(" components but pixmap requires ");
        push_decimal(&mut m, expected as u64);
        return Err(Error::InvalidArgument(m));
    }
    Ok(())
}

/// Where the pixel at `(x, y)` starts in the samples of a pixmap that covers `rect`, with
/// `n` components per pixel, rows `stride` bytes apart and `len` bytes of samples, or the
/// message of the error: a point outside the pixmap, a negative stride, an offset past
/// the range of `usize`, or a pixel that runs past the samples.
pub open spec fn pixel_offset_of(rect: IRect, n: usize, stride: i32, len: usize, x: i32, y: i32) -> Result<
    usize,
    Seq<char>,
> {
    let offset = (y - rect.y0) * stride + (x - rect.x0) * n;
    if !rect.spec_contains(x, y) {
        Err(
            "pixel coordinate ("@ + int_text(x as int) + ", "@ + int_text(y as int)
                + ") is outside pixmap bounds "@ + irect_text(rect),
        )
    } else if stride < 0 {
        Err("pixmap stride cannot be represented as usize"@)
    } else if (y - rect.y0) * stride > usize::MAX || (x - rect.x0) * n > usize::MAX || offset
        > usize::MAX {
        Err("pixel offset overflow"@)
    } else if offset + n > len {
        Err("pixel offset exceeds pixmap samples"@)
    } else {
        Ok(offset as usize)
    }
}

/// Where the pixel at `(x, y)` starts in the samples of a pixmap (see
/// [`pixel_offset_of`]).
pub fn pixel_offset(rect: IRect, n: usize, stride: i32, len: usize, x: i32, y: i32) -> (r: Result<
    usize,
    Error,
>)
    requires
        rect.spec_contains(x, y) ==> y - rect.y0 <= i32::MAX && x - rect.x0 <= i32::MAX,
    ensures
        match pixel_offset_of(rect, n, stride, len, x, y) {
            Ok(o) => r == Ok::<usize, Error>(o),
            Err(m) => fails_with(r, m),
        },
{
    if !rect.contains(x, y) {
        let mut m = String::new();
        m.append("pixel coordinate (");
        push_int(&mut m, x as i64);
        m.append(", ");
        push_int(&mut m, y as i64);
        m.append(") is outside pixmap bounds ");
        let t = rect.to_string();
        m.append(t.as_str());
        return Err(Error::InvalidArgument(m));
    }
    if stride < 0 {
        return Err(Error::InvalidArgument(String::from_str("pixmap stride cannot be represented as usize")));
    }
    let stride = stride as usize;
    let row = (y as i64 - rect.y0 as i64) as usize;
    let column = (x as i64 - rect.x0 as i64) as usize;
    let a = row.checked_mul(stride);
    let b = column.checked_mul(n);
    if a.is_none() || b.is_none() {
        return Err(Error::InvalidArgument(String::from_str("pixel offset overflow")));
    }
    let a = a.unwrap();
    let b = b.unwrap();
    let offset = a.checked_add(b);
    if offset.is_none() {
        return Err(Error::InvalidArgument(String::from_str("pixel offset overflow")));
    }
    let offset = offset.unwrap();
    let end = offset.checked_add(n);
    if end.is_none() || end.unwrap() > len {
        return Err(Error::InvalidArgument(String::from_str("pixel offset exceeds pixmap samples")));
    }
    Ok(offset)
}

} // verus!
