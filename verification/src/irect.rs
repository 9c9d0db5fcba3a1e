//! Rectangles with integer coordinates.
use vstd::prelude::*;
use crate::number::{int_text, push_int};

verus! {

/// A rectangle with integer coordinates: the points `(x, y)` with `x0 <= x < x1` and
/// `y0 <= y < y1`.
#[derive(Clone, Copy, Debug, PartialEq, Eq, Structural)]
pub struct IRect {
    pub x0: i32,
    pub y0: i32,
    pub x1: i32,
    pub y1: i32,
}

/// The lowest coordinate of MuPDF's infinite integer rectangle.
pub const FZ_MIN_INF_RECT: i32 = -2147483648i32;

/// The highest coordinate of MuPDF's infinite integer rectangle.
pub const FZ_MAX_INF_RECT: i32 = 2147483520i32;

/// The smaller of two coordinates.
fn min_i32(a: i32, b: i32) -> (r: i32)
    ensures
        r == (if a <= b { a } else { b }),
{
    if a <= b {
        a
    } else {
        b
    }
}

/// The larger of two coordinates.
fn max_i32(a: i32, b: i32) -> (r: i32)
    ensures
        r == (if a >= b { a } else { b }),
{
    if a >= b {
        a
    } else {
        b
    }
}

/// The text of a rectangle: `[x0 y0 x1 y1]`.
pub open spec fn irect_text(r: IRect) -> Seq<char> {
    "["@ + int_text(r.x0 as int) + " "@ + int_text(r.y0 as int) + " "@ + int_text(r.x1 as int) + " "@
        + int_text(r.y1 as int) + "]"@
}

impl Default for IRect {
    fn default() -> (r: IRect)
        ensures
            r == (IRect { x0: 0, y0: 0, x1: 0, y1: 0 }),
    {
        IRect { x0: 0, y0: 0, x1: 0, y1: 0 }
    }
}

impl IRect {
    /// The rectangle that MuPDF takes for the whole plane.
    pub fn inf() -> (r: IRect)
        ensures
            r == (IRect { x0: FZ_MIN_INF_RECT, y0: FZ_MIN_INF_RECT, x1: FZ_MAX_INF_RECT, y1: FZ_MAX_INF_RECT }),
    {
        IRect { x0: FZ_MIN_INF_RECT, y0: FZ_MIN_INF_RECT, x1: FZ_MAX_INF_RECT, y1: FZ_MAX_INF_RECT }
    }

    /// The rectangle with corners `(x0, y0)` and `(x1, y1)`.
    pub fn new(x0: i32, y0: i32, x1: i32, y1: i32) -> (r: IRect)
        ensures
            r == (IRect { x0, y0, x1, y1 }),
    {
        IRect { x0, y0, x1, y1 }
    }

    /// The rectangle holds no point.
    pub open spec fn spec_is_empty(self) -> bool {
        self.x0 >= self.x1 || self.y0 >= self.y1
    }

    /// The rectangle holds no point.
    pub fn is_empty(&self) -> (r: bool)
        ensures
            r == self.spec_is_empty(),
    {
        self.x0 >= self.x1 || self.y0 >= self.y1
    }

    /// The corners are in order (an empty rectangle with `x0 == x1` or `y0 == y1` is valid).
    pub open spec fn spec_is_valid(self) -> bool {
        self.x0 <= self.x1 && self.y0 <= self.y1
    }

    /// The corners are in order (an empty rectangle with `x0 == x1` or `y0 == y1` is valid).
    pub fn is_valid(&self) -> (r: bool)
        ensures
            r == self.spec_is_valid(),
    {
        self.x0 <= self.x1 && self.y0 <= self.y1
    }

    /// The point `(x, y)` lies in the rectangle.
    pub open spec fn spec_contains(self, x: i32, y: i32) -> bool {
        !self.spec_is_empty() && self.x0 <= x < self.x1 && self.y0 <= y < self.y1
    }

    /// The point `(x, y)` lies in the rectangle.
    pub fn contains(&self, x: i32, y: i32) -> (r: bool)
        ensures
            r == self.spec_contains(x, y),
    {
        if self.is_empty() {
            false
        } else {
            x >= self.x0 && x < self.x1 && y >= self.y0 && y < self.y1
        }
    }

    /// The width of the rectangle; 0 where it is empty.
    pub fn width(&self) -> (r: i32)
        requires
            !self.spec_is_empty() ==> self.x1 - self.x0 <= i32::MAX,
        ensures
            r == (if self.spec_is_empty() { 0 } else { self.x1 - self.x0 }),
    {
        if self.is_empty() {
            0
        } else {
            self.x1 - self.x0
        }
    }

    /// The height of the rectangle; 0 where it is empty.
    pub fn height(&self) -> (r: i32)
        requires
            !self.spec_is_empty() ==> self.y1 - self.y0 <= i32::MAX,
        ensures
            r == (if self.spec_is_empty() { 0 } else { self.y1 - self.y0 }),
    {
        if self.is_empty() {
            0
        } else {
            self.y1 - self.y0
        }
    }

    /// The smallest rectangle that holds both; where one of them is not valid, the other.
    pub fn union(&self, other: IRect) -> (r: IRect)
        ensures
            !self.spec_is_valid() ==> r == other,
            self.spec_is_valid() && !other.spec_is_valid() ==> r == *self,
            self.spec_is_valid() && other.spec_is_valid() ==> r == (IRect {
                x0: if self.x0 <= other.x0 { self.x0 } else { other.x0 },
                y0: if self.y0 <= other.y0 { self.y0 } else { other.y0 },
                x1: if self.x1 >= other.x1 { self.x1 } else { other.x1 },
                y1: if self.y1 >= other.y1 { self.y1 } else { other.y1 },
            }),
    {
        if !self.is_valid() {
            other
        } else if !other.is_valid() {
            *self
        } else {
            IRect {
                x0: min_i32(self.x0, other.x0),
                y0: min_i32(self.y0, other.y0),
                x1: max_i32(self.x1, other.x1),
                y1: max_i32(self.y1, other.y1),
            }
        }
    }

    /// The text of the rectangle: `[x0 y0 x1 y1]`.
    pub fn to_string(&self) -> (r: String)
        ensures
            r@ == irect_text(*self),
    {
        let mut s = String::new();
        s.append("[");
        push_int(&mut s, self.x0 as i64);
        s.append(" ");
        push_int(&mut s, self.y0 as i64);
        s.append(" ");
        push_int(&mut s, self.x1 as i64);
        s.append(" ");
        push_int(&mut s, self.y1 as i64);
        s.append("]");
        assert(s@ =~= irect_text(*self));
        s
    }
}

} // verus!
