//! IEEE-754 binary32 values held as their bit patterns, and the three operations on them
//! (reading decimal text, adding, writing decimal text) that callers supply.
use vstd::prelude::*;

verus! {

/// An IEEE-754 binary32 (single precision) value, held as its bit pattern.
#[derive(Clone, Copy, Debug)]
pub struct Binary32 {
    /// The 32 bits of the value: sign, 8 exponent bits, 23 fraction bits.
    pub bits: u32,
}

/// The bits of `b` without the sign bit.
pub open spec fn abs_bits(b: u32) -> u32 {
    if b >= 0x8000_0000 {
        (b - 0x8000_0000) as u32
    } else {
        b
    }
}

/// The value is a NaN.
pub open spec fn is_nan_bits(b: u32) -> bool {
    abs_bits(b) > 0x7f80_0000
}

/// The value is neither infinite nor a NaN.
pub open spec fn is_finite_bits(b: u32) -> bool {
    abs_bits(b) < 0x7f80_0000
}

/// The value is an infinity.
pub open spec fn is_infinite_bits(b: u32) -> bool {
    abs_bits(b) == 0x7f80_0000
}

/// The value is `+0.0` or `-0.0`.
pub open spec fn is_zero_bits(b: u32) -> bool {
    abs_bits(b) == 0
}

/// The sign bit is set.
pub open spec fn is_sign_negative_bits(b: u32) -> bool {
    b >= 0x8000_0000
}

/// The value compares `<= 0.0`.
pub open spec fn le_zero_bits(b: u32) -> bool {
    !is_nan_bits(b) && (is_zero_bits(b) || is_sign_negative_bits(b))
}

/// The bits of the negated value (the sign bit flipped).
pub open spec fn neg_bits(b: u32) -> u32 {
    if b >= 0x8000_0000 {
        (b - 0x8000_0000) as u32
    } else {
        (b + 0x8000_0000) as u32
    }
}

/// IEEE equality: no NaN equals anything, and `+0.0` equals `-0.0`.
pub open spec fn ieee_eq_bits(a: u32, b: u32) -> bool {
    !is_nan_bits(a) && !is_nan_bits(b) && (a == b || (is_zero_bits(a) && is_zero_bits(b)))
}

/// The bits of `100.0`.
pub open spec fn hundred_bits() -> u32 {
    0x42c8_0000
}

impl Binary32 {
    /// The value with the given bit pattern.
    pub fn from_bits(bits: u32) -> (r: Binary32)
        ensures
            r.bits == bits,
    {
        Binary32 { bits }
    }

    /// The bit pattern of the value.
    pub fn to_bits(&self) -> (r: u32)
        ensures
            r == self.bits,
    {
        self.bits
    }

    /// `100.0`.
    pub fn hundred() -> (r: Binary32)
        ensures
            r.bits == hundred_bits(),
    {
        Binary32 { bits: 0x42c8_0000 }
    }

    /// Tests for a NaN.
    pub fn is_nan(&self) -> (r: bool)
        ensures
            r == is_nan_bits(self.bits),
    {
        let a = if self.bits >= 0x8000_0000 {
            self.bits - 0x8000_0000
        } else {
            self.bits
        };
        a > 0x7f80_0000
    }

    /// Tests that the value is neither infinite nor a NaN.
    pub fn is_finite(&self) -> (r: bool)
        ensures
            r == is_finite_bits(self.bits),
    {
        let a = if self.bits >= 0x8000_0000 {
            self.bits - 0x8000_0000
        } else {
            self.bits
        };
        a < 0x7f80_0000
    }

    /// Tests for an infinity.
    pub fn is_infinite(&self) -> (r: bool)
        ensures
            r == is_infinite_bits(self.bits),
    {
        let a = if self.bits >= 0x8000_0000 {
            self.bits - 0x8000_0000
        } else {
            self.bits
        };
        a == 0x7f80_0000
    }

    /// Tests for `+0.0` or `-0.0`.
    pub fn is_zero(&self) -> (r: bool)
        ensures
            r == is_zero_bits(self.bits),
    {
        self.bits == 0 || self.bits == 0x8000_0000
    }

    /// Tests whether the value compares `<= 0.0`.
    pub fn le_zero(&self) -> (r: bool)
        ensures
            r == le_zero_bits(self.bits),
    {
        !self.is_nan() && (self.is_zero() || self.bits >= 0x8000_0000)
    }

    /// The negated value.
    pub fn neg(&self) -> (r: Binary32)
        ensures
            r.bits == neg_bits(self.bits),
    {
        if self.bits >= 0x8000_0000 {
            Binary32 { bits: self.bits - 0x8000_0000 }
        } else {
            Binary32 { bits: self.bits + 0x8000_0000 }
        }
    }
}

impl PartialEq for Binary32 {
    fn eq(&self, other: &Self) -> (r: bool) {
        !self.is_nan() && !other.is_nan() && (self.bits == other.bits || (self.is_zero()
            && other.is_zero()))
    }
}

impl vstd::std_specs::cmp::PartialEqSpecImpl for Binary32 {
    open spec fn obeys_eq_spec() -> bool {
        true
    }

    open spec fn eq_spec(&self, other: &Self) -> bool {
        ieee_eq_bits(self.bits, other.bits)
    }
}

/// `rd` reads decimal text as a binary32 value: it can be called on any text, and its answer
/// depends on the characters of the text alone.
pub open spec fn is_reader<R: Fn(&str) -> Option<Binary32>>(rd: R) -> bool {
    &&& forall|s: &str| #[trigger] call_requires(rd, (s,))
    &&& forall|s1: &str, s2: &str, a: Option<Binary32>, b: Option<Binary32>|
        #![trigger call_ensures(rd, (s1,), a), call_ensures(rd, (s2,), b)]
        s1@ == s2@ && call_ensures(rd, (s1,), a) && call_ensures(rd, (s2,), b) ==> a == b
}

/// Some call of `rd` on a text with characters `t` answered `a`.
pub open spec fn reader_answers<R: Fn(&str) -> Option<Binary32>>(rd: R, t: Seq<char>, a: Option<Binary32>) -> bool {
    exists|s: &str| s@ == t && #[trigger] call_ensures(rd, (s,), a)
}

/// The function of text that a reader computes.
pub open spec fn read_by<R: Fn(&str) -> Option<Binary32>>(rd: R) -> spec_fn(Seq<char>) -> Option<Binary32> {
    |t: Seq<char>| choose|a: Option<Binary32>| #[trigger] reader_answers(rd, t, a)
}

/// What a reader answered on `s` is what `read_by` says of `s`.
pub proof fn lemma_read_by<R: Fn(&str) -> Option<Binary32>>(rd: R, s: &str, a: Option<Binary32>)
    requires
        is_reader(rd),
        call_ensures(rd, (s,), a),
    ensures
        read_by(rd)(s@) == a,
{
    let t = s@;
    assert(reader_answers(rd, t, a));
    let b = choose|b: Option<Binary32>| #[trigger] reader_answers(rd, t, b);
    assert(reader_answers(rd, t, b));
    let s2 = choose|s2: &str| s2@ == t && #[trigger] call_ensures(rd, (s2,), b);
    assert(call_ensures(rd, (s2,), b));
}

/// `ad` adds binary32 values: it can be called on any two values, and its answer depends
/// on them alone.
pub open spec fn is_adder<A: Fn(Binary32, Binary32) -> Binary32>(ad: A) -> bool {
    &&& forall|x: Binary32, y: Binary32| #[trigger] call_requires(ad, (x, y))
    &&& forall|x: Binary32, y: Binary32, p: Binary32, q: Binary32|
        #![trigger call_ensures(ad, (x, y), p), call_ensures(ad, (x, y), q)]
        call_ensures(ad, (x, y), p) && call_ensures(ad, (x, y), q) ==> p == q
}

/// The function of two values that an adder computes.
pub open spec fn add_by<A: Fn(Binary32, Binary32) -> Binary32>(ad: A) -> spec_fn(Binary32, Binary32) -> Binary32 {
    |x: Binary32, y: Binary32| choose|p: Binary32| #[trigger] call_ensures(ad, (x, y), p)
}

/// What an adder answered on `x` and `y` is what `add_by` says of them.
pub proof fn lemma_add_by<A: Fn(Binary32, Binary32) -> Binary32>(ad: A, x: Binary32, y: Binary32, p: Binary32)
    requires
        is_adder(ad),
        call_ensures(ad, (x, y), p),
    ensures
        add_by(ad)(x, y) == p,
{
    let q = choose|q: Binary32| #[trigger] call_ensures(ad, (x, y), q);
    assert(call_ensures(ad, (x, y), q));
}

/// `sh` writes binary32 values as decimal text: it can be called on any value, and the
/// characters of its answer depend on the value alone.
pub open spec fn is_shower<S: Fn(Binary32) -> String>(sh: S) -> bool {
    &&& forall|x: Binary32| #[trigger] call_requires(sh, (x,))
    &&& forall|x: Binary32, s1: String, s2: String|
        #![trigger call_ensures(sh, (x,), s1), call_ensures(sh, (x,), s2)]
        call_ensures(sh, (x,), s1) && call_ensures(sh, (x,), s2) ==> s1@ == s2@
}

/// Some call of `sh` on `x` answered the text `t`.
pub open spec fn shower_answers<S: Fn(Binary32) -> String>(sh: S, x: Binary32, t: Seq<char>) -> bool {
    exists|s: String| s@ == t && #[trigger] call_ensures(sh, (x,), s)
}

/// The function from values to text that a shower computes.
pub open spec fn show_by<S: Fn(Binary32) -> String>(sh: S) -> spec_fn(Binary32) -> Seq<char> {
    |x: Binary32| choose|t: Seq<char>| #[trigger] shower_answers(sh, x, t)
}

/// What a shower answered on `x` is what `show_by` says of `x`.
pub proof fn lemma_show_by<S: Fn(Binary32) -> String>(sh: S, x: Binary32, s: String)
    requires
        is_shower(sh),
        call_ensures(sh, (x,), s),
    ensures
        show_by(sh)(x) == s@,
{
    assert(shower_answers(sh, x, s@));
    let t = choose|t: Seq<char>| #[trigger] shower_answers(sh, x, t);
    assert(shower_answers(sh, x, t));
    let s2 = choose|s2: String| s2@ == t && #[trigger] call_ensures(sh, (x,), s2);
    assert(call_ensures(sh, (x,), s2));
}

} // verus!
