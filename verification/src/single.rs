//! Single-precision numbers, held by their bits: volumes, pixels, peaks.
//!
//! Nothing here does arithmetic on them. They are compared, clamped and picked
//! from, and all of that can be read off the bits: the top one is the sign, and
//! the rest grow with the distance from zero.

use vstd::prelude::*;

verus! {

/// The sign bit.
pub const SIGN: u32 = 0x8000_0000;

/// The magnitude of an infinity. Anything above it is not a number.
pub const INFINITE: u32 = 0x7f80_0000;

pub const ZERO: u32 = 0;

pub const ONE: u32 = 0x3f80_0000;

/// A single-precision number, by its bits.
#[derive(Clone, Copy, PartialEq, Eq, Structural, Debug)]
pub struct Single {
    pub bits: u32,
}

impl Single {
    /// The bits without the sign.
    pub open spec fn magnitude(self) -> int {
        if self.bits < SIGN {
            self.bits as int
        } else {
            self.bits - SIGN
        }
    }

    /// Where the number stands among all the numbers there are.
    pub open spec fn rank(self) -> int {
        if self.bits < SIGN {
            self.magnitude()
        } else {
            -self.magnitude()
        }
    }

    pub open spec fn is_number(self) -> bool {
        self.magnitude() <= INFINITE
    }

    pub open spec fn finite(self) -> bool {
        self.magnitude() < INFINITE
    }

    /// Strictly below, which nothing that is not a number ever is.
    pub open spec fn below(self, other: Single) -> bool {
        self.is_number() && other.is_number() && self.rank() < other.rank()
    }

    /// Equal as numbers: the two zeros are, and what is not a number is not even
    /// equal to itself.
    pub open spec fn equal(self, other: Single) -> bool {
        self.is_number() && other.is_number() && self.rank() == other.rank()
    }

    pub fn is_nan(self) -> (b: bool)
        ensures
            b == !self.is_number(),
    {
        self.unsigned() > INFINITE
    }

    fn unsigned(self) -> (m: u32)
        ensures
            m == self.magnitude(),
    {
        if self.bits < SIGN {
            self.bits
        } else {
            self.bits - SIGN
        }
    }

    pub fn is_finite(self) -> (b: bool)
        ensures
            b == self.finite(),
    {
        self.unsigned() < INFINITE
    }

    pub fn lt(self, other: Single) -> (b: bool)
        ensures
            b == self.below(other),
    {
        if self.is_nan() || other.is_nan() {
            return false;
        }
        let a: u32 = self.unsigned();
        let b: u32 = other.unsigned();
        if self.bits < SIGN {
            other.bits < SIGN && a < b
        } else if other.bits < SIGN {
            a > 0 || b > 0
        } else {
            b < a
        }
    }

    pub fn same(self, other: Single) -> (b: bool)
        ensures
            b == self.equal(other),
    {
        !self.is_nan() && !other.is_nan() && !self.lt(other) && !other.lt(self)
    }

    /// What clamping to the range from nought to one makes of the number. What is
    /// not a number stays as it is.
    pub open spec fn clamped(self) -> Single {
        if self.below(Single { bits: ZERO }) {
            Single { bits: ZERO }
        } else if (Single { bits: ONE }).below(self) {
            Single { bits: ONE }
        } else {
            self
        }
    }

    pub fn clamp_unit(self) -> (r: Single)
        ensures
            r == self.clamped(),
    {
        let zero = Single { bits: ZERO };
        let one = Single { bits: ONE };
        if self.lt(zero) {
            zero
        } else if one.lt(self) {
            one
        } else {
            self
        }
    }

    /// Whether the number lies between nought and one, both included.
    pub open spec fn unit(self) -> bool {
        self.is_number() && 0 <= self.rank() <= ONE
    }

    /// The larger of the two, where what is not a number never wins over what is.
    pub open spec fn larger_of(self, other: Single) -> Single {
        if !other.is_number() || other.below(self) {
            self
        } else if !self.is_number() || self.below(other) {
            other
        } else {
            self
        }
    }

    pub fn larger(self, other: Single) -> (r: Single)
        ensures
            r == self.larger_of(other),
    {
        if other.is_nan() || other.lt(self) {
            self
        } else if self.is_nan() || self.lt(other) {
            other
        } else {
            self
        }
    }
}

/// A number that was clamped lies in the range, and clamping it again changes
/// nothing.
pub proof fn clamping_settles(s: Single)
    requires
        s.is_number(),
    ensures
        s.clamped().unit(),
        s.clamped().clamped() == s.clamped(),
        s.unit() ==> s.clamped() == s,
{
}

/// Numbers compare as they do: above nought by their bits, below it the other way round,
/// the two noughts alike, and what is not a number with nothing.
pub proof fn bits_tell_the_order(a: Single, b: Single)
    ensures
        a.bits < b.bits <= 0x7f80_0000 ==> a.below(b) && !b.below(a) && !a.equal(b),
        0x8000_0000 <= a.bits < b.bits <= 0xff80_0000 ==> b.below(a) && !a.below(b) && !a.equal(b),
        0x8000_0000 < a.bits <= 0xff80_0000 && b.bits <= 0x7f80_0000 ==> a.below(b) && !b.below(a)
            && !a.equal(b),
        a.bits == 0 && b.bits == 0x8000_0000 ==> a.equal(b) && !a.below(b) && !b.below(a),
        a == b && (a.bits <= 0x7f80_0000 || 0x8000_0000 <= a.bits <= 0xff80_0000) ==> a.equal(b),
        0x7f80_0000 < a.bits < 0x8000_0000 || a.bits > 0xff80_0000 ==> !a.below(b) && !b.below(a)
            && !a.equal(b) && !b.equal(a) && !a.finite(),
        a.finite() <==> a.bits < 0x7f80_0000 || 0x8000_0000 <= a.bits < 0xff80_0000,
{
}

/// Clamping brings what is below nought to nought and what is above one to one, and leaves
/// everything else as it is.
pub proof fn clamping_brings_into_range(a: Single)
    ensures
        a.bits <= 0x3f80_0000 ==> a.clamped() == a,
        0x3f80_0000 < a.bits <= 0x7f80_0000 ==> a.clamped().bits == 0x3f80_0000,
        0x8000_0000 < a.bits <= 0xff80_0000 ==> a.clamped().bits == 0,
        a.bits == 0x8000_0000 ==> a.clamped() == a,
        0x7f80_0000 < a.bits < 0x8000_0000 || a.bits > 0xff80_0000 ==> a.clamped() == a,
        a.unit() <==> a.bits <= 0x3f80_0000 || a.bits == 0x8000_0000,
{
}

/// The larger of two numbers is one of them, and neither is above it; what is not a number
/// gives way to what is.
pub proof fn the_larger_is_not_below(a: Single, b: Single)
    ensures
        a.larger_of(b) == a || a.larger_of(b) == b,
        !a.larger_of(b).below(a) && !a.larger_of(b).below(b),
        a.is_number() || b.is_number() ==> a.larger_of(b).is_number(),
{
}

} // verus!
