//! Measured quantities, held as the bit pattern of an IEEE 754 double.
//!
//! The library never does arithmetic on these numbers. It orders them, picks
//! between them and puts them on the wire, and for all of that the bit pattern
//! is enough: two doubles that are not NaN stand in the same order as the
//! integers that `rank` gives them.
use vstd::prelude::*;

verus! {

/// The lowest bit pattern that carries the sign bit.
pub const SIGN_BIT: u64 = 0x8000_0000_0000_0000;

/// The bit pattern of positive infinity; any larger magnitude is a NaN.
pub const INFINITY_BITS: u64 = 0x7FF0_0000_0000_0000;

/// One measured number: a rate, an entropy, a boundary, a point in time.
///
/// Two values are `==` when their bit patterns are; the order of the numbers
/// is that of [`Scalar::below`].
#[derive(Clone, Copy, Debug, PartialEq, Eq, Structural)]
pub struct Scalar {
    /// The bit pattern of the double.
    pub bits: u64,
}

impl Scalar {
    /// The bit pattern without its sign.
    pub open spec fn magnitude(self) -> int {
        if self.bits < SIGN_BIT {
            self.bits as int
        } else {
            self.bits - SIGN_BIT
        }
    }

    /// The pattern is one of those that stand for no number.
    pub open spec fn is_nan(self) -> bool {
        self.magnitude() > INFINITY_BITS
    }

    /// The place of the number among all doubles; both zeros have place 0.
    pub open spec fn rank(self) -> int {
        if self.bits < SIGN_BIT {
            self.magnitude()
        } else {
            -self.magnitude()
        }
    }

    /// `self < other` as doubles compare: false as soon as one is a NaN.
    pub open spec fn below(self, other: Scalar) -> bool {
        !self.is_nan() && !other.is_nan() && self.rank() < other.rank()
    }

    /// `self >= other` as doubles compare: false as soon as one is a NaN.
    pub open spec fn reaches(self, other: Scalar) -> bool {
        !self.is_nan() && !other.is_nan() && self.rank() >= other.rank()
    }

    /// The larger of two numbers; a NaN gives way to the other argument.
    pub open spec fn larger(self, other: Scalar) -> Scalar {
        if self.is_nan() || self.below(other) {
            other
        } else {
            self
        }
    }

    /// The smaller of two numbers; a NaN gives way to the other argument.
    pub open spec fn smaller(self, other: Scalar) -> Scalar {
        if self.is_nan() || other.below(self) {
            other
        } else {
            self
        }
    }

    /// The number with the given bit pattern.
    pub fn from_bits(bits: u64) -> (r: Scalar)
        ensures
            r.bits == bits,
    {
        Scalar { bits }
    }

    /// Whether the pattern is a NaN.
    pub fn nan(self) -> (r: bool)
        ensures
            r == self.is_nan(),
    {
        if self.bits < SIGN_BIT {
            self.bits > INFINITY_BITS
        } else {
            self.bits - SIGN_BIT > INFINITY_BITS
        }
    }

    /// The place of the number among all doubles.
    pub fn place(self) -> (r: i64)
        ensures
            r == self.rank(),
    {
        if self.bits < SIGN_BIT {
            self.bits as i64
        } else {
            -((self.bits - SIGN_BIT) as i64)
        }
    }

    /// `self < other`.
    pub fn is_below(self, other: Scalar) -> (r: bool)
        ensures
            r == self.below(other),
    {
        !self.nan() && !other.nan() && self.place() < other.place()
    }

    /// `self >= other`.
    pub fn has_reached(self, other: Scalar) -> (r: bool)
        ensures
            r == self.reaches(other),
    {
        !self.nan() && !other.nan() && self.place() >= other.place()
    }

    /// The larger of the two numbers.
    pub fn at_least(self, other: Scalar) -> (r: Scalar)
        ensures
            r == self.larger(other),
    {
        if self.nan() || self.is_below(other) {
            other
        } else {
            self
        }
    }

    /// The smaller of the two numbers.
    pub fn at_most(self, other: Scalar) -> (r: Scalar)
        ensures
            r == self.smaller(other),
    {
        if self.nan() || other.is_below(self) {
            other
        } else {
            self
        }
    }
}

/// The order of the numbers is strict, and any two numbers of different place
/// are ordered one way or the other.
pub proof fn law_order_is_total(a: Scalar, b: Scalar, c: Scalar)
    ensures
        !a.below(a),
        a.below(b) ==> !b.below(a),
        a.below(b) && b.below(c) ==> a.below(c),
        !a.is_nan() && !b.is_nan() ==> a.below(b) || b.below(a) || a.rank() == b.rank(),
        a.reaches(b) <==> !a.is_nan() && !b.is_nan() && !a.below(b),
{
}

} // verus!
