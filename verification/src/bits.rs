//! IEEE 754 numbers held as bit patterns, with the order of the format.
//!
//! A finite number or an infinity is ordered by its sign and magnitude, and
//! the magnitude of a number that is not a NaN is the integer that its
//! remaining bits spell. No arithmetic is needed to compare two of them.

use vstd::prelude::*;

verus! {

/// Magnitude bits of the single-precision infinities.
pub const SINGLE_INFINITY: u32 = 0x7f80_0000;

/// The sign bit of a single-precision number.
pub const SINGLE_SIGN: u32 = 0x8000_0000;

/// Magnitude bits of the double-precision infinities.
pub const DOUBLE_INFINITY: u64 = 0x7ff0_0000_0000_0000;

/// The sign bit of a double-precision number.
pub const DOUBLE_SIGN: u64 = 0x8000_0000_0000_0000;

/// A single-precision number, by its encoding.
#[derive(Clone, Copy, Debug, PartialEq, Eq, Structural)]
pub struct Single {
    pub bits: u32,
}

/// A double-precision number, by its encoding.
#[derive(Clone, Copy, Debug, PartialEq, Eq, Structural)]
pub struct Double {
    pub bits: u64,
}

impl Default for Single {
    /// Zero.
    fn default() -> (r: Single)
        ensures
            r.bits == 0,
    {
        Single { bits: 0 }
    }
}

impl Default for Double {
    /// Zero.
    fn default() -> (r: Double)
        ensures
            r.bits == 0,
    {
        Double { bits: 0 }
    }
}

impl Single {
    /// The encoding without its sign, as an integer.
    pub open spec fn magnitude(self) -> int {
        if self.bits >= SINGLE_SIGN {
            self.bits - SINGLE_SIGN
        } else {
            self.bits as int
        }
    }

    /// Neither a number nor an infinity.
    pub open spec fn nan(self) -> bool {
        self.magnitude() > SINGLE_INFINITY
    }

    /// Where the number stands in the order of the format; both zeros stand
    /// at 0.
    pub open spec fn rank(self) -> int {
        if self.bits >= SINGLE_SIGN {
            -self.magnitude()
        } else {
            self.magnitude()
        }
    }

    /// `self < other`, which is false wherever a NaN takes part.
    pub open spec fn below(self, other: Single) -> bool {
        !self.nan() && !other.nan() && self.rank() < other.rank()
    }

    /// `self <= other`, which is false wherever a NaN takes part.
    pub open spec fn at_most(self, other: Single) -> bool {
        !self.nan() && !other.nan() && self.rank() <= other.rank()
    }

    pub fn is_nan(self) -> (r: bool)
        ensures
            r == self.nan(),
    {
        if self.bits >= SINGLE_SIGN {
            self.bits - SINGLE_SIGN > SINGLE_INFINITY
        } else {
            self.bits > SINGLE_INFINITY
        }
    }

    /// Neither a NaN nor an infinity.
    pub open spec fn finite(self) -> bool {
        self.magnitude() < SINGLE_INFINITY
    }

    pub fn is_finite(self) -> (r: bool)
        ensures
            r == self.finite(),
    {
        if self.bits >= SINGLE_SIGN {
            self.bits - SINGLE_SIGN < SINGLE_INFINITY
        } else {
            self.bits < SINGLE_INFINITY
        }
    }

    /// The number with its sign turned round.
    pub open spec fn negation(self) -> Single {
        if self.bits >= SINGLE_SIGN {
            Single { bits: (self.bits - SINGLE_SIGN) as u32 }
        } else {
            Single { bits: (self.bits + SINGLE_SIGN) as u32 }
        }
    }

    pub fn negated(self) -> (r: Single)
        ensures
            r == self.negation(),
            r.rank() == -self.rank(),
            r.nan() == self.nan(),
    {
        if self.bits >= SINGLE_SIGN {
            Single { bits: self.bits - SINGLE_SIGN }
        } else {
            Single { bits: self.bits + SINGLE_SIGN }
        }
    }

    /// Either zero.
    pub fn is_zero(self) -> (r: bool)
        ensures
            r == (self.rank() == 0),
    {
        self.bits == 0 || self.bits == SINGLE_SIGN
    }

    pub fn is_below(self, other: Single) -> (r: bool)
        ensures
            r == self.below(other),
    {
        !self.is_nan() && !other.is_nan() && self.signed_rank() < other.signed_rank()
    }

    pub fn is_at_most(self, other: Single) -> (r: bool)
        ensures
            r == self.at_most(other),
    {
        !self.is_nan() && !other.is_nan() && self.signed_rank() <= other.signed_rank()
    }

    /// Greater than zero.
    pub fn is_positive(self) -> (r: bool)
        ensures
            r == (!self.nan() && self.rank() > 0),
    {
        0 < self.bits && self.bits <= SINGLE_INFINITY
    }

    /// The place in the order, as an integer.
    pub fn signed_rank(self) -> (r: i64)
        ensures
            r == self.rank(),
    {
        if self.bits >= SINGLE_SIGN {
            -((self.bits - SINGLE_SIGN) as i64)
        } else {
            self.bits as i64
        }
    }
}

impl Double {
    /// The encoding without its sign, as an integer.
    pub open spec fn magnitude(self) -> int {
        if self.bits >= DOUBLE_SIGN {
            self.bits - DOUBLE_SIGN
        } else {
            self.bits as int
        }
    }

    /// Neither a number nor an infinity.
    pub open spec fn nan(self) -> bool {
        self.magnitude() > DOUBLE_INFINITY
    }

    /// Where the number stands in the order of the format; both zeros stand
    /// at 0.
    pub open spec fn rank(self) -> int {
        if self.bits >= DOUBLE_SIGN {
            -self.magnitude()
        } else {
            self.magnitude()
        }
    }

    /// `self < other`, which is false wherever a NaN takes part.
    pub open spec fn below(self, other: Double) -> bool {
        !self.nan() && !other.nan() && self.rank() < other.rank()
    }

    /// `self <= other`, which is false wherever a NaN takes part.
    pub open spec fn at_most(self, other: Double) -> bool {
        !self.nan() && !other.nan() && self.rank() <= other.rank()
    }

    pub fn is_nan(self) -> (r: bool)
        ensures
            r == self.nan(),
    {
        if self.bits >= DOUBLE_SIGN {
            self.bits - DOUBLE_SIGN > DOUBLE_INFINITY
        } else {
            self.bits > DOUBLE_INFINITY
        }
    }

    /// Neither a NaN nor an infinity.
    pub open spec fn finite(self) -> bool {
        self.magnitude() < DOUBLE_INFINITY
    }

    pub fn is_finite(self) -> (r: bool)
        ensures
            r == self.finite(),
    {
        if self.bits >= DOUBLE_SIGN {
            self.bits - DOUBLE_SIGN < DOUBLE_INFINITY
        } else {
            self.bits < DOUBLE_INFINITY
        }
    }

    /// The number with its sign turned round.
    pub open spec fn negation(self) -> Double {
        if self.bits >= DOUBLE_SIGN {
            Double { bits: (self.bits - DOUBLE_SIGN) as u64 }
        } else {
            Double { bits: (self.bits + DOUBLE_SIGN) as u64 }
        }
    }

    pub fn negated(self) -> (r: Double)
        ensures
            r == self.negation(),
            r.rank() == -self.rank(),
            r.nan() == self.nan(),
    {
        if self.bits >= DOUBLE_SIGN {
            Double { bits: self.bits - DOUBLE_SIGN }
        } else {
            Double { bits: self.bits + DOUBLE_SIGN }
        }
    }

    /// Either zero.
    pub fn is_zero(self) -> (r: bool)
        ensures
            r == (self.rank() == 0),
    {
        self.bits == 0 || self.bits == DOUBLE_SIGN
    }

    pub fn is_below(self, other: Double) -> (r: bool)
        ensures
            r == self.below(other),
    {
        !self.is_nan() && !other.is_nan() && self.signed_rank() < other.signed_rank()
    }

    pub fn is_at_most(self, other: Double) -> (r: bool)
        ensures
            r == self.at_most(other),
    {
        !self.is_nan() && !other.is_nan() && self.signed_rank() <= other.signed_rank()
    }

    /// Greater than zero.
    pub fn is_positive(self) -> (r: bool)
        ensures
            r == (!self.nan() && self.rank() > 0),
    {
        0 < self.bits && self.bits <= DOUBLE_INFINITY
    }

    /// The number without its sign.
    pub open spec fn absolute(self) -> Double {
        Double { bits: self.magnitude() as u64 }
    }

    pub fn abs(self) -> (r: Double)
        ensures
            r == self.absolute(),
    {
        if self.bits >= DOUBLE_SIGN {
            Double { bits: self.bits - DOUBLE_SIGN }
        } else {
            self
        }
    }

    /// The nearest number between `low` and `high`; a NaN stays.
    pub open spec fn limited(self, low: Double, high: Double) -> Double {
        if self.below(low) {
            low
        } else if high.below(self) {
            high
        } else {
            self
        }
    }

    /// The nearest number between `low` and `high`; a NaN stays.
    pub fn clamp(self, low: Double, high: Double) -> (r: Double)
        ensures
            r == self.limited(low, high),
            !self.nan() && low.at_most(high) ==> low.at_most(r) && r.at_most(high),
    {
        if self.is_below(low) {
            low
        } else if high.is_below(self) {
            high
        } else {
            self
        }
    }

    /// The place in the order, as an integer.
    pub fn signed_rank(self) -> (r: i128)
        ensures
            r == self.rank(),
    {
        if self.bits >= DOUBLE_SIGN {
            -((self.bits - DOUBLE_SIGN) as i128)
        } else {
            self.bits as i128
        }
    }
}

/// Away from NaNs the order is total: of two numbers one is below the other,
/// or neither is and they stand at the same place.
pub proof fn lemma_single_order_total(a: Single, b: Single)
    requires
        !a.nan(),
        !b.nan(),
    ensures
        a.below(b) || b.below(a) || a.rank() == b.rank(),
        !(a.below(b) && b.below(a)),
        a.at_most(b) == !b.below(a),
{
}

/// The same of double precision.
pub proof fn lemma_double_order_total(a: Double, b: Double)
    requires
        !a.nan(),
        !b.nan(),
    ensures
        a.below(b) || b.below(a) || a.rank() == b.rank(),
        !(a.below(b) && b.below(a)),
        a.at_most(b) == !b.below(a),
{
}

} // verus!
