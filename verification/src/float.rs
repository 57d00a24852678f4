//! Binary64 samples, held by their bit patterns.
//!
//! Everything that can be read off the bits is decided here: the class of a
//! value (finite, infinite, NaN), its sign, and the IEEE 754 order. What
//! needs rounding is left to an [`Arith`](crate::arith::Arith).
use vstd::prelude::*;

verus! {

/// The sign bit of a binary64 value.
pub const SIGN_BIT: u64 = 0x8000_0000_0000_0000;

/// The bits of positive infinity: every exponent bit set, no fraction bit.
pub const INFINITY_BITS: u64 = 0x7ff0_0000_0000_0000;

/// The bits of the quiet NaN that fills the positions before the lookback.
pub const NAN_BITS: u64 = 0x7ff8_0000_0000_0000;

/// The bits of `1.0`.
pub const ONE_BITS: u64 = 0x3ff0_0000_0000_0000;

/// The bits of `0.5`.
pub const HALF_BITS: u64 = 0x3fe0_0000_0000_0000;

/// The bits of `2.0`.
pub const TWO_BITS: u64 = 0x4000_0000_0000_0000;

/// The bits of `3.0`.
pub const THREE_BITS: u64 = 0x4008_0000_0000_0000;

/// The bits of `50.0`.
pub const FIFTY_BITS: u64 = 0x4049_0000_0000_0000;

/// The bits of `100.0`.
pub const HUNDRED_BITS: u64 = 0x4059_0000_0000_0000;

/// A binary64 value, held by its bit pattern.
///
/// Two values are the same for the contracts when their bits are the same;
/// the IEEE 754 comparisons are [`Float::lt`], [`Float::le`] and
/// [`Float::same`].
#[derive(Clone, Copy, Debug)]
pub struct Float {
    pub bits: u64,
}

impl Float {
    /// The bits without the sign.
    pub open spec fn magnitude(self) -> u64 {
        if self.bits >= SIGN_BIT {
            (self.bits - SIGN_BIT) as u64
        } else {
            self.bits
        }
    }

    /// The value without its sign.
    pub open spec fn absolute(self) -> Float {
        Float { bits: self.magnitude() }
    }

    /// Whether the sign bit is set.
    pub open spec fn negative(self) -> bool {
        self.bits >= SIGN_BIT
    }

    /// Zero, subnormal or normal: neither infinite nor NaN.
    pub open spec fn finite(self) -> bool {
        self.magnitude() < INFINITY_BITS
    }

    /// A NaN of any payload.
    pub open spec fn nan(self) -> bool {
        self.magnitude() > INFINITY_BITS
    }

    /// Where the value stands in the IEEE 754 order, for a value that is no
    /// NaN: both zeros stand at 0, and a larger value stands higher.
    pub open spec fn rank(self) -> int {
        if self.negative() {
            -(self.magnitude() as int)
        } else {
            self.magnitude() as int
        }
    }

    /// IEEE 754 `<`: false as soon as one side is a NaN.
    pub open spec fn lt(self, other: Float) -> bool {
        !self.nan() && !other.nan() && self.rank() < other.rank()
    }

    /// IEEE 754 `<=`: false as soon as one side is a NaN.
    pub open spec fn le(self, other: Float) -> bool {
        !self.nan() && !other.nan() && self.rank() <= other.rank()
    }

    /// IEEE 754 `==`: false as soon as one side is a NaN, true of the two zeros.
    pub open spec fn same(self, other: Float) -> bool {
        !self.nan() && !other.nan() && self.rank() == other.rank()
    }

    /// The value with these bits.
    pub fn from_bits(bits: u64) -> (r: Float)
        ensures
            r.bits == bits,
    {
        Float { bits }
    }

    /// The bits of the value.
    pub fn to_bits(self) -> (r: u64)
        ensures
            r == self.bits,
    {
        self.bits
    }

    fn magnitude_bits(self) -> (r: u64)
        ensures
            r == self.magnitude(),
    {
        if self.bits >= SIGN_BIT {
            self.bits - SIGN_BIT
        } else {
            self.bits
        }
    }

    /// Whether the value is neither infinite nor NaN.
    pub fn is_finite(self) -> (r: bool)
        ensures
            r == self.finite(),
    {
        self.magnitude_bits() < INFINITY_BITS
    }

    /// Whether the value is a NaN.
    pub fn is_nan(self) -> (r: bool)
        ensures
            r == self.nan(),
    {
        self.magnitude_bits() > INFINITY_BITS
    }

    /// Whether `self < other` in the IEEE 754 order.
    pub fn less_than(self, other: Float) -> (r: bool)
        ensures
            r == self.lt(other),
    {
        if self.is_nan() || other.is_nan() {
            return false;
        }
        let a: u64 = self.magnitude_bits();
        let b: u64 = other.magnitude_bits();
        if self.bits >= SIGN_BIT {
            if other.bits >= SIGN_BIT {
                b < a
            } else {
                a != 0 || b != 0
            }
        } else {
            if other.bits >= SIGN_BIT {
                false
            } else {
                a < b
            }
        }
    }

    /// Whether `self > other` in the IEEE 754 order.
    pub fn greater_than(self, other: Float) -> (r: bool)
        ensures
            r == other.lt(self),
    {
        other.less_than(self)
    }

    /// Whether `self <= other` in the IEEE 754 order.
    pub fn at_most(self, other: Float) -> (r: bool)
        ensures
            r == self.le(other),
    {
        if self.is_nan() || other.is_nan() {
            return false;
        }
        !other.less_than(self)
    }

    /// Whether `self == other` in the IEEE 754 order.
    pub fn equals(self, other: Float) -> (r: bool)
        ensures
            r == self.same(other),
    {
        if self.is_nan() || other.is_nan() {
            return false;
        }
        !other.less_than(self) && !self.less_than(other)
    }

    /// The value without its sign.
    pub fn abs(self) -> (r: Float)
        ensures
            r == self.absolute(),
    {
        Float { bits: self.magnitude_bits() }
    }
}

/// The quiet NaN that marks an output position without a value.
pub open spec fn nan() -> Float {
    Float { bits: NAN_BITS }
}

/// `0.0`.
pub open spec fn zero() -> Float {
    Float { bits: 0 }
}

/// `1.0`.
pub open spec fn one() -> Float {
    Float { bits: ONE_BITS }
}

/// `0.5`.
pub open spec fn half() -> Float {
    Float { bits: HALF_BITS }
}

/// `2.0`.
pub open spec fn two() -> Float {
    Float { bits: TWO_BITS }
}

/// `3.0`.
pub open spec fn three() -> Float {
    Float { bits: THREE_BITS }
}

/// `50.0`.
pub open spec fn fifty() -> Float {
    Float { bits: FIFTY_BITS }
}

/// `100.0`.
pub open spec fn hundred() -> Float {
    Float { bits: HUNDRED_BITS }
}

} // verus!
