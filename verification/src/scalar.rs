//! Coordinates and lengths.
//!
//! Every number the editor stores is a binary64 value, carried here as its
//! 64-bit pattern. The crate never does arithmetic on these values: sums,
//! products and trigonometry are the caller's business. What it does itself is
//! compare them, and the order of binary64 values can be read off the bit
//! patterns exactly.

use vstd::prelude::*;

verus! {

/// Bit pattern whose only set bit is the sign.
pub const SIGN_BIT: u64 = 0x8000_0000_0000_0000;

/// Bit pattern of positive infinity; any larger magnitude is not a number.
pub const INFINITY_BITS: u64 = 0x7FF0_0000_0000_0000;

/// Bit pattern of negative infinity.
pub const NEG_INFINITY_BITS: u64 = 0xFFF0_0000_0000_0000;

/// Bit pattern of the number one.
pub const ONE_BITS: u64 = 0x3FF0_0000_0000_0000;

/// Bit pattern of one tenth, rounded to nearest.
pub const TENTH_BITS: u64 = 0x3FB9_9999_9999_999A;

/// Bit pattern of the number ten.
pub const TEN_BITS: u64 = 0x4024_0000_0000_0000;

/// Bit pattern of the number fifteen.
pub const FIFTEEN_BITS: u64 = 0x402E_0000_0000_0000;

/// Bit pattern of the largest finite value.
pub const LARGEST_BITS: u64 = 0x7FEF_FFFF_FFFF_FFFF;

/// Bit pattern of the smallest (most negative) finite value.
pub const SMALLEST_BITS: u64 = 0xFFEF_FFFF_FFFF_FFFF;

/// A binary64 number held as its bit pattern.
#[derive(Clone, Copy, PartialEq, Eq, Structural, Debug)]
pub struct Scalar {
    pub bits: u64,
}

impl Scalar {
    /// The bit pattern without its sign.
    pub open spec fn magnitude(self) -> int {
        if self.bits >= SIGN_BIT {
            self.bits - SIGN_BIT
        } else {
            self.bits as int
        }
    }

    /// Whether the sign bit is set.
    pub open spec fn negative(self) -> bool {
        self.bits >= SIGN_BIT
    }

    /// Whether the pattern encodes no number at all.
    pub open spec fn nan(self) -> bool {
        self.magnitude() > INFINITY_BITS
    }

    /// Position of the value on the number line: an integer that grows with
    /// the encoded number. Both zeros stand at 0.
    pub open spec fn rank(self) -> int {
        if self.negative() {
            -self.magnitude()
        } else {
            self.magnitude()
        }
    }

    /// `self <= other` as numbers. False as soon as either side is not a number.
    pub open spec fn at_most(self, other: Scalar) -> bool {
        !self.nan() && !other.nan() && self.rank() <= other.rank()
    }

    /// `self < other` as numbers. False as soon as either side is not a number.
    pub open spec fn below(self, other: Scalar) -> bool {
        !self.nan() && !other.nan() && self.rank() < other.rank()
    }

    /// The smaller of two numbers; a side that is not a number is ignored.
    pub open spec fn lesser(self, other: Scalar) -> Scalar {
        if self.nan() {
            other
        } else if other.nan() {
            self
        } else if other.below(self) {
            other
        } else {
            self
        }
    }

    /// The larger of two numbers; a side that is not a number is ignored.
    pub open spec fn greater(self, other: Scalar) -> Scalar {
        if self.nan() {
            other
        } else if other.nan() {
            self
        } else if self.below(other) {
            other
        } else {
            self
        }
    }

    /// Wraps a bit pattern.
    pub fn from_bits(bits: u64) -> (r: Scalar)
        ensures
            r.bits == bits,
    {
        Scalar { bits }
    }

    /// The bit pattern.
    pub fn to_bits(self) -> (r: u64)
        ensures
            r == self.bits,
    {
        self.bits
    }

    /// Positive zero.
    pub fn zero() -> (r: Scalar)
        ensures
            r == (Scalar { bits: 0 }),
    {
        Scalar { bits: 0 }
    }

    /// The number one.
    pub fn one() -> (r: Scalar)
        ensures
            r == (Scalar { bits: ONE_BITS }),
    {
        Scalar { bits: ONE_BITS }
    }

    /// The largest finite value.
    pub fn largest() -> (r: Scalar)
        ensures
            r == (Scalar { bits: LARGEST_BITS }),
    {
        Scalar { bits: LARGEST_BITS }
    }

    /// The smallest finite value.
    pub fn smallest() -> (r: Scalar)
        ensures
            r == (Scalar { bits: SMALLEST_BITS }),
    {
        Scalar { bits: SMALLEST_BITS }
    }

    fn magnitude_bits(self) -> (r: u64)
        ensures
            r == self.magnitude(),
    {
        if self.bits >= SIGN_BIT {
            self.bits - SIGN_BIT
        } else {
            self.bits
        }
    }

    /// Whether the pattern encodes no number.
    pub fn is_nan(self) -> (r: bool)
        ensures
            r == self.nan(),
    {
        self.magnitude_bits() > INFINITY_BITS
    }

    /// Numeric `<`.
    pub fn lt(self, other: Scalar) -> (r: bool)
        ensures
            r == self.below(other),
    {
        if self.is_nan() || other.is_nan() {
            return false;
        }
        let a: u64 = self.magnitude_bits();
        let b: u64 = other.magnitude_bits();
        if self.bits >= SIGN_BIT {
            if other.bits >= SIGN_BIT {
                b < a
            } else {
                a > 0 || b > 0
            }
        } else {
            if other.bits >= SIGN_BIT {
                false
            } else {
                a < b
            }
        }
    }

    /// Numeric `<=`.
    pub fn le(self, other: Scalar) -> (r: bool)
        ensures
            r == self.at_most(other),
    {
        if self.is_nan() || other.is_nan() {
            return false;
        }
        !other.lt(self)
    }

    /// The smaller of two numbers, ignoring a side that is not a number.
    pub fn min(self, other: Scalar) -> (r: Scalar)
        ensures
            r == self.lesser(other),
    {
        if self.is_nan() {
            other
        } else if other.is_nan() {
            self
        } else if other.lt(self) {
            other
        } else {
            self
        }
    }

    /// The larger of two numbers, ignoring a side that is not a number.
    pub fn max(self, other: Scalar) -> (r: Scalar)
        ensures
            r == self.greater(other),
    {
        if self.is_nan() {
            other
        } else if other.is_nan() {
            self
        } else if self.lt(other) {
            other
        } else {
            self
        }
    }
}

/// The order is transitive, and `lesser` / `greater` pick a bound of both sides.
pub proof fn lemma_order(a: Scalar, b: Scalar, c: Scalar)
    ensures
        a.at_most(b) && b.at_most(c) ==> a.at_most(c),
        !a.nan() ==> a.at_most(a),
        !a.nan() && !b.nan() ==> a.at_most(b) || b.below(a),
        !a.nan() && !b.nan() ==> a.lesser(b).at_most(a) && a.lesser(b).at_most(b),
        !a.nan() && !b.nan() ==> a.at_most(a.greater(b)) && b.at_most(a.greater(b)),
        a.lesser(b) == a || a.lesser(b) == b,
        a.greater(b) == a || a.greater(b) == b,
{
}

} // verus!
