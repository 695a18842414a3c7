//! Real quantities as the library sees them.
//!
//! A [`Scalar`] is a double-precision number in its IEEE-754 interchange
//! encoding: one sign bit, eleven exponent bits, fifty-two fraction bits. The
//! library never computes with scalars. It stores them, hands them back, and
//! decides their order, which the encoding allows with integer comparisons
//! alone: among numbers of one sign, a larger magnitude is a larger bit
//! pattern.

use vstd::prelude::*;

verus! {

/// The sign bit of the encoding.
pub const SIGN_BIT: u64 = 0x8000_0000_0000_0000;

/// The encoding of positive infinity; every larger magnitude is not a number.
pub const INFINITY_BITS: u64 = 0x7FF0_0000_0000_0000;

/// The encoding of `0.0`.
pub const ZERO_BITS: u64 = 0;

/// The encoding of `0.5`.
pub const HALF_BITS: u64 = 0x3FE0_0000_0000_0000;

/// The encoding of `1.0`.
pub const ONE_BITS: u64 = 0x3FF0_0000_0000_0000;

/// The encoding of `2.0`.
pub const TWO_BITS: u64 = 0x4000_0000_0000_0000;

/// The encoding of `5.0`.
pub const FIVE_BITS: u64 = 0x4014_0000_0000_0000;

/// The encoding of `0.001`.
pub const MILLI_BITS: u64 = 0x3F50_624D_D2F1_A9FC;

/// A double-precision number, held by its bit pattern. Equality of scalars is
/// equality of bit patterns; use [`Scalar::le`] and its siblings for the
/// order of the numbers.
#[derive(Clone, Copy, PartialEq, Eq, Structural, Debug)]
pub struct Scalar {
    pub bits: u64,
}

impl Scalar {
    /// The bit pattern without its sign bit.
    pub open spec fn magnitude(self) -> int {
        if self.bits >= SIGN_BIT {
            self.bits - SIGN_BIT
        } else {
            self.bits as int
        }
    }

    /// Whether the pattern encodes no number.
    pub open spec fn nan(self) -> bool {
        self.magnitude() > INFINITY_BITS
    }

    /// The place of the number on the line of integers that orders all
    /// encoded numbers as their values are ordered. Both zeros share place 0;
    /// the infinities take the two ends.
    pub open spec fn rank(self) -> int {
        if self.bits >= SIGN_BIT {
            -self.magnitude()
        } else {
            self.magnitude()
        }
    }

    /// `self <= other` as numbers; false when either is not a number.
    pub open spec fn spec_le(self, other: Scalar) -> bool {
        !self.nan() && !other.nan() && self.rank() <= other.rank()
    }

    /// `self < other` as numbers; false when either is not a number.
    pub open spec fn spec_lt(self, other: Scalar) -> bool {
        !self.nan() && !other.nan() && self.rank() < other.rank()
    }

    pub fn from_bits(bits: u64) -> (s: Scalar)
        ensures
            s.bits == bits,
    {
        Scalar { bits }
    }

    pub fn to_bits(self) -> (bits: u64)
        ensures
            bits == self.bits,
    {
        self.bits
    }

    pub fn is_nan(self) -> (b: bool)
        ensures
            b == self.nan(),
    {
        if self.bits >= SIGN_BIT {
            self.bits - SIGN_BIT > INFINITY_BITS
        } else {
            self.bits > INFINITY_BITS
        }
    }

    fn place(self) -> (r: i128)
        ensures
            r == self.rank(),
    {
        if self.bits >= SIGN_BIT {
            -((self.bits - SIGN_BIT) as i128)
        } else {
            self.bits as i128
        }
    }

    /// `self <= other` as numbers.
    #[verifier::when_used_as_spec(spec_le)]
    pub fn le(self, other: Scalar) -> (b: bool)
        ensures
            b == self.spec_le(other),
    {
        !self.is_nan() && !other.is_nan() && self.place() <= other.place()
    }

    /// `self < other` as numbers.
    #[verifier::when_used_as_spec(spec_lt)]
    pub fn lt(self, other: Scalar) -> (b: bool)
        ensures
            b == self.spec_lt(other),
    {
        !self.is_nan() && !other.is_nan() && self.place() < other.place()
    }

    /// `self >= other` as numbers.
    pub fn ge(self, other: Scalar) -> (b: bool)
        ensures
            b == other.spec_le(self),
    {
        other.le(self)
    }

    /// `self > other` as numbers.
    pub fn gt(self, other: Scalar) -> (b: bool)
        ensures
            b == other.spec_lt(self),
    {
        other.lt(self)
    }

    /// `self` raised to `lo` where it is less or no number, then lowered to
    /// `hi` where that is greater.
    pub open spec fn clamped(self, lo: Scalar, hi: Scalar) -> Scalar {
        let raised = if self.nan() || self.spec_lt(lo) {
            lo
        } else {
            self
        };
        if raised.nan() || hi.spec_lt(raised) {
            hi
        } else {
            raised
        }
    }

    /// Confines `self` to the range from `lo` to `hi`.
    pub fn clamp(self, lo: Scalar, hi: Scalar) -> (c: Scalar)
        ensures
            c == self.clamped(lo, hi),
    {
        let raised = if self.is_nan() || self.lt(lo) {
            lo
        } else {
            self
        };
        if raised.is_nan() || hi.lt(raised) {
            hi
        } else {
            raised
        }
    }
}

/// What is confined to a range lies in it, and what lies in it already is left as it is.
pub proof fn lemma_clamped(v: Scalar, lo: Scalar, hi: Scalar)
    requires
        lo.spec_le(hi),
    ensures
        lo.spec_le(v.clamped(lo, hi)),
        v.clamped(lo, hi).spec_le(hi),
        lo.spec_le(v) && v.spec_le(hi) ==> v.clamped(lo, hi) == v,
{
}

} // verus!
