//! Single-precision numbers by their bit pattern, with the comparisons of
//! IEEE 754: a NaN is neither less than, greater than nor equal to anything,
//! and the two zeros are equal.

use vstd::prelude::*;

verus! {

/// The bit pattern of an IEEE 754 single-precision number.
#[derive(Clone, Copy, Debug, PartialEq, Eq, Hash, Structural)]
pub struct Scalar(pub u32);

/// Bits of the quiet NaN that stands for "no value".
pub const NAN_BITS: u32 = 0x7FC0_0000;

/// Bits of 0.
pub const ZERO_BITS: u32 = 0;

/// Bits of 1.
pub const ONE_BITS: u32 = 0x3F80_0000;

/// Bits of the least finite number.
pub const MIN_BITS: u32 = 0xFF7F_FFFF;

/// Bits of the greatest finite number.
pub const MAX_BITS: u32 = 0x7F7F_FFFF;

impl Scalar {
    /// Magnitude bits: exponent and fraction, without the sign.
    pub open spec fn magnitude(self) -> int {
        self.0 as int % 0x8000_0000
    }

    pub open spec fn nan(self) -> bool {
        self.magnitude() > 0x7F80_0000
    }

    /// Position of a number that is not a NaN in the order of the reals: the
    /// magnitude, negated where the sign bit is set. Both zeros stand at 0.
    pub open spec fn rank(self) -> int {
        if self.0 >= 0x8000_0000 {
            -self.magnitude()
        } else {
            self.magnitude()
        }
    }

    /// `self < other` of IEEE 754.
    pub open spec fn below(self, other: Scalar) -> bool {
        !self.nan() && !other.nan() && self.rank() < other.rank()
    }

    /// `self == other` of IEEE 754.
    pub open spec fn equals(self, other: Scalar) -> bool {
        !self.nan() && !other.nan() && self.rank() == other.rank()
    }

    /// `self > 0` of IEEE 754.
    pub open spec fn positive(self) -> bool {
        0 < self.0 <= 0x7F80_0000
    }

    /// The greater of two numbers; a NaN gives way to the other operand.
    pub open spec fn max_of(self, other: Scalar) -> Scalar {
        if self.nan() || self.below(other) {
            other
        } else {
            self
        }
    }

    /// The lesser of two numbers; a NaN gives way to the other operand.
    pub open spec fn min_of(self, other: Scalar) -> Scalar {
        if self.nan() || other.below(self) {
            other
        } else {
            self
        }
    }

    /// `self` held between `lo` and `hi`; a NaN stays a NaN.
    pub open spec fn clamped(self, lo: Scalar, hi: Scalar) -> Scalar {
        if self.below(lo) {
            lo
        } else if hi.below(self) {
            hi
        } else {
            self
        }
    }

    /// The number with its sign bit flipped.
    pub open spec fn negated(self) -> Scalar {
        Scalar(
            (if self.0 >= 0x8000_0000 {
                self.0 - 0x8000_0000
            } else {
                self.0 + 0x8000_0000
            }) as u32,
        )
    }

    pub fn is_nan(self) -> (r: bool)
        ensures
            r == self.nan(),
    {
        self.0 % 0x8000_0000 > 0x7F80_0000
    }

    fn key(self) -> (r: i64)
        ensures
            r == self.rank(),
    {
        let m: i64 = (self.0 % 0x8000_0000) as i64;
        if self.0 >= 0x8000_0000 {
            -m
        } else {
            m
        }
    }

    /// `self < other`; false where either is a NaN.
    pub fn lt(self, other: Scalar) -> (r: bool)
        ensures
            r == self.below(other),
    {
        !self.is_nan() && !other.is_nan() && self.key() < other.key()
    }

    /// `self == other`; false where either is a NaN, true of the two zeros.
    pub fn same(self, other: Scalar) -> (r: bool)
        ensures
            r == self.equals(other),
    {
        !self.is_nan() && !other.is_nan() && self.key() == other.key()
    }

    /// `self <= other`; false where either is a NaN.
    pub fn le(self, other: Scalar) -> (r: bool)
        ensures
            r == (self.below(other) || self.equals(other)),
    {
        !self.is_nan() && !other.is_nan() && self.key() <= other.key()
    }

    /// `self > 0`.
    pub fn is_positive(self) -> (r: bool)
        ensures
            r == self.positive(),
            r == Scalar(ZERO_BITS).below(self),
    {
        self.0 > 0 && self.0 <= 0x7F80_0000
    }

    pub fn max(self, other: Scalar) -> (r: Scalar)
        ensures
            r == self.max_of(other),
    {
        if self.is_nan() || self.lt(other) {
            other
        } else {
            self
        }
    }

    pub fn min(self, other: Scalar) -> (r: Scalar)
        ensures
            r == self.min_of(other),
    {
        if self.is_nan() || other.lt(self) {
            other
        } else {
            self
        }
    }

    /// Holds `self` between `lo` and `hi`, which are in order.
    pub fn clamp(self, lo: Scalar, hi: Scalar) -> (r: Scalar)
        requires
            lo.below(hi) || lo.equals(hi),
        ensures
            r == self.clamped(lo, hi),
    {
        if self.lt(lo) {
            lo
        } else if hi.lt(self) {
            hi
        } else {
            self
        }
    }

    /// `-self`.
    pub fn neg(self) -> (r: Scalar)
        ensures
            r == self.negated(),
    {
        if self.0 >= 0x8000_0000 {
            Scalar(self.0 - 0x8000_0000)
        } else {
            Scalar(self.0 + 0x8000_0000)
        }
    }
}

/// Negating twice gives the number back, bit for bit.
pub proof fn law_double_negation(x: Scalar)
    ensures
        x.negated().negated() == x,
{
}

/// A number held between two bounds lies between them, unless it is a NaN.
pub proof fn law_clamped_in_range(x: Scalar, lo: Scalar, hi: Scalar)
    requires
        lo.below(hi) || lo.equals(hi),
    ensures
        x.nan() ==> x.clamped(lo, hi) == x,
        !x.nan() ==> !x.clamped(lo, hi).below(lo) && !hi.below(x.clamped(lo, hi)),
{
}

/// Of two numbers that are not NaNs exactly one holds: the first is less, they
/// are equal, or the second is less. A NaN is in no such relation.
pub proof fn law_numbers_compare(x: Scalar, y: Scalar)
    ensures
        x.below(y) ==> !y.below(x) && !x.equals(y),
        x.equals(y) ==> y.equals(x) && !x.below(y) && !y.below(x),
        x.nan() || y.nan() <==> !(x.below(y) || x.equals(y) || y.below(x)),
        x.nan() <==> !x.equals(x),
{
}

/// Less-than is transitive, and equal numbers compare alike.
pub proof fn law_order_is_transitive(x: Scalar, y: Scalar, z: Scalar)
    ensures
        x.below(y) && y.below(z) ==> x.below(z),
        x.equals(y) && y.equals(z) ==> x.equals(z),
        x.equals(y) ==> (x.below(z) <==> y.below(z)) && (z.below(x) <==> z.below(y)),
{
}

/// The order by bits: positive numbers are ordered as their bits, negating
/// turns the order round, the two zeros are equal and below all that is
/// positive, and infinity, with the greatest bits of all numbers, is above
/// every other.
pub proof fn law_order_by_bits(x: Scalar, y: Scalar)
    ensures
        x.0 <= 0x7F80_0000 && y.0 <= 0x7F80_0000 ==> (x.below(y) <==> x.0 < y.0),
        x.below(y) <==> y.negated().below(x.negated()),
        Scalar(0).equals(Scalar(0x8000_0000)) && Scalar(0).negated() == Scalar(0x8000_0000),
        Scalar(0).below(x) <==> 0 < x.0 <= 0x7F80_0000,
        x.below(Scalar(0)) <==> 0x8000_0000 < x.0 <= 0xFF80_0000,
        x.nan() <==> 0x7F80_0000 < x.0 < 0x8000_0000 || 0xFF80_0000 < x.0,
        x.positive() <==> Scalar(0).below(x),
        x.negated() != x && x.negated().nan() == x.nan(),
{
}

/// The greater and the lesser of two numbers are the two numbers, in order;
/// beside a NaN both are the other one.
pub proof fn law_greater_and_lesser(x: Scalar, y: Scalar)
    ensures
        !x.nan() && !y.nan() ==> !x.max_of(y).below(x) && !x.max_of(y).below(y)
            && !x.below(x.min_of(y)) && !y.below(x.min_of(y)),
        x.max_of(y) == x || x.max_of(y) == y,
        x.min_of(y) == x || x.min_of(y) == y,
        x.nan() ==> x.max_of(y) == y && x.min_of(y) == y,
        y.nan() && !x.nan() ==> x.max_of(y) == x && x.min_of(y) == x,
{
}

/// A number that lies between two bounds is kept, one below them becomes the
/// lower bound, and one above them the upper.
pub proof fn law_clamped_to_the_nearest(x: Scalar, lo: Scalar, hi: Scalar)
    requires
        lo.below(hi) || lo.equals(hi),
    ensures
        !x.below(lo) && !hi.below(x) ==> x.clamped(lo, hi) == x,
        x.below(lo) ==> x.clamped(lo, hi) == lo,
        hi.below(x) ==> x.clamped(lo, hi) == hi,
{
}

/// The named patterns: 1 is above 0, the least and the greatest finite number
/// are each other's negation, next to the infinities, and the pattern for "no
/// value" is a NaN.
pub proof fn law_named_patterns()
    ensures
        ZERO_BITS == 0 && ONE_BITS == 0x3F80_0000,
        Scalar(NAN_BITS).nan() && NAN_BITS == 0x7FC0_0000,
        Scalar(MIN_BITS) == Scalar(MAX_BITS).negated(),
        MAX_BITS + 1 == 0x7F80_0000,
{
}

} // verus!
