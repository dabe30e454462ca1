//! Floating-point numbers held as their IEEE 754 bit patterns.
//!
//! The library never computes with a measured value: it stores it, looks for
//! gaps (NaN) and compares it. All of that is a matter of the bits.

use vstd::prelude::*;

verus! {

/// A single-precision number, by its bit pattern.
#[derive(Debug, Clone, Copy, PartialEq, Eq, Structural)]
pub struct F32 {
    pub bits: u32,
}

/// A double-precision number, by its bit pattern.
#[derive(Debug, Clone, Copy, PartialEq, Eq, Structural)]
pub struct F64 {
    pub bits: u64,
}

/// Bits of the quiet NaN that marks a gap in a plotted line.
pub const NAN_BITS: u32 = 0x7fc0_0000;

/// Bits of positive infinity.
pub const INFINITY_BITS: u32 = 0x7f80_0000;

/// Bits of negative infinity.
pub const NEG_INFINITY_BITS: u32 = 0xff80_0000;

impl F32 {
    /// The bits below the sign: larger for a number further from zero.
    pub open spec fn magnitude(self) -> int {
        self.bits as int % 0x8000_0000
    }

    /// Whether the number is not a number.
    pub open spec fn nan(self) -> bool {
        self.magnitude() > 0x7f80_0000
    }

    /// Whether the number is one of the two infinities.
    pub open spec fn infinite(self) -> bool {
        self.magnitude() == 0x7f80_0000
    }

    /// The place of the number among the others: both zeros have the same.
    pub open spec fn rank(self) -> int {
        if self.bits >= 0x8000_0000 {
            -self.magnitude()
        } else {
            self.magnitude()
        }
    }

    /// The order of the numbers; a NaN is neither below nor above anything.
    pub open spec fn below(self, other: F32) -> bool {
        &&& !self.nan()
        &&& !other.nan()
        &&& self.rank() < other.rank()
    }

    /// Whether the number is not a number.
    pub fn is_nan(self) -> (r: bool)
        ensures
            r == self.nan(),
    {
        self.bits % 0x8000_0000 > 0x7f80_0000
    }

    /// Whether the number is one of the two infinities.
    pub fn is_infinite(self) -> (r: bool)
        ensures
            r == self.infinite(),
    {
        self.bits % 0x8000_0000 == 0x7f80_0000
    }

    /// Whether the number is less than `other`.
    pub fn is_below(self, other: F32) -> (r: bool)
        ensures
            r == self.below(other),
    {
        if self.is_nan() || other.is_nan() {
            return false;
        }
        let a: u32 = self.bits % 0x8000_0000;
        let b: u32 = other.bits % 0x8000_0000;
        if self.bits >= 0x8000_0000 {
            if other.bits >= 0x8000_0000 {
                b < a
            } else {
                a > 0 || b > 0
            }
        } else if other.bits >= 0x8000_0000 {
            false
        } else {
            a < b
        }
    }
}

impl F64 {
    /// The bits below the sign: larger for a number further from zero.
    pub open spec fn magnitude(self) -> int {
        self.bits as int % 0x8000_0000_0000_0000
    }

    /// Whether the number is not a number.
    pub open spec fn nan(self) -> bool {
        self.magnitude() > 0x7ff0_0000_0000_0000
    }

    /// Whether the number is zero, of either sign, or less.
    pub open spec fn at_most_zero(self) -> bool {
        &&& !self.nan()
        &&& self.bits >= 0x8000_0000_0000_0000 || self.bits == 0
    }

    /// Whether the number is not a number.
    pub fn is_nan(self) -> (r: bool)
        ensures
            r == self.nan(),
    {
        self.bits % 0x8000_0000_0000_0000 > 0x7ff0_0000_0000_0000
    }

    /// Whether the number is zero, of either sign, or less.
    pub fn is_at_most_zero(self) -> (r: bool)
        ensures
            r == self.at_most_zero(),
    {
        !self.is_nan() && (self.bits >= 0x8000_0000_0000_0000 || self.bits == 0)
    }
}

/// Order law: nothing is below itself.
pub proof fn below_is_irreflexive(a: F32)
    ensures
        !a.below(a),
{
}

/// Order law: below is transitive.
pub proof fn below_is_transitive(a: F32, b: F32, c: F32)
    requires
        a.below(b),
        b.below(c),
    ensures
        a.below(c),
{
}

/// Order law: numbers are ordered as their bits tell. Above zero the larger bits
/// are the larger number, below zero the smaller one, every negative number is
/// below every positive one, and the two zeros are equal. A NaN is in no order.
pub proof fn order_follows_the_bits(a: F32, b: F32)
    ensures
        a.nan() <==> 0x7f80_0000 < a.bits <= 0x7fff_ffff || 0xff80_0000 < a.bits,
        a.infinite() <==> a.bits == 0x7f80_0000 || a.bits == 0xff80_0000,
        a.nan() || b.nan() ==> !a.below(b),
        !a.nan() && !b.nan() ==> {
            &&& a.bits < 0x8000_0000 && b.bits < 0x8000_0000 ==> (a.below(b) <==> a.bits < b.bits)
            &&& a.bits >= 0x8000_0000 && b.bits >= 0x8000_0000 ==> (a.below(b) <==> a.bits > b.bits)
            &&& a.bits >= 0x8000_0000 && b.bits < 0x8000_0000 ==> (a.below(b) <==> !(a.bits
                == 0x8000_0000 && b.bits == 0))
            &&& a.bits < 0x8000_0000 && b.bits >= 0x8000_0000 ==> !a.below(b)
        },
{
}

/// Order law: a number in double precision is zero or less exactly if it is a
/// zero or has its sign bit set; a NaN is not.
pub proof fn signs_follow_the_bits(a: F64)
    ensures
        a.nan() <==> 0x7ff0_0000_0000_0000 < a.bits <= 0x7fff_ffff_ffff_ffff
            || 0xfff0_0000_0000_0000 < a.bits,
        a.at_most_zero() <==> a.bits == 0 || 0x8000_0000_0000_0000 <= a.bits
            <= 0xfff0_0000_0000_0000,
{
}

} // verus!
