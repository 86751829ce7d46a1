//! Strengths, weights, valences and similarities.
//!
//! A measure is an IEEE 754 binary64 number, held by its bit pattern. The vault compares and
//! orders measures; it does no arithmetic on them.
use vstd::prelude::*;

verus! {

/// A binary64 number, held by its bits.
#[derive(Debug, Clone, Copy, PartialEq, Eq, Structural)]
pub struct Measure {
    pub bits: u64,
}

/// The bits of 0.
pub const ZERO: u64 = 0;

/// The bits of one half.
pub const HALF: u64 = 0x3fe0_0000_0000_0000;

/// The bits of 1.
pub const ONE: u64 = 0x3ff0_0000_0000_0000;

impl Measure {
    /// Where the number stands among all binary64 numbers: larger numbers have larger ranks, and
    /// the two zeros share rank 0. Not-a-number patterns lie beyond the infinities.
    pub open spec fn rank(self) -> int {
        if self.bits < 0x8000_0000_0000_0000 {
            self.bits as int
        } else {
            0x8000_0000_0000_0000 - self.bits
        }
    }

    /// Whether the bits are no number.
    pub open spec fn nan(self) -> bool {
        self.rank() > 0x7ff0_0000_0000_0000 || self.rank() < -0x7ff0_0000_0000_0000
    }

    /// Whether this number is at least `other`; false when either is no number.
    pub open spec fn at_least(self, other: Measure) -> bool {
        !self.nan() && !other.nan() && self.rank() >= other.rank()
    }

    /// Whether this number is greater than `other`; false when either is no number.
    pub open spec fn exceeds(self, other: Measure) -> bool {
        !self.nan() && !other.nan() && self.rank() > other.rank()
    }

    /// The rank as a machine integer.
    pub fn position(self) -> (r: i64)
        ensures
            r == self.rank(),
    {
        if self.bits < 0x8000_0000_0000_0000 {
            self.bits as i64
        } else {
            let magnitude: u64 = self.bits - 0x8000_0000_0000_0000;
            -(magnitude as i64)
        }
    }

    /// Whether the bits are no number.
    pub fn is_nan(self) -> (r: bool)
        ensures
            r == self.nan(),
    {
        let p: i64 = self.position();
        p > 0x7ff0_0000_0000_0000 || p < -0x7ff0_0000_0000_0000
    }

    /// Whether this number is at least `other`; false when either is no number.
    pub fn ge(self, other: Measure) -> (r: bool)
        ensures
            r == self.at_least(other),
    {
        !self.is_nan() && !other.is_nan() && self.position() >= other.position()
    }

    /// Whether this number is greater than `other`; false when either is no number.
    pub fn gt(self, other: Measure) -> (r: bool)
        ensures
            r == self.exceeds(other),
    {
        !self.is_nan() && !other.is_nan() && self.position() > other.position()
    }
}

/// Two numbers are each at least the other only if they hold the same rank, so the order has no
/// ties between different numbers (the two zeros are one number).
pub proof fn law_order_is_antisymmetric(a: Measure, b: Measure)
    requires
        a.at_least(b),
        b.at_least(a),
    ensures
        a.rank() == b.rank(),
        a == b || (a.rank() == 0 && b.rank() == 0),
{
}

/// Ranks order numbers as their values do: of numbers of one sign by their bits, a negative number
/// never above a positive one, and a number of the other sign on the other side of zero.
pub proof fn law_ranks_order_numbers(a: Measure, b: Measure)
    ensures
        a.bits < 0x8000_0000_0000_0000 && b.bits < 0x8000_0000_0000_0000 ==> (a.rank() < b.rank()
            <==> a.bits < b.bits),
        a.bits >= 0x8000_0000_0000_0000 && b.bits >= 0x8000_0000_0000_0000 ==> (a.rank() < b.rank()
            <==> a.bits > b.bits),
        a.bits >= 0x8000_0000_0000_0000 && b.bits < 0x8000_0000_0000_0000 ==> a.rank() <= b.rank(),
        a.bits == b.bits + 0x8000_0000_0000_0000 ==> a.rank() == -b.rank(),
{
}

/// What is no number is neither at least nor above anything; of two numbers one is at least the
/// other, and the greater one exceeds the other.
pub proof fn law_numbers_are_compared(a: Measure, b: Measure)
    ensures
        a.nan() || b.nan() ==> !a.at_least(b) && !a.exceeds(b),
        !a.nan() && !b.nan() ==> a.at_least(b) || b.at_least(a),
        !a.nan() && !b.nan() ==> (a.exceeds(b) <==> !b.at_least(a)),
        a.nan() <==> a.bits > 0x7ff0_0000_0000_0000 && a.bits < 0x8000_0000_0000_0000 || a.bits
            > 0xfff0_0000_0000_0000,
{
}

} // verus!
