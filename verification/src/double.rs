//! Double-precision numbers, carried as their bits.
//!
//! Nothing here computes with them: they are compared, bounded and passed
//! on. The order of doubles is the order of their magnitudes' bits, turned
//! round for negative ones; both zeros stand at the same place.

use vstd::prelude::*;

verus! {

pub const SIGN: u64 = 0x8000_0000_0000_0000;

/// The magnitude of infinity. What lies above it is not a number.
pub const INFINITY: u64 = 0x7FF0_0000_0000_0000;

/// A double by its bits.
#[derive(Clone, Copy, Debug, PartialEq, Eq, Structural)]
pub struct Double {
    pub bits: u64,
}

impl Double {
    pub open spec fn magnitude(self) -> u64 {
        if self.bits >= SIGN {
            (self.bits - SIGN) as u64
        } else {
            self.bits
        }
    }

    pub open spec fn nan(self) -> bool {
        self.magnitude() > INFINITY
    }

    /// The place in the order of doubles.
    pub open spec fn rank(self) -> int {
        if self.bits >= SIGN {
            -(self.magnitude() as int)
        } else {
            self.magnitude() as int
        }
    }

    /// The numeric `<`, which never holds of what is not a number.
    pub open spec fn less(self, other: Double) -> bool {
        !self.nan() && !other.nan() && self.rank() < other.rank()
    }

    /// The numeric `==`.
    pub open spec fn same(self, other: Double) -> bool {
        !self.nan() && !other.nan() && self.rank() == other.rank()
    }

    /// The number itself, or the bound that it lies beyond.
    pub open spec fn bounded(self, low: Double, high: Double) -> Double {
        if self.less(low) {
            low
        } else if high.less(self) {
            high
        } else {
            self
        }
    }

    pub fn is_nan(&self) -> (r: bool)
        ensures
            r == self.nan(),
    {
        if self.bits >= SIGN {
            self.bits - SIGN > INFINITY
        } else {
            self.bits > INFINITY
        }
    }

    fn place(&self) -> (r: i64)
        ensures
            r == self.rank(),
    {
        if self.bits >= SIGN {
            -((self.bits - SIGN) as i64)
        } else {
            self.bits as i64
        }
    }

    pub fn lt(&self, other: &Double) -> (r: bool)
        ensures
            r == self.less(*other),
    {
        !self.is_nan() && !other.is_nan() && self.place() < other.place()
    }

    pub fn num_eq(&self, other: &Double) -> (r: bool)
        ensures
            r == self.same(*other),
    {
        !self.is_nan() && !other.is_nan() && self.place() == other.place()
    }

    pub fn clamp(&self, low: Double, high: Double) -> (r: Double)
        ensures
            r == self.bounded(low, high),
    {
        if self.lt(&low) {
            low
        } else if high.lt(self) {
            high
        } else {
            *self
        }
    }
}

/// 0.
pub const ZERO_BITS: u64 = 0;

/// 70.
pub const SEVENTY_BITS: u64 = 0x4051_8000_0000_0000;

/// 100.
pub const HUNDRED_BITS: u64 = 0x4059_0000_0000_0000;

/// The volume nearest to `v` between 0 and 100.
pub open spec fn volume_bounded(v: Double) -> Double {
    v.bounded(Double { bits: ZERO_BITS }, Double { bits: HUNDRED_BITS })
}

/// Brings a volume between 0 and 100.
pub fn clamp_volume(v: Double) -> (r: Double)
    ensures
        r == volume_bounded(v),
{
    v.clamp(Double { bits: ZERO_BITS }, Double { bits: HUNDRED_BITS })
}

/// A bounded volume lies between the bounds, and bounding it again changes
/// nothing.
pub proof fn lemma_volume_is_bounded(v: Double)
    requires
        !v.nan(),
    ensures
        !volume_bounded(v).less(Double { bits: ZERO_BITS }),
        !(Double { bits: HUNDRED_BITS }).less(volume_bounded(v)),
        volume_bounded(volume_bounded(v)) == volume_bounded(v),
{
}

/// `less` is the order of numbers: strict, transitive, and total up to
/// `same`; the two zeros are the same, and what is not a number is neither
/// less than nor the same as anything.
pub proof fn lemma_doubles_are_ordered(a: Double, b: Double, c: Double)
    ensures
        !a.less(a),
        a.less(b) && b.less(c) ==> a.less(c),
        !a.nan() && !b.nan() ==> a.less(b) || b.less(a) || a.same(b),
        a.same(b) ==> b.same(a) && !a.less(b),
        a.nan() ==> !a.less(b) && !b.less(a) && !a.same(b),
        (Double { bits: 0 }).same(Double { bits: 0x8000_0000_0000_0000 }),
        (Double { bits: 0xBFF0_0000_0000_0000 }).less(Double { bits: 0 }),
        (Double { bits: 0 }).less(Double { bits: 0x3FF0_0000_0000_0000 }),
        (Double { bits: 0x3FF0_0000_0000_0000 }).less(Double { bits: 0x4000_0000_0000_0000 }),
        (Double { bits: 0xC000_0000_0000_0000 }).less(Double { bits: 0xBFF0_0000_0000_0000 }),
        (Double { bits: 0x7FF8_0000_0000_0000 }).nan(),
        !(Double { bits: 0x7FF0_0000_0000_0000 }).nan(),
        !(Double { bits: 0xFFF0_0000_0000_0000 }).nan(),
{
}

/// What lies between two bounds stays as it is, and what lies beyond one is
/// brought to it.
pub proof fn lemma_bounds_hold(v: Double, low: Double, high: Double)
    requires
        !high.less(low),
    ensures
        !v.less(low) && !high.less(v) ==> v.bounded(low, high) == v,
        v.less(low) ==> v.bounded(low, high) == low,
        high.less(v) ==> v.bounded(low, high) == high,
        volume_bounded(v) == v.bounded(
            Double { bits: 0 },
            Double { bits: 0x4059_0000_0000_0000 },
        ),
{
}

} // verus!
