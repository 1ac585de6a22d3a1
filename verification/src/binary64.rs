//! IEEE 754 double-precision values, held as their bit patterns.
use crate::sorted_map::Duplicate;
use vstd::prelude::*;

verus! {

/// A double-precision value: the sign bit, eleven exponent bits, fifty-two fraction bits.
#[derive(Clone, Copy, Debug, PartialEq, Eq, Structural)]
pub struct Binary64 {
    pub bits: u64,
}

/// The sign bit.
pub const SIGN: u64 = 0x8000_0000_0000_0000;

/// The bits of positive infinity; a larger magnitude is not a number.
pub const INFINITY: u64 = 0x7ff0_0000_0000_0000;

/// The bits of one hundred.
pub const HUNDRED: u64 = 0x4059_0000_0000_0000;

/// The bits of one thousand.
pub const THOUSAND: u64 = 0x408f_4000_0000_0000;

/// The bits of one million.
pub const MILLION: u64 = 0x412e_8480_0000_0000;

/// The bits of one billion.
pub const BILLION: u64 = 0x41cd_cd65_0000_0000;

/// The bits of three hundred.
pub const THREE_HUNDRED: u64 = 0x4072_c000_0000_0000;

impl Binary64 {
    /// The bits without the sign.
    pub open spec fn magnitude(self) -> int {
        self.bits as int % SIGN as int
    }

    pub open spec fn is_negative(self) -> bool {
        self.bits >= SIGN
    }

    pub open spec fn finite(self) -> bool {
        self.magnitude() < INFINITY
    }

    pub open spec fn nan(self) -> bool {
        self.magnitude() > INFINITY
    }

    /// A number that orders values other than NaN; the two zeros have the same one.
    pub open spec fn order(self) -> int {
        if self.is_negative() {
            -self.magnitude()
        } else {
            self.magnitude()
        }
    }

    /// `self <= other`, false where either is NaN.
    pub open spec fn le(self, other: Binary64) -> bool {
        !self.nan() && !other.nan() && self.order() <= other.order()
    }

    /// `0 <= self <= 100`.
    pub open spec fn percent(self) -> bool {
        0 <= self.order() <= HUNDRED
    }

    /// Finite and at least zero.
    pub open spec fn non_negative(self) -> bool {
        self.finite() && self.order() >= 0
    }

    /// `-100 <= self <= 300`.
    pub open spec fn plausible_celsius(self) -> bool {
        -HUNDRED <= self.order() <= THREE_HUNDRED
    }

    pub fn from_bits(bits: u64) -> (value: Binary64)
        ensures
            value.bits == bits,
    {
        Binary64 { bits }
    }

    pub fn get_magnitude(self) -> (magnitude: u64)
        ensures
            magnitude == self.magnitude(),
    {
        self.bits % SIGN
    }

    pub fn is_finite(self) -> (finite: bool)
        ensures
            finite == self.finite(),
    {
        self.get_magnitude() < INFINITY
    }

    pub fn is_nan(self) -> (nan: bool)
        ensures
            nan == self.nan(),
    {
        self.get_magnitude() > INFINITY
    }

    pub fn get_order(self) -> (order: i64)
        ensures
            order == self.order(),
    {
        let magnitude: i64 = self.get_magnitude() as i64;
        if self.bits >= SIGN {
            -magnitude
        } else {
            magnitude
        }
    }

    pub fn at_most(self, other: Binary64) -> (holds: bool)
        ensures
            holds == self.le(other),
    {
        !self.is_nan() && !other.is_nan() && self.get_order() <= other.get_order()
    }

    pub fn is_percent(self) -> (holds: bool)
        ensures
            holds == self.percent(),
    {
        let order: i64 = self.get_order();
        0 <= order && order <= HUNDRED as i64
    }

    pub fn is_non_negative(self) -> (holds: bool)
        ensures
            holds == self.non_negative(),
    {
        self.is_finite() && self.get_order() >= 0
    }

    pub fn is_plausible_celsius(self) -> (holds: bool)
        ensures
            holds == self.plausible_celsius(),
    {
        let order: i64 = self.get_order();
        -(HUNDRED as i64) <= order && order <= THREE_HUNDRED as i64
    }
}

impl Duplicate for Binary64 {
    fn duplicate(&self) -> (copy: Self) {
        *self
    }
}

/// The larger of two values. One that is not a number counts for nothing beside one that is; of
/// two that are equal the first is taken.
pub open spec fn larger_of(a: Binary64, b: Binary64) -> Binary64 {
    if a.nan() || (!b.nan() && b.order() > a.order()) {
        b
    } else {
        a
    }
}

pub fn max_of(a: Binary64, b: Binary64) -> (larger: Binary64)
    ensures
        larger == larger_of(a, b),
{
    if a.is_nan() || (!b.is_nan() && b.get_order() > a.get_order()) {
        b
    } else {
        a
    }
}

/// The order in which every pattern of bits has its own place: negative values below positive
/// ones, NaN past infinity on the side of its sign.
pub open spec fn total_place(value: Binary64) -> int {
    if value.is_negative() {
        -1 - value.magnitude()
    } else {
        value.magnitude()
    }
}

/// The later of two values in the total order, the second where they share a place.
pub fn total_max(a: Binary64, b: Binary64) -> (larger: Binary64)
    ensures
        larger == if total_place(a) > total_place(b) {
            a
        } else {
            b
        },
{
    let left: i64 = if a.bits >= SIGN {
        -1 - a.get_magnitude() as i64
    } else {
        a.get_magnitude() as i64
    };
    let right: i64 = if b.bits >= SIGN {
        -1 - b.get_magnitude() as i64
    } else {
        b.get_magnitude() as i64
    };
    if left > right {
        a
    } else {
        b
    }
}

} // verus!
