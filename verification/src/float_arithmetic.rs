//! Sums, products and quotients of double-precision values that are not negative.
use crate::binary64::{Binary64, INFINITY, SIGN};
use vstd::arithmetic::power2::pow2;
use vstd::prelude::*;

verus! {

/// `n / d` rounded to the nearest integer, ties to the even one.
pub open spec fn round_div(n: nat, d: nat) -> nat {
    let low = n / d;
    let rest = n % d;
    if 2 * rest > d || (2 * rest == d && low % 2 == 1) {
        low + 1
    } else {
        low
    }
}

/// The bits of the value nearest to `n / d * 2^(exponent - 1074)`, ties to even: the denominator
/// is doubled while the quotient has more than fifty-three bits or the exponent is too small, the
/// numerator while it has fewer and the exponent leaves room.
pub open spec fn rounded_bits(n: nat, d: nat, exponent: int) -> int
    decreases
            (if exponent < 0 {
                2int
            } else if n >= 0x20_0000_0000_0000 * d {
                1
            } else {
                0
            }),
            (if exponent < 0 {
                -exponent
            } else if n >= 0x20_0000_0000_0000 * d {
                n - d
            } else {
                exponent
            }),
{
    if n == 0 || d == 0 {
        0
    } else if exponent < 0 {
        rounded_bits(n, 2 * d, exponent + 1)
    } else if n >= 0x20_0000_0000_0000 * d {
        rounded_bits(n, 2 * d, exponent + 1)
    } else if n < 0x10_0000_0000_0000 * d && exponent > 0 {
        rounded_bits(2 * n, d, exponent - 1)
    } else {
        let bits = exponent * 0x10_0000_0000_0000 + round_div(n, d);
        if bits < INFINITY {
            bits
        } else {
            INFINITY as int
        }
    }
}

/// Less than half a unit at the smallest exponent is rounded away.
proof fn lemma_vanishes(n: nat, d: nat, exponent: int)
    requires
        2 * n < d,
        exponent <= 0,
    ensures
        rounded_bits(n, d, exponent) == 0,
    decreases -exponent,
{
    if n > 0 {
        if exponent < 0 {
            lemma_vanishes(n, 2 * d, exponent + 1);
        } else {
            assert(n / d == 0 && n % d == n) by (nonlinear_arith)
                requires
                    0 <= n < d,
            ;
        }
    }
}

/// A quotient of fifty-three bits with a large exponent is past every finite value.
proof fn lemma_overflows(n: nat, d: nat, exponent: int)
    requires
        d > 0,
        n >= 0x10_0000_0000_0000 * d,
        exponent >= 2047,
    ensures
        rounded_bits(n, d, exponent) == INFINITY,
    decreases n - d,
{
    if n >= 0x20_0000_0000_0000 * d {
        lemma_overflows(n, 2 * d, exponent + 1);
    }
}

/// What `round_div` gives lies next to the quotient.
pub proof fn lemma_round_div_bound(n: nat, d: nat, limit: nat)
    requires
        d > 0,
        n < limit * d,
    ensures
        n / d < limit,
        n % d < d,
        round_div(n, d) <= limit,
{
    assert(n / d < limit) by (nonlinear_arith)
        requires
            d > 0,
            n < limit * d,
    ;
}

/// The value nearest to `n / d * 2^(exponent - 1074)`.
pub fn round_quotient(n: u128, d: u128, exponent: i64) -> (value: Binary64)
    requires
        0 < d <= 0x1_0000_0000_0000_0000,
        n < 0x40_0000_0000_0000_0000_0000_0000_0000,
        -4096 <= exponent <= 4096,
    ensures
        value.bits == rounded_bits(n as nat, d as nat, exponent as int),
        value.bits <= INFINITY,
{
    if n == 0 {
        return Binary64 { bits: 0 };
    }
    let mut top: u128 = n;
    let mut bottom: u128 = d;
    let mut power: i64 = exponent;
    while power < 0
        invariant
            0 < top < 0x40_0000_0000_0000_0000_0000_0000_0000,
            0 < bottom <= 0x100_0000_0000_0000_0000_0000_0000_0000,
            -4096 <= power <= 4096,
            exponent < 0 ==> power <= 0,
            exponent >= 0 ==> power >= 0,
            exponent >= 0 ==> bottom == d <= 0x1_0000_0000_0000_0000,
            rounded_bits(n as nat, d as nat, exponent as int) == rounded_bits(
                top as nat,
                bottom as nat,
                power as int,
            ),
        decreases -power,
    {
        if 2 * top < bottom {
            proof {
                lemma_vanishes(top as nat, bottom as nat, power as int);
            }
            return Binary64 { bits: 0 };
        }
        bottom = 2 * bottom;
        power = power + 1;
    }
    while power < 2047 && top / 0x20_0000_0000_0000 >= bottom
        invariant
            0 < top < 0x40_0000_0000_0000_0000_0000_0000_0000,
            0 < bottom <= 0x100_0000_0000_0000_0000_0000_0000_0000,
            power == 0 || bottom <= 0x10_0000_0000_0000_0000,
            0 <= power <= 4096,
            rounded_bits(n as nat, d as nat, exponent as int) == rounded_bits(
                top as nat,
                bottom as nat,
                power as int,
            ),
        decreases top - bottom,
    {
        bottom = 2 * bottom;
        power = power + 1;
    }
    while power > 0 && top / 0x10_0000_0000_0000 < bottom
        invariant
            0 < top < 0x4000_0000_0000_0000_0000_0000_0000_0000,
            0 < bottom <= 0x100_0000_0000_0000_0000_0000_0000_0000,
            power == 0 || bottom <= 0x10_0000_0000_0000_0000,
            power < 2047 ==> top / 0x20_0000_0000_0000 < bottom,
            0 <= power <= 4096,
            rounded_bits(n as nat, d as nat, exponent as int) == rounded_bits(
                top as nat,
                bottom as nat,
                power as int,
            ),
        decreases power,
    {
        top = 2 * top;
        power = power - 1;
    }
    if power >= 2047 {
        proof {
            lemma_overflows(top as nat, bottom as nat, power as int);
        }
        return Binary64 { bits: INFINITY };
    }
    let low: u128 = top / bottom;
    let over: u128 = top % bottom;
    proof {
        lemma_round_div_bound(top as nat, bottom as nat, 0x20_0000_0000_0000);
    }
    let significand: u128 = if over > bottom - over || (over == bottom - over && low % 2 == 1) {
        low + 1
    } else {
        low
    };
    assert(significand == round_div(top as nat, bottom as nat));
    let bits: u64 = power as u64 * 0x10_0000_0000_0000 + significand as u64;
    if bits < INFINITY {
        Binary64 { bits }
    } else {
        Binary64 { bits: INFINITY }
    }
}

/// The bits of the double-precision value nearest to the quotient of two integers, ties to even.
pub open spec fn ratio_bits(n: nat, d: nat) -> int {
    rounded_bits(n, d, 1074)
}

/// The bits of the double-precision value nearest to an integer, ties to even.
pub open spec fn nearest_bits(n: nat) -> int {
    rounded_bits(n, 1, 1074)
}

/// A quotient of moderate size has a nearest value of moderate size.
pub proof fn lemma_bits_bound(n: nat, d: nat, exponent: int, room: nat)
    requires
        d > 0,
        room <= 2040,
        exponent + room <= 2040,
        n < 0x20_0000_0000_0000 * d * pow2(room),
    ensures
        0 <= rounded_bits(n, d, exponent) < INFINITY,
        exponent >= 0 ==> rounded_bits(n, d, exponent) <= (exponent + room + 2)
            * 0x10_0000_0000_0000,
    decreases
            (if exponent < 0 {
                -exponent
            } else {
                0
            }),
            room,
            exponent,
{
    vstd::arithmetic::power2::lemma2_to64();
    vstd::arithmetic::power2::lemma_pow2_pos(room);
    let p = pow2(room);
    if n == 0 {
    } else if exponent < 0 {
        assert(0x20_0000_0000_0000 * d * p <= 0x20_0000_0000_0000 * (2 * d) * p)
            by (nonlinear_arith)
            requires
                d > 0,
                p > 0,
        ;
        lemma_bits_bound(n, 2 * d, exponent + 1, room);
    } else if n >= 0x20_0000_0000_0000 * d {
        if room == 0 {
            assert(0x20_0000_0000_0000 * d * 1 == 0x20_0000_0000_0000 * d);
        } else {
            vstd::arithmetic::power2::lemma_pow2_unfold(room);
            let q = pow2((room - 1) as nat);
            assert(0x20_0000_0000_0000 * (2 * d) * q == 0x20_0000_0000_0000 * d * p)
                by (nonlinear_arith)
                requires
                    p == 2 * q,
            ;
            lemma_bits_bound(n, 2 * d, exponent + 1, (room - 1) as nat);
        }
    } else if n < 0x10_0000_0000_0000 * d && exponent > 0 {
        assert(2 * n < 0x20_0000_0000_0000 * d * 1);
        lemma_bits_bound(2 * n, d, exponent - 1, 0);
    } else {
        lemma_round_div_bound(n, d, 0x20_0000_0000_0000);
    }
}

/// The value nearest to an unsigned integer is of moderate size.
pub proof fn lemma_integer_bound(n: nat)
    requires
        n < 0x1_0000_0000_0000_0000_0000_0000,
    ensures
        0 <= nearest_bits(n) <= 1119 * 0x10_0000_0000_0000,
{
    vstd::arithmetic::power2::lemma2_to64_rest();
    vstd::arithmetic::power2::lemma2_to64();
    lemma_bits_bound(n, 1, 1074, 43);
}

/// The quotient of two values whose exponents are not too far apart is finite.
pub proof fn lemma_quotient_finite(a: Binary64, b: Binary64)
    requires
        a.bits < INFINITY,
        0 < b.bits < INFINITY,
        a.exponent() - b.exponent() <= 900,
    ensures
        a.over(b).bits < INFINITY,
{
    vstd::arithmetic::power2::lemma2_to64();
    let d = b.significand();
    assert(d > 0);
    assert(a.significand() < 0x20_0000_0000_0000 * d * pow2(0)) by (nonlinear_arith)
        requires
            a.significand() < 0x20_0000_0000_0000,
            d >= 1,
            pow2(0) == 1,
    ;
    lemma_bits_bound(a.significand(), d, a.exponent() - b.exponent() + 1074, 0);
}

/// What is at least half a unit of the smallest value is not rounded away, and a significand of a
/// larger exponent neither.
proof fn lemma_stays_positive(n: nat, d: nat, exponent: int)
    requires
        d > 0,
        exponent >= 0,
        n >= d,
    ensures
        rounded_bits(n, d, exponent) > 0,
    decreases
            (if n >= 0x20_0000_0000_0000 * d {
                1int
            } else {
                0
            }),
            (if n >= 0x20_0000_0000_0000 * d {
                n - d
            } else {
                exponent
            }),
{
    if n >= 0x20_0000_0000_0000 * d {
        lemma_stays_positive(n, 2 * d, exponent + 1);
    } else if n < 0x10_0000_0000_0000 * d && exponent > 0 {
        lemma_stays_positive(2 * n, d, exponent - 1);
    } else {
        assert(n / d >= 1) by (nonlinear_arith)
            requires
                n >= d,
                d > 0,
        ;
        assert(exponent * 0x10_0000_0000_0000 >= 0);
    }
}

/// The sum of two values is above zero where one of them is.
pub proof fn lemma_sum_positive(a: Binary64, b: Binary64)
    requires
        a.countable(),
        b.countable(),
        a.bits > 0 || b.bits > 0,
    ensures
        a.plus(b).bits > 0,
        a.plus(b).countable(),
{
    if a.bits < INFINITY && b.bits < INFINITY {
        if a.exponent() <= b.exponent() {
            lemma_aligned_sum_positive(a, b);
        } else {
            lemma_aligned_sum_positive(b, a);
        }
    }
}

proof fn lemma_aligned_sum_positive(a: Binary64, b: Binary64)
    requires
        a.bits < INFINITY,
        b.bits < INFINITY,
        a.bits > 0 || b.bits > 0,
        a.exponent() <= b.exponent(),
    ensures
        0 < aligned_sum(a, b) <= INFINITY,
{
    let gap = (b.exponent() - a.exponent()) as nat;
    vstd::arithmetic::power2::lemma_pow2_pos(gap);
    let p = pow2(gap);
    assert(b.significand() * p >= b.significand()) by (nonlinear_arith)
        requires
            p >= 1,
            b.significand() >= 0,
    ;
    let n = a.significand() + b.significand() * p;
    lemma_stays_positive(n, 1, a.exponent());
    crate::float_order::lemma_not_negative(n, 1, a.exponent());
}

/// The quotient of a normal value is above zero where the exponents are not too far apart.
pub proof fn lemma_quotient_positive(a: Binary64, b: Binary64)
    requires
        0x10_0000_0000_0000 <= a.bits < INFINITY,
        0 < b.bits < INFINITY,
        a.exponent() - b.exponent() + 1074 > 0,
    ensures
        a.over(b).bits > 0,
        a.over(b).countable(),
{
    let n = a.significand();
    let d = b.significand();
    let e = a.exponent() - b.exponent() + 1074;
    crate::float_order::lemma_not_negative(n, d, e);
    if n >= d {
        lemma_stays_positive(n, d, e);
    } else {
        assert(n < 0x10_0000_0000_0000 * d);
        assert(rounded_bits(n, d, e) == rounded_bits(2 * n, d, e - 1));
        lemma_stays_positive(2 * n, d, e - 1);
    }
}

/// An integer above zero has a nearest value above zero.
pub proof fn lemma_integer_positive(n: nat)
    requires
        n > 0,
    ensures
        nearest_bits(n) > 0,
{
    lemma_stays_positive(n, 1, 1074);
}

impl Binary64 {
    /// The value nearest to an unsigned integer.
    pub fn from_u64(n: u64) -> (value: Binary64)
        ensures
            value.bits == nearest_bits(n as nat),
            value.bits < INFINITY,
            value.non_negative(),
    {
        proof {
            lemma_integer_bound(n as nat);
        }
        round_quotient(n as u128, 1, 1074)
    }

    /// The value nearest to the quotient of two integers.
    pub fn from_ratio(n: u128, d: u64) -> (value: Binary64)
        requires
            d > 0,
            n < 0x40_0000_0000_0000_0000_0000_0000_0000,
        ensures
            value.bits == ratio_bits(n as nat, d as nat),
            value.bits < INFINITY,
            value.non_negative(),
    {
        proof {
            vstd::arithmetic::power2::lemma2_to64_rest();
            vstd::arithmetic::power2::lemma2_to64();
            vstd::arithmetic::power2::lemma_pow2_adds(32, 33);
            assert(n < 0x20_0000_0000_0000 * d * pow2(65)) by (nonlinear_arith)
                requires
                    n < 0x40_0000_0000_0000_0000_0000_0000_0000,
                    d >= 1,
                    pow2(65) == 0x2_0000_0000_0000_0000,
            ;
            lemma_bits_bound(n as nat, d as nat, 1074, 65);
        }
        round_quotient(n, d as u128, 1074)
    }
}

impl Binary64 {
    /// The bits of the significand, with the leading one of a normal value.
    pub open spec fn significand(self) -> nat {
        if self.bits < 0x10_0000_0000_0000 {
            self.bits as nat
        } else {
            (0x10_0000_0000_0000 + self.bits % 0x10_0000_0000_0000) as nat
        }
    }

    /// The power of two, counted from the smallest value, that the significand is taken times.
    pub open spec fn exponent(self) -> int {
        if self.bits < 0x10_0000_0000_0000 {
            0
        } else {
            self.bits as int / 0x10_0000_0000_0000 - 1
        }
    }

    fn get_significand(self) -> (significand: u64)
        ensures
            significand == self.significand(),
            significand < 0x20_0000_0000_0000,
    {
        if self.bits < 0x10_0000_0000_0000 {
            self.bits
        } else {
            0x10_0000_0000_0000 + self.bits % 0x10_0000_0000_0000
        }
    }

    fn get_exponent(self) -> (exponent: i64)
        requires
            self.bits <= INFINITY,
        ensures
            exponent == self.exponent(),
            0 <= exponent <= 2046,
    {
        if self.bits < 0x10_0000_0000_0000 {
            0
        } else {
            (self.bits / 0x10_0000_0000_0000) as i64 - 1
        }
    }

    /// Zero, positive or infinite.
    pub open spec fn countable(self) -> bool {
        self.bits <= INFINITY
    }

    /// The sum of two values that are not negative.
    pub open spec fn plus(self, other: Binary64) -> Binary64 {
        if self.bits == INFINITY || other.bits == INFINITY {
            Binary64 { bits: INFINITY }
        } else if self.exponent() <= other.exponent() {
            Binary64 { bits: aligned_sum(self, other) as u64 }
        } else {
            Binary64 { bits: aligned_sum(other, self) as u64 }
        }
    }

    /// The product of two values that are not negative; it is no number where one is zero and the
    /// other infinite.
    pub open spec fn times(self, other: Binary64) -> Binary64 {
        if self.bits == INFINITY || other.bits == INFINITY {
            Binary64 { bits: INFINITY }
        } else {
            Binary64 {
                bits: rounded_bits(
                    self.significand() * other.significand(),
                    1,
                    self.exponent() + other.exponent() - 1074,
                ) as u64,
            }
        }
    }

    /// The quotient of a value that is not negative by a value above zero; it is no number where
    /// both are infinite.
    pub open spec fn over(self, other: Binary64) -> Binary64 {
        if self.bits == INFINITY {
            self
        } else if other.bits == INFINITY {
            Binary64 { bits: 0 }
        } else {
            Binary64 {
                bits: rounded_bits(
                    self.significand(),
                    other.significand(),
                    self.exponent() - other.exponent() + 1074,
                ) as u64,
            }
        }
    }

    /// The sum, rounded to the nearest value.
    pub fn sum_with(self, other: Binary64) -> (sum: Binary64)
        requires
            self.countable(),
            other.countable(),
        ensures
            sum == self.plus(other),
            sum.countable(),
    {
        if self.bits == INFINITY || other.bits == INFINITY {
            return Binary64 { bits: INFINITY };
        }
        if self.get_exponent() <= other.get_exponent() {
            sum_aligned(self, other)
        } else {
            sum_aligned(other, self)
        }
    }

    /// The product, rounded to the nearest value.
    pub fn product_with(self, other: Binary64) -> (product: Binary64)
        requires
            self.countable(),
            other.countable(),
            !(self.bits == 0 && other.bits == INFINITY),
            !(self.bits == INFINITY && other.bits == 0),
        ensures
            product == self.times(other),
            product.countable(),
    {
        if self.bits == INFINITY || other.bits == INFINITY {
            return Binary64 { bits: INFINITY };
        }
        let a: u128 = self.get_significand() as u128;
        let b: u128 = other.get_significand() as u128;
        assert(a * b < 0x20_0000_0000_0000 * 0x20_0000_0000_0000) by (nonlinear_arith)
            requires
                a < 0x20_0000_0000_0000,
                b < 0x20_0000_0000_0000,
        ;
        round_quotient(a * b, 1, self.get_exponent() + other.get_exponent() - 1074)
    }

    /// The quotient, rounded to the nearest value.
    pub fn quotient_by(self, other: Binary64) -> (quotient: Binary64)
        requires
            self.countable(),
            other.countable(),
            other.bits > 0,
            !(self.bits == INFINITY && other.bits == INFINITY),
        ensures
            quotient == self.over(other),
            quotient.countable(),
    {
        if self.bits == INFINITY {
            return self;
        }
        if other.bits == INFINITY {
            return Binary64 { bits: 0 };
        }
        round_quotient(
            self.get_significand() as u128,
            other.get_significand() as u128,
            self.get_exponent() - other.get_exponent() + 1074,
        )
    }
}

/// The bits of the sum of two finite values, the first of which has the smaller exponent.
pub open spec fn aligned_sum(a: Binary64, b: Binary64) -> int {
    rounded_bits(
        a.significand() + b.significand() * pow2((b.exponent() - a.exponent()) as nat),
        1,
        a.exponent(),
    )
}

/// A sum whose larger part is far above the smaller one is that part.
pub proof fn lemma_small_part_vanishes(a: nat, b: nat, gap: nat, exponent: int, step: nat)
    requires
        a < 0x20_0000_0000_0000,
        0x10_0000_0000_0000 <= b < 0x20_0000_0000_0000,
        a == 0 || gap >= 60,
        exponent >= 0,
        step <= gap,
        (exponent + gap) * 0x10_0000_0000_0000 + b < INFINITY,
    ensures
        rounded_bits(a + b * pow2(gap), pow2(step), exponent + step) == (exponent + gap)
            * 0x10_0000_0000_0000 + b,
    decreases gap - step,
{
    let unit = pow2(step);
    let whole = pow2(gap);
    let n = a + b * whole;
    vstd::arithmetic::power2::lemma_pow2_pos(step);
    vstd::arithmetic::power2::lemma_pow2_pos(gap);
    vstd::arithmetic::power2::lemma2_to64();
    vstd::arithmetic::power2::lemma2_to64_rest();
    if gap > 60 {
        vstd::arithmetic::power2::lemma_pow2_strictly_increases(60, gap);
    }
    assert(0x10_0000_0000_0000 * whole <= b * whole <= 0x1f_ffff_ffff_ffff * whole)
        by (nonlinear_arith)
        requires
            0x10_0000_0000_0000 <= b <= 0x1f_ffff_ffff_ffff,
            whole > 0,
    ;
    if step < gap {
        vstd::arithmetic::power2::lemma_pow2_unfold(step + 1);
        if step + 1 < gap {
            vstd::arithmetic::power2::lemma_pow2_strictly_increases(step + 1, gap);
        }
        assert(n >= 0x20_0000_0000_0000 * unit);
        lemma_small_part_vanishes(a, b, gap, exponent, step + 1);
    } else {
        vstd::arithmetic::div_mod::lemma_fundamental_div_mod_converse(
            n as int,
            whole as int,
            b as int,
            a as int,
        );
        assert(round_div(n, whole) == b);
    }
}

fn sum_aligned(a: Binary64, b: Binary64) -> (sum: Binary64)
    requires
        a.bits < INFINITY,
        b.bits < INFINITY,
        a.exponent() <= b.exponent(),
    ensures
        sum.bits == aligned_sum(a, b),
        sum.countable(),
{
    let gap: i64 = b.get_exponent() - a.get_exponent();
    if gap > 60 {
        proof {
            vstd::arithmetic::power2::lemma2_to64();
            lemma_small_part_vanishes(
                a.significand(),
                b.significand(),
                gap as nat,
                a.exponent(),
                0,
            );
        }
        return b;
    }
    let mut large: u128 = b.get_significand() as u128;
    let mut left: i64 = gap;
    proof {
        vstd::arithmetic::power2::lemma2_to64();
        assert(large * pow2(0) == large) by (nonlinear_arith)
            requires
                pow2(0) == 1,
        ;
    }
    while left > 0
        invariant
            0 <= left <= gap <= 60,
            large == b.significand() * pow2((gap - left) as nat),
            b.significand() < 0x20_0000_0000_0000,
        decreases left,
    {
        proof {
            lemma_shift_step(b.significand(), (gap - left) as nat);
        }
        large = 2 * large;
        left = left - 1;
    }
    proof {
        lemma_shift_bound(b.significand(), gap as nat);
    }
    round_quotient(a.get_significand() as u128 + large, 1, a.get_exponent())
}

proof fn lemma_shift_step(n: nat, shift: nat)
    requires
        n < 0x20_0000_0000_0000,
        shift < 60,
    ensures
        2 * (n * pow2(shift)) == n * pow2(shift + 1),
        n * pow2(shift) < 0x20_0000_0000_0000_0000_0000_0000_0000,
{
    lemma_shift_bound(n, shift);
    vstd::arithmetic::power2::lemma_pow2_unfold(shift + 1);
    let p = pow2(shift);
    let q = pow2(shift + 1);
    assert(2 * (n * p) == n * q) by (nonlinear_arith)
        requires
            q == 2 * p,
    ;
}

proof fn lemma_shift_bound(n: nat, shift: nat)
    requires
        n < 0x20_0000_0000_0000,
        shift <= 60,
    ensures
        n * pow2(shift) < 0x20_0000_0000_0000_0000_0000_0000_0000,
{
    vstd::arithmetic::power2::lemma2_to64();
    vstd::arithmetic::power2::lemma2_to64_rest();
    if shift < 60 {
        vstd::arithmetic::power2::lemma_pow2_strictly_increases(shift, 60);
    }
    let p = pow2(shift);
    assert(n * p <= 0x20_0000_0000_0000 * 0x1000_0000_0000_0000) by (nonlinear_arith)
        requires
            n < 0x20_0000_0000_0000,
            p <= 0x1000_0000_0000_0000,
    ;
}

impl Binary64 {
    /// The value without its sign.
    pub open spec fn unsigned(self) -> Binary64 {
        Binary64 { bits: self.magnitude() as u64 }
    }

    /// A value that is not negative, with the sign of another one.
    pub open spec fn with_sign_of(self, other: Binary64) -> Binary64 {
        if other.is_negative() {
            Binary64 { bits: (self.bits + SIGN) as u64 }
        } else {
            self
        }
    }

    /// The quotient of a value by a value above zero.
    pub open spec fn divided_by(self, divisor: Binary64) -> Binary64 {
        self.unsigned().over(divisor).with_sign_of(self)
    }

    /// The product of a value with a value above zero.
    pub open spec fn multiplied_with(self, factor: Binary64) -> Binary64 {
        self.unsigned().times(factor).with_sign_of(self)
    }

    fn signed_as(self, other: Binary64) -> (signed: Binary64)
        requires
            self.countable(),
        ensures
            signed == self.with_sign_of(other),
    {
        if other.bits >= SIGN {
            Binary64 { bits: self.bits + SIGN }
        } else {
            self
        }
    }

    /// The quotient of a finite value, rounded to the nearest value.
    pub fn divide(self, divisor: Binary64) -> (quotient: Binary64)
        requires
            self.finite(),
            0 < divisor.bits < INFINITY,
        ensures
            quotient == self.divided_by(divisor),
            quotient.magnitude() <= INFINITY,
    {
        let magnitude = Binary64 { bits: self.get_magnitude() };
        magnitude.quotient_by(divisor).signed_as(self)
    }

    /// The product of a value that is a number, rounded to the nearest value.
    pub fn multiply(self, factor: Binary64) -> (product: Binary64)
        requires
            self.magnitude() <= INFINITY,
            0 < factor.bits < INFINITY,
        ensures
            product == self.multiplied_with(factor),
            product.magnitude() <= INFINITY,
    {
        let magnitude = Binary64 { bits: self.get_magnitude() };
        magnitude.product_with(factor).signed_as(self)
    }
}

} // verus!
