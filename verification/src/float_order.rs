//! Rounding keeps the order of values, and depends on nothing but the value.
use crate::binary64::{Binary64, INFINITY};
use crate::float_arithmetic::{lemma_round_div_bound, round_div, rounded_bits};
use vstd::arithmetic::power2::pow2;
use vstd::prelude::*;

verus! {

/// The lesser of a number and the bits of infinity.
pub open spec fn at_most_infinity(bits: int) -> int {
    if bits < INFINITY {
        bits
    } else {
        INFINITY as int
    }
}

pub proof fn lemma_not_negative(n: nat, d: nat, exponent: int)
    ensures
        0 <= rounded_bits(n, d, exponent) <= INFINITY,
    decreases
            (if exponent < 0 {
                2int
            } else if n >= 0x20_0000_0000_0000 * d {
                1
            } else {
                0
            }),
            (if exponent < 0 {
                -exponent
            } else if n >= 0x20_0000_0000_0000 * d {
                n - d
            } else {
                exponent
            }),
{
    if n == 0 || d == 0 {
    } else if exponent < 0 {
        lemma_not_negative(n, 2 * d, exponent + 1);
    } else if n >= 0x20_0000_0000_0000 * d {
        lemma_not_negative(n, 2 * d, exponent + 1);
    } else if n < 0x10_0000_0000_0000 * d && exponent > 0 {
        lemma_not_negative(2 * n, d, exponent - 1);
    } else {
        assert(n / d >= 0) by (nonlinear_arith)
            requires
                d > 0,
                n >= 0,
        ;
        assert(exponent * 0x10_0000_0000_0000 >= 0);
    }
}

/// A quotient below fifty-four bits is at most twice the least value of its exponent.
proof fn lemma_upper(n: nat, d: nat, exponent: int)
    requires
        d > 0,
        exponent >= 0,
        n < 0x20_0000_0000_0000 * d,
    ensures
        rounded_bits(n, d, exponent) <= (exponent + 2) * 0x10_0000_0000_0000,
    decreases exponent,
{
    if n == 0 {
    } else if n < 0x10_0000_0000_0000 * d && exponent > 0 {
        lemma_upper(2 * n, d, exponent - 1);
    } else {
        lemma_round_div_bound(n, d, 0x20_0000_0000_0000);
    }
}

/// A quotient of at least `2^room` has at least the bits of that power of two.
pub proof fn lemma_lower(n: nat, d: nat, exponent: int, room: nat)
    requires
        d > 0,
        exponent >= 0,
        room <= 52,
        exponent + room >= 52,
        n >= d * pow2(room),
    ensures
        rounded_bits(n, d, exponent) >= at_most_infinity(
            (exponent + room - 51) * 0x10_0000_0000_0000,
        ),
    decreases
            (if n >= 0x20_0000_0000_0000 * d {
                1int
            } else {
                0
            }),
            (if n >= 0x20_0000_0000_0000 * d {
                n - d
            } else {
                exponent
            }),
{
    vstd::arithmetic::power2::lemma2_to64();
    vstd::arithmetic::power2::lemma2_to64_rest();
    vstd::arithmetic::power2::lemma_pow2_pos(room);
    let p = pow2(room);
    assert(d * p >= d) by (nonlinear_arith)
        requires
            d > 0,
            p > 0,
    ;
    if n >= 0x20_0000_0000_0000 * d {
        if room == 0 {
            lemma_lower(n, 2 * d, exponent + 1, 0);
        } else {
            vstd::arithmetic::power2::lemma_pow2_unfold(room);
            let q = pow2((room - 1) as nat);
            assert((2 * d) * q == d * p) by (nonlinear_arith)
                requires
                    p == 2 * q,
            ;
            lemma_lower(n, 2 * d, exponent + 1, (room - 1) as nat);
        }
    } else if n < 0x10_0000_0000_0000 * d && exponent > 0 {
        if room == 52 {
            assert(d * p == 0x10_0000_0000_0000 * d) by (nonlinear_arith)
                requires
                    p == 0x10_0000_0000_0000,
            ;
        } else {
            vstd::arithmetic::power2::lemma_pow2_unfold(room + 1);
            let q = pow2(room + 1);
            assert(d * q == 2 * (d * p)) by (nonlinear_arith)
                requires
                    q == 2 * p,
            ;
            lemma_lower(2 * n, d, exponent - 1, room + 1);
        }
    } else {
        if n < 0x10_0000_0000_0000 * d {
            assert(room == 52);
            assert(d * p == 0x10_0000_0000_0000 * d) by (nonlinear_arith)
                requires
                    p == 0x10_0000_0000_0000,
            ;
        }
        assert(n / d >= 0x10_0000_0000_0000) by (nonlinear_arith)
            requires
                n >= 0x10_0000_0000_0000 * d,
                d > 0,
        ;
    }
}

proof fn lemma_round_div_monotone(a: nat, b: nat, d: nat)
    requires
        a <= b,
        d > 0,
    ensures
        round_div(a, d) <= round_div(b, d),
{
    let low = a / d;
    let high = b / d;
    vstd::arithmetic::div_mod::lemma_fundamental_div_mod(a as int, d as int);
    vstd::arithmetic::div_mod::lemma_fundamental_div_mod(b as int, d as int);
    vstd::arithmetic::div_mod::lemma_div_is_ordered(a as int, b as int, d as int);
    if low == high {
        assert(d * low == d * high);
    }
}

/// A larger numerator has no smaller nearest value.
pub proof fn lemma_monotone(a: nat, b: nat, d: nat, exponent: int)
    requires
        a <= b,
        d > 0,
    ensures
        rounded_bits(a, d, exponent) <= rounded_bits(b, d, exponent),
    decreases
            (if exponent < 0 {
                2int
            } else if b >= 0x20_0000_0000_0000 * d {
                1
            } else {
                0
            }),
            (if exponent < 0 {
                -exponent
            } else if b >= 0x20_0000_0000_0000 * d {
                b - d
            } else {
                exponent
            }),
{
    vstd::arithmetic::power2::lemma2_to64();
    vstd::arithmetic::power2::lemma2_to64_rest();
    lemma_not_negative(b, d, exponent);
    lemma_not_negative(a, d, exponent);
    if a == 0 {
    } else if exponent < 0 {
        lemma_monotone(a, b, 2 * d, exponent + 1);
    } else if b >= 0x20_0000_0000_0000 * d {
        if a >= 0x20_0000_0000_0000 * d {
            lemma_monotone(a, b, 2 * d, exponent + 1);
        } else {
            lemma_upper(a, d, exponent);
            assert(b >= (2 * d) * pow2(52)) by (nonlinear_arith)
                requires
                    b >= 0x20_0000_0000_0000 * d,
                    pow2(52) == 0x10_0000_0000_0000,
            ;
            lemma_lower(b, 2 * d, exponent + 1, 52);
        }
    } else if b < 0x10_0000_0000_0000 * d && exponent > 0 {
        lemma_monotone(2 * a, 2 * b, d, exponent - 1);
    } else if a < 0x10_0000_0000_0000 * d && exponent > 0 {
        lemma_upper(2 * a, d, exponent - 1);
        assert(b >= d * pow2(52)) by (nonlinear_arith)
            requires
                b >= 0x10_0000_0000_0000 * d,
                pow2(52) == 0x10_0000_0000_0000,
        ;
        lemma_lower(b, d, exponent, 52);
    } else {
        lemma_round_div_monotone(a, b, d);
    }
}

proof fn lemma_round_div_common(n: nat, d: nat)
    requires
        d > 0,
    ensures
        round_div(2 * n, 2 * d) == round_div(n, d),
{
    vstd::arithmetic::div_mod::lemma_fundamental_div_mod(n as int, d as int);
    let q = n as int / d as int;
    let r = n as int % d as int;
    assert(2 * n == q * (2 * d) + 2 * r) by (nonlinear_arith)
        requires
            n == d * q + r,
    ;
    vstd::arithmetic::div_mod::lemma_fundamental_div_mod_converse(
        2 * n as int,
        2 * d as int,
        q,
        2 * r,
    );
}

/// A common factor of two changes nothing.
pub proof fn lemma_common_factor(n: nat, d: nat, exponent: int)
    requires
        d > 0,
    ensures
        rounded_bits(2 * n, 2 * d, exponent) == rounded_bits(n, d, exponent),
    decreases
            (if exponent < 0 {
                2int
            } else if n >= 0x20_0000_0000_0000 * d {
                1
            } else {
                0
            }),
            (if exponent < 0 {
                -exponent
            } else if n >= 0x20_0000_0000_0000 * d {
                n - d
            } else {
                exponent
            }),
{
    if n == 0 {
    } else if exponent < 0 {
        lemma_common_factor(n, 2 * d, exponent + 1);
    } else if n >= 0x20_0000_0000_0000 * d {
        lemma_common_factor(n, 2 * d, exponent + 1);
    } else if n < 0x10_0000_0000_0000 * d && exponent > 0 {
        lemma_common_factor(2 * n, d, exponent - 1);
    } else {
        lemma_round_div_common(n, d);
    }
}

/// A power of two can stand in the denominator or in the exponent.
pub proof fn lemma_scale(n: nat, d: nat, exponent: int)
    requires
        d > 0,
    ensures
        rounded_bits(n, 2 * d, exponent + 1) == rounded_bits(n, d, exponent),
{
    if n == 0 || exponent < 0 || n >= 0x20_0000_0000_0000 * d {
    } else {
        assert(rounded_bits(n, 2 * d, exponent + 1) == rounded_bits(2 * n, 2 * d, exponent));
        lemma_common_factor(n, d, exponent);
    }
}

/// A smaller exponent gives no larger value.
pub proof fn lemma_exponent_monotone(n: nat, d: nat, exponent: int, steps: nat)
    requires
        d > 0,
    ensures
        rounded_bits(n, d, exponent - steps) <= rounded_bits(n, d, exponent),
    decreases steps,
{
    if steps > 0 {
        lemma_exponent_monotone(n, d, exponent, (steps - 1) as nat);
        let e = exponent - steps;
        lemma_scale(n, d, e);
        lemma_common_factor(n, d, e + 1);
        lemma_monotone(n, 2 * n, 2 * d, e + 1);
    }
}

/// An integer of at most fifty-three bits is not rounded.
pub proof fn lemma_exact(n: nat, exponent: int)
    requires
        0 < n < 0x20_0000_0000_0000,
        52 <= exponent <= 2000 || (0 <= exponent <= 2000 && n >= 0x10_0000_0000_0000) || (0
            <= exponent < 52 && n * pow2(exponent as nat) >= 0x10_0000_0000_0000),
    ensures
        ({
            let bits = rounded_bits(n, 1, exponent);
            let value = Binary64 { bits: bits as u64 };
            0 <= bits < INFINITY && value.exponent() >= 0 && value.significand() * pow2(
                value.exponent() as nat,
            ) == n * pow2(exponent as nat)
        }),
    decreases exponent,
{
    vstd::arithmetic::power2::lemma2_to64();
    vstd::arithmetic::power2::lemma2_to64_rest();
    if n >= 0x10_0000_0000_0000 {
        assert(round_div(n, 1) == n);
        let bits = exponent * 0x10_0000_0000_0000 + n;
        let value = Binary64 { bits: bits as u64 };
        assert(value.exponent() == exponent);
        assert(value.significand() == n);
    } else {
        if exponent == 0 {
            assert(n * pow2(0) == n) by (nonlinear_arith)
                requires
                    pow2(0) == 1,
            ;
        }
        vstd::arithmetic::power2::lemma_pow2_unfold(exponent as nat);
        let p = pow2((exponent - 1) as nat);
        let q = pow2(exponent as nat);
        assert((2 * n) * p == n * q) by (nonlinear_arith)
            requires
                q == 2 * p,
        ;
        if exponent == 52 {
            assert(n * q >= 0x10_0000_0000_0000) by (nonlinear_arith)
                requires
                    n >= 1,
                    q == 0x10_0000_0000_0000,
            ;
        }
        lemma_exact(2 * n, exponent - 1);
    }
}

} // verus!
