//! What double-precision arithmetic gives on whole numbers, stated on the numbers.
use crate::binary64::{
    Binary64, BILLION, HUNDRED, INFINITY, MILLION, SIGN, THOUSAND, THREE_HUNDRED,
};
use crate::float_arithmetic::{
    aligned_sum, lemma_small_part_vanishes, nearest_bits, round_div, rounded_bits,
};
use crate::float_order::{lemma_common_factor, lemma_exact, lemma_scale};
use vstd::arithmetic::power2::pow2;
use vstd::prelude::*;

verus! {

/// Rounding to a whole number goes to the nearest one, and from the middle to the even one.
pub proof fn law_rounding_is_to_the_nearest(n: nat, d: nat)
    requires
        d > 0,
    ensures
        2 * (n - d * round_div(n, d)) <= d,
        2 * (d * round_div(n, d) - n) <= d,
        2 * (n - d * round_div(n, d)) == d || 2 * (d * round_div(n, d) - n) == d ==> round_div(n, d)
            % 2 == 0,
{
    vstd::arithmetic::div_mod::lemma_fundamental_div_mod(n as int, d as int);
    let q = (n / d) as int;
    assert(d * (q + 1) == d * q + d) by (nonlinear_arith);
}

/// The double that is nearest to a whole number.
pub open spec fn double(n: nat) -> Binary64 {
    Binary64 { bits: nearest_bits(n) as u64 }
}

/// A whole number of at most fifty-three bits is a double: a significand times a power of two of
/// the smallest one.
pub proof fn law_whole_numbers_are_exact(n: nat)
    requires
        0 < n < 0x20_0000_0000_0000,
    ensures
        double(n).bits < INFINITY,
        double(n).exponent() >= 0,
        double(n).significand() * pow2(double(n).exponent() as nat) == n * pow2(1074),
{
    lemma_exact(n, 1074);
}

proof fn lemma_numerator(n: nat, d: nat, exponent: int, shift: nat)
    requires
        d > 0,
    ensures
        rounded_bits(n * pow2(shift), d, exponent - shift) == rounded_bits(n, d, exponent),
    decreases shift,
{
    vstd::arithmetic::power2::lemma2_to64();
    if shift == 0 {
        assert(n * pow2(0) == n) by (nonlinear_arith)
            requires
                pow2(0) == 1,
        ;
    } else {
        let before = (shift - 1) as nat;
        vstd::arithmetic::power2::lemma_pow2_unfold(shift);
        lemma_numerator(n, d, exponent, before);
        let m = n * pow2(before);
        assert(n * pow2(shift) == 2 * m) by (nonlinear_arith)
            requires
                m == n * pow2(before),
                pow2(shift) == 2 * pow2(before),
        ;
        lemma_common_factor(m, d, exponent - before);
        lemma_scale(2 * m, d, exponent - shift);
    }
}

pub proof fn lemma_denominator(n: nat, d: nat, exponent: int, shift: nat)
    requires
        d > 0,
    ensures
        rounded_bits(n, d * pow2(shift), exponent + shift) == rounded_bits(n, d, exponent),
    decreases shift,
{
    vstd::arithmetic::power2::lemma2_to64();
    if shift == 0 {
        assert(d * pow2(0) == d) by (nonlinear_arith)
            requires
                pow2(0) == 1,
        ;
    } else {
        let before = (shift - 1) as nat;
        vstd::arithmetic::power2::lemma_pow2_unfold(shift);
        vstd::arithmetic::power2::lemma_pow2_pos(before);
        lemma_denominator(n, d, exponent, before);
        let m = d * pow2(before);
        assert(d * pow2(shift) == 2 * m && m > 0) by (nonlinear_arith)
            requires
                m == d * pow2(before),
                pow2(shift) == 2 * pow2(before),
                pow2(before) > 0,
                d > 0,
        ;
        lemma_scale(n, m, exponent + before);
    }
}

/// How far a whole number is from fifty-three bits.
proof fn lemma_room(n: nat, done: nat) -> (shift: nat)
    requires
        0 < n,
        n * pow2(done) < 0x20_0000_0000_0000,
        done <= 52,
    ensures
        shift <= 52,
        0x10_0000_0000_0000 <= n * pow2(shift) < 0x20_0000_0000_0000,
    decreases 53 - done,
{
    vstd::arithmetic::power2::lemma2_to64();
    vstd::arithmetic::power2::lemma2_to64_rest();
    if n * pow2(done) >= 0x10_0000_0000_0000 {
        done
    } else {
        vstd::arithmetic::power2::lemma_pow2_unfold(done + 1);
        assert(n * pow2(done + 1) == 2 * (n * pow2(done))) by (nonlinear_arith)
            requires
                pow2(done + 1) == 2 * pow2(done),
        ;
        if done == 52 {
            assert(n * pow2(52) >= pow2(52)) by (nonlinear_arith)
                requires
                    n >= 1,
                    pow2(52) > 0,
            ;
        }
        lemma_room(n, done + 1)
    }
}

/// The parts of the double of a whole number.
pub proof fn lemma_parts(n: nat) -> (shift: nat)
    requires
        0 < n < 0x20_0000_0000_0000,
    ensures
        shift <= 52,
        0x10_0000_0000_0000 <= n * pow2(shift) < 0x20_0000_0000_0000,
        double(n).significand() == n * pow2(shift),
        double(n).exponent() == 1074 - shift,
        double(n).bits == (1074 - shift) * 0x10_0000_0000_0000 + n * pow2(shift),
        0x10_0000_0000_0000 <= double(n).bits < INFINITY,
{
    vstd::arithmetic::power2::lemma2_to64();
    assert(n * pow2(0) == n) by (nonlinear_arith)
        requires
            pow2(0) == 1,
    ;
    let shift = lemma_room(n, 0);
    lemma_numerator(n, 1, 1074, shift);
    let whole = n * pow2(shift);
    assert(round_div(whole, 1) == whole);
    assert(nearest_bits(n) == (1074 - shift) * 0x10_0000_0000_0000 + whole);
    shift
}

/// The quotient of the doubles of two whole numbers is the double that is nearest to their
/// quotient.
pub proof fn law_quotients_are_nearest(p: nat, q: nat)
    requires
        p < 0x20_0000_0000_0000,
        0 < q < 0x20_0000_0000_0000,
    ensures
        double(p).over(double(q)).bits == rounded_bits(p, q, 1074) as u64,
{
    let t = lemma_parts(q);
    if p == 0 {
        assert(nearest_bits(0) == 0);
    } else {
        let s = lemma_parts(p);
        vstd::arithmetic::power2::lemma_pow2_pos(t);
        let d = q * pow2(t);
        lemma_numerator(p, d, (1074 + t) as int, s);
        lemma_denominator(p, q, 1074, t);
    }
}

/// The product of the doubles of two whole numbers is the double of their product.
pub proof fn law_products_are_exact(p: nat, q: nat)
    requires
        0 < p < 0x20_0000_0000_0000,
        0 < q < 0x20_0000_0000_0000,
    ensures
        double(p).times(double(q)).bits == nearest_bits(p * q) as u64,
{
    let s = lemma_parts(p);
    let t = lemma_parts(q);
    vstd::arithmetic::power2::lemma_pow2_adds(s, t);
    assert((p * pow2(s)) * (q * pow2(t)) == (p * q) * pow2(s + t)) by (nonlinear_arith)
        requires
            pow2(s + t) == pow2(s) * pow2(t),
    ;
    lemma_numerator(p * q, 1, 1074, s + t);
}

proof fn lemma_aligned(p: nat, s: nat, q: nat, t: nat)
    requires
        s >= t,
    ensures
        p * pow2(s) + (q * pow2(t)) * pow2((s - t) as nat) == (p + q) * pow2(s),
{
    vstd::arithmetic::power2::lemma_pow2_adds(t, (s - t) as nat);
    let a = pow2(t);
    let b = pow2((s - t) as nat);
    let c = pow2(s);
    assert(p * c + (q * a) * b == (p + q) * c) by (nonlinear_arith)
        requires
            c == a * b,
    ;
}

/// The sum of the doubles of two whole numbers is the double of their sum.
pub proof fn law_sums_are_exact(p: nat, q: nat)
    requires
        0 < p < 0x20_0000_0000_0000,
        0 < q < 0x20_0000_0000_0000,
    ensures
        double(p).plus(double(q)).bits == nearest_bits(p + q) as u64,
{
    let s = lemma_parts(p);
    let t = lemma_parts(q);
    if s >= t {
        lemma_aligned(p, s, q, t);
        lemma_numerator(p + q, 1, 1074, s);
    } else {
        lemma_aligned(q, t, p, s);
        lemma_numerator(q + p, 1, 1074, t);
    }
}

/// Zero adds nothing.
pub proof fn law_zero_adds_nothing(value: Binary64)
    requires
        value.bits <= INFINITY,
    ensures
        value.plus(Binary64 { bits: 0 }) == value,
        (Binary64 { bits: 0 }).plus(value) == value,
{
    vstd::arithmetic::power2::lemma2_to64();
    let zero = Binary64 { bits: 0 };
    if value.bits < INFINITY {
        let n = value.significand();
        let e = value.exponent();
        if value.bits >= 0x10_0000_0000_0000 {
            lemma_small_part_vanishes(0, n, e as nat, 0, 0);
            assert(0 * pow2(0) == 0);
            assert(aligned_sum(zero, value) == e * 0x10_0000_0000_0000 + n);
            if e == 0 {
                assert(0 * pow2(0nat) == 0) by (nonlinear_arith);
                assert(round_div(n, 1) == n);
                assert(aligned_sum(value, zero) == n);
            }
        } else {
            assert(n * pow2(0) == n) by (nonlinear_arith)
                requires
                    pow2(0) == 1,
            ;
            assert(round_div(n, 1) == n);
            assert(0 * pow2(0nat) == 0) by (nonlinear_arith);
            assert(aligned_sum(zero, value) == n);
            assert(aligned_sum(value, zero) == n);
        }
    }
}

/// Dividing by one changes nothing.
pub proof fn law_one_divides_everything(value: Binary64)
    requires
        value.bits <= INFINITY,
    ensures
        value.over(double(1)) == value,
{
    vstd::arithmetic::power2::lemma2_to64();
    vstd::arithmetic::power2::lemma2_to64_rest();
    let s = lemma_parts(1);
    assert(s == 52) by {
        if s < 52 {
            vstd::arithmetic::power2::lemma_pow2_strictly_increases(s, 52);
            assert(1 * pow2(s) == pow2(s)) by (nonlinear_arith);
        }
    }
    if value.bits < INFINITY {
        let n = value.significand();
        let e = value.exponent();
        lemma_denominator(n, 1, e, 52);
        assert(round_div(n, 1) == n);
        assert(rounded_bits(n, 1, e) == value.bits);
    }
}

/// The doubles that are named after numbers are those numbers.
pub proof fn law_named_doubles_are_their_numbers()
    ensures
        HUNDRED == nearest_bits(100),
        THREE_HUNDRED == nearest_bits(300),
        THOUSAND == nearest_bits(1_000),
        MILLION == nearest_bits(1_000_000),
        BILLION == nearest_bits(1_000_000_000),
{
    vstd::arithmetic::power2::lemma2_to64();
    vstd::arithmetic::power2::lemma2_to64_rest();
    lemma_bits_by(100, 46);
    lemma_bits_by(300, 44);
    lemma_bits_by(1_000, 43);
    lemma_bits_by(1_000_000, 33);
    lemma_bits_by(1_000_000_000, 23);
}

/// The bits of a whole number that a power of two takes to fifty-three digits.
pub proof fn lemma_bits_by(n: nat, shift: nat)
    requires
        0 < n,
        shift <= 52,
        0x10_0000_0000_0000 <= n * pow2(shift) < 0x20_0000_0000_0000,
    ensures
        nearest_bits(n) == (1074 - shift) * 0x10_0000_0000_0000 + n * pow2(shift),
{
    lemma_numerator(n, 1, 1074, shift);
    assert(round_div(n * pow2(shift), 1) == n * pow2(shift));
}

/// The bits of a quotient that is a whole number.
pub proof fn lemma_quotient_by(n: nat, d: nat, shift: nat, q: nat)
    requires
        n == d * q,
        d > 0,
        0 < q,
        shift <= 52,
        0x10_0000_0000_0000 <= q * pow2(shift) < 0x20_0000_0000_0000,
    ensures
        rounded_bits(n, d, 1074) == (1074 - shift) * 0x10_0000_0000_0000 + q * pow2(shift),
{
    lemma_numerator(n, d, 1074, shift);
    let m = n * pow2(shift);
    let w = q * pow2(shift);
    assert(m == d * w) by (nonlinear_arith)
        requires
            m == n * pow2(shift),
            w == q * pow2(shift),
            n == d * q,
    ;
    vstd::arithmetic::div_mod::lemma_fundamental_div_mod_converse(
        m as int,
        d as int,
        w as int,
        0,
    );
    assert(0x10_0000_0000_0000 * d <= m < 0x20_0000_0000_0000 * d) by (nonlinear_arith)
        requires
            m == d * w,
            0x10_0000_0000_0000 <= w < 0x20_0000_0000_0000,
            d > 0,
    ;
    assert(m > 0);
    assert(round_div(m, d) == w);
}

/// Of two doubles that are not negative the one with the larger value has the larger place in the
/// order; a negative one comes before all of them.
pub proof fn law_order_is_by_value(a: Binary64, b: Binary64)
    requires
        a.bits < b.bits < INFINITY,
    ensures
        a.order() < b.order(),
        a.significand() * pow2(a.exponent() as nat) < b.significand() * pow2(b.exponent() as nat),
        (Binary64 { bits: (SIGN + b.bits) as u64 }).order() < (Binary64 {
            bits: (SIGN + a.bits) as u64,
        }).order() <= 0,
{
    vstd::arithmetic::power2::lemma2_to64();
    let e = a.exponent();
    let f = b.exponent();
    let p = pow2(e as nat);
    let q = pow2(f as nat);
    let m = a.significand();
    let n = b.significand();
    vstd::arithmetic::power2::lemma_pow2_pos(e as nat);
    if e == f {
        assert(m < n);
        assert(m * p < n * p) by (nonlinear_arith)
            requires
                m < n,
                p > 0,
        ;
    } else {
        assert(e < f);
        vstd::arithmetic::power2::lemma_pow2_adds(e as nat, (f - e) as nat);
        let r = pow2((f - e) as nat);
        if f - e > 1 {
            vstd::arithmetic::power2::lemma_pow2_strictly_increases(1, (f - e) as nat);
        }
        assert(r >= 2);
        assert(m * p < n * q) by (nonlinear_arith)
            requires
                m < 0x20_0000_0000_0000,
                n >= 0x10_0000_0000_0000,
                q == p * r,
                r >= 2,
                p > 0,
        ;
    }
}

} // verus!
