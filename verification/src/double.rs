//! Binary floating point on whole numbers.
//!
//! A double (an IEEE 754 binary64 number) is handled here by its 64 bits, and a
//! calculation with doubles is carried out exactly and then rounded, all in
//! whole numbers.  The smallest positive double is 2 to the power of -1074, and
//! each finite double is a whole number of these; so the value of a double, and
//! the result of a calculation, is stated as a count of such units.

use vstd::arithmetic::div_mod::*;
use vstd::arithmetic::power2::*;
use vstd::prelude::*;

verus! {

/// The number of units in one.
pub open spec fn one() -> nat {
    pow2(1074)
}

/// The whole number nearest to `n / d`; of two equally near, the even one.
pub open spec fn half_even(n: nat, d: nat) -> nat {
    let quotient = n / d;
    let rest = n % d;
    if 2 * rest < d || (2 * rest == d && quotient % 2 == 0) {
        quotient
    } else {
        quotient + 1
    }
}

/// The first of `step`, `2 * step`, `4 * step`, and so on, that divides
/// `num / den` into fewer than 2 to the power of 53 parts.
pub open spec fn spacing_from(num: nat, den: nat, step: nat) -> nat
    decreases (if num < den * step * 0x20_0000_0000_0000 { 0 } else { num - den * step + 1 }),
{
    if den == 0 || step == 0 || num < den * step * 0x20_0000_0000_0000 {
        step
    } else {
        proof {
            assert(den * (2 * step) == 2 * (den * step)) by (nonlinear_arith);
            assert(den * step >= 1) by (nonlinear_arith)
                requires
                    den >= 1,
                    step >= 1,
            ;
        }
        spacing_from(num, den, 2 * step)
    }
}

/// The distance between neighbouring doubles near `num / den`: the significand
/// of a double has 53 bits.
pub open spec fn spacing(num: nat, den: nat) -> nat {
    spacing_from(num, den, 1)
}

/// The double nearest to `num / den`, ties to an even significand; argument and
/// result count units, and the result is not bounded above.
pub open spec fn nearest(num: nat, den: nat) -> nat {
    let step = spacing(num, den);
    half_even(num, den * step) * step
}

// ---------------------------------------------------------------------------
// Facts about rounding
// ---------------------------------------------------------------------------

/// A common factor does not change the nearest whole number.
pub proof fn lemma_half_even_cancel(n: nat, d: nat, c: nat)
    requires
        d > 0,
        c > 0,
    ensures
        half_even(n * c, d * c) == half_even(n, d),
{
    let q = n / d;
    let r = n % d;
    lemma_fundamental_div_mod(n as int, d as int);
    assert(n * c == q * (d * c) + r * c) by (nonlinear_arith)
        requires
            n == d * q + r,
    ;
    assert(0 <= r * c < d * c) by (nonlinear_arith)
        requires
            0 <= r < d,
            c > 0,
    ;
    lemma_fundamental_div_mod_converse((n * c) as int, (d * c) as int, q as int, (r * c) as int);
    assert((2 * (r * c) < d * c) == (2 * r < d)) by (nonlinear_arith)
        requires
            c > 0,
    ;
    assert((2 * (r * c) == d * c) == (2 * r == d)) by (nonlinear_arith)
        requires
            c > 0,
    ;
}

/// The nearest whole number is no more than a whole number that bounds the
/// quotient, and no less than one that it is bounded by.
pub proof fn lemma_half_even_bounds(n: nat, d: nat, low: nat, high: nat)
    requires
        d > 0,
        low * d <= n <= high * d,
    ensures
        low <= half_even(n, d) <= high,
{
    let q = n / d;
    let r = n % d;
    lemma_fundamental_div_mod(n as int, d as int);
    assert(low <= q) by (nonlinear_arith)
        requires
            n == d * q + r,
            0 <= r < d,
            low * d <= n,
    ;
    assert(q <= high && (q == high ==> r == 0)) by (nonlinear_arith)
        requires
            n == d * q + r,
            0 <= r < d,
            n <= high * d,
    ;
}

/// Powers of two, as far as they are needed as numbers.
pub proof fn lemma_small_powers()
    ensures
        pow2(0) == 1,
        pow2(1) == 2,
        pow2(7) == 128,
        pow2(46) == 0x4000_0000_0000,
        pow2(52) == 0x10_0000_0000_0000,
        pow2(53) == 0x20_0000_0000_0000,
        pow2(64) == 0x1_0000_0000_0000_0000,
{
    lemma2_to64();
    lemma2_to64_rest();
}

proof fn lemma_spacing_climbs(num: nat, den: nat, from: nat, to: nat)
    requires
        den > 0,
        from <= to,
        den * pow2(to) * 0x10_0000_0000_0000 <= num,
        num < den * pow2(to) * 0x20_0000_0000_0000,
    ensures
        spacing_from(num, den, pow2(from)) == pow2(to),
    decreases to - from,
{
    lemma_pow2_pos(from);
    if from < to {
        lemma_pow2_unfold(from + 1);
        assert(pow2(from + 1) == 2 * pow2(from));
        if from + 1 < to {
            lemma_pow2_strictly_increases(from + 1, to);
        }
        assert(den * pow2(from) * 0x20_0000_0000_0000 <= den * pow2(to) * 0x10_0000_0000_0000)
            by (nonlinear_arith)
            requires
                2 * pow2(from) <= pow2(to),
        ;
        lemma_spacing_climbs(num, den, from + 1, to);
    }
}

/// Between two powers of two the spacing is known.
pub proof fn lemma_spacing(num: nat, den: nat, exponent: nat)
    requires
        den > 0,
        den * pow2(exponent) * 0x10_0000_0000_0000 <= num,
        num < den * pow2(exponent) * 0x20_0000_0000_0000,
    ensures
        spacing(num, den) == pow2(exponent),
{
    lemma_small_powers();
    lemma_spacing_climbs(num, den, 0, exponent);
}

proof fn lemma_spacing_shape_from(num: nat, den: nat, from: nat) -> (exponent: nat)
    requires
        den > 0,
        from > 0 ==> den * pow2(from) * 0x10_0000_0000_0000 <= num,
    ensures
        spacing_from(num, den, pow2(from)) == pow2(exponent),
        num < den * pow2(exponent) * 0x20_0000_0000_0000,
        exponent > 0 ==> den * pow2(exponent) * 0x10_0000_0000_0000 <= num,
    decreases
            (if num < den * pow2(from) * 0x20_0000_0000_0000 {
                0
            } else {
                num - den * pow2(from) + 1
            }),
{
    lemma_pow2_pos(from);
    if num < den * pow2(from) * 0x20_0000_0000_0000 {
        from
    } else {
        lemma_pow2_unfold(from + 1);
        assert(den * pow2(from + 1) == 2 * (den * pow2(from))) by (nonlinear_arith)
            requires
                pow2(from + 1) == 2 * pow2(from),
        ;
        assert(den * pow2(from) >= 1) by (nonlinear_arith)
            requires
                den >= 1,
                pow2(from) >= 1,
        ;
        lemma_spacing_shape_from(num, den, from + 1)
    }
}

/// The spacing is a power of two, and one only below the significand's range.
pub proof fn lemma_spacing_shape(num: nat, den: nat) -> (exponent: nat)
    requires
        den > 0,
    ensures
        spacing(num, den) == pow2(exponent),
        num < den * pow2(exponent) * 0x20_0000_0000_0000,
        exponent > 0 ==> den * pow2(exponent) * 0x10_0000_0000_0000 <= num,
{
    lemma_small_powers();
    lemma_spacing_shape_from(num, den, 0)
}

/// A whole number below 2 to the power of 53, times a power of two, is a double.
pub proof fn lemma_short_is_exact(n: nat, exponent: nat)
    requires
        n <= 0x20_0000_0000_0000,
    ensures
        nearest(n * pow2(exponent), 1) == n * pow2(exponent),
{
    let num = n * pow2(exponent);
    lemma_pow2_pos(exponent);
    let e = lemma_spacing_shape(num, 1);
    lemma_pow2_pos(e);
    let step = pow2(e);
    // The spacing divides the number.
    if e <= exponent {
        lemma_pow2_adds(e, (exponent - e) as nat);
        let k = n * pow2((exponent - e) as nat);
        assert(num == k * step) by (nonlinear_arith)
            requires
                num == n * pow2(exponent),
                pow2(exponent) == step * pow2((exponent - e) as nat),
                k == n * pow2((exponent - e) as nat),
        ;
        lemma_half_even_bounds(num, step, k, k);
    } else {
        lemma_pow2_adds(exponent, (e - exponent) as nat);
        lemma_pow2_unfold((e - exponent) as nat);
        lemma_pow2_pos((e - exponent - 1) as nat);
        let f = pow2((e - exponent) as nat);
        assert(n >= f * 0x10_0000_0000_0000) by (nonlinear_arith)
            requires
                step == pow2(exponent) * f,
                step * 0x10_0000_0000_0000 <= n * pow2(exponent),
                pow2(exponent) > 0,
        ;
        assert(f == 2 && n == 0x20_0000_0000_0000) by (nonlinear_arith)
            requires
                n >= f * 0x10_0000_0000_0000,
                n <= 0x20_0000_0000_0000,
                f == 2 * pow2((e - exponent - 1) as nat),
                pow2((e - exponent - 1) as nat) >= 1,
        ;
        assert(num == 0x10_0000_0000_0000 * step) by (nonlinear_arith)
            requires
                num == n * pow2(exponent),
                n == 0x20_0000_0000_0000,
                step == pow2(exponent) * 2,
        ;
        lemma_half_even_bounds(num, step, 0x10_0000_0000_0000, 0x10_0000_0000_0000);
    }
}

/// Rounding does not pass a power of two.
pub proof fn lemma_nearest_below_power(num: nat, den: nat, exponent: nat)
    requires
        den > 0,
        num <= den * pow2(exponent),
    ensures
        nearest(num, den) <= pow2(exponent),
{
    let e = lemma_spacing_shape(num, den);
    lemma_pow2_pos(e);
    lemma_pow2_pos(exponent);
    if e > exponent {
        lemma_pow2_strictly_increases(exponent, e);
        assert(false) by (nonlinear_arith)
            requires
                den * pow2(e) * 0x10_0000_0000_0000 <= num,
                num <= den * pow2(exponent),
                pow2(exponent) < pow2(e),
                den > 0,
        ;
    }
    let f = pow2((exponent - e) as nat);
    lemma_pow2_adds(e, (exponent - e) as nat);
    assert(den * pow2(e) > 0) by (nonlinear_arith)
        requires
            den > 0,
            pow2(e) > 0,
    ;
    assert(num <= f * (den * pow2(e))) by (nonlinear_arith)
        requires
            num <= den * pow2(exponent),
            pow2(exponent) == pow2(e) * f,
    ;
    lemma_half_even_bounds(num, den * pow2(e), 0, f);
    let h = half_even(num, den * pow2(e));
    assert(h * pow2(e) <= pow2(exponent)) by (nonlinear_arith)
        requires
            h <= f,
            pow2(exponent) == pow2(e) * f,
    ;
}

/// Rounding does not pass a double.
pub proof fn lemma_nearest_below_double(n: nat, c: nat, exponent: nat)
    requires
        c < 0x20_0000_0000_0000,
        n <= c * pow2(exponent),
    ensures
        nearest(n, 1) <= c * pow2(exponent),
{
    let bound = c * pow2(exponent);
    let e = lemma_spacing_shape(n, 1);
    let step = pow2(e);
    lemma_pow2_pos(e);
    lemma_pow2_pos(exponent);
    if e > exponent {
        lemma_pow2_unfold((e - exponent) as nat);
        lemma_pow2_pos((e - exponent - 1) as nat);
        lemma_pow2_adds(exponent, (e - exponent) as nat);
        let f = pow2((e - exponent) as nat);
        assert(step >= 2 * pow2(exponent)) by (nonlinear_arith)
            requires
                step == pow2(exponent) * f,
                f >= 2,
        ;
        assert(false) by (nonlinear_arith)
            requires
                step * 0x10_0000_0000_0000 <= n,
                n <= c * pow2(exponent),
                step >= 2 * pow2(exponent),
                c < 0x20_0000_0000_0000,
                pow2(exponent) > 0,
        ;
    }
    let f = pow2((exponent - e) as nat);
    lemma_pow2_adds(e, (exponent - e) as nat);
    assert(bound == (c * f) * step) by (nonlinear_arith)
        requires
            bound == c * pow2(exponent),
            pow2(exponent) == step * f,
    ;
    lemma_half_even_bounds(n, step, 0, c * f);
    let h = half_even(n, step);
    assert(h * step <= (c * f) * step) by (nonlinear_arith)
        requires
            h <= c * f,
    ;
}

/// The nearest whole number does not fall where the quotient does not.
pub proof fn lemma_half_even_monotone(n: nat, m: nat, d: nat)
    requires
        d > 0,
        n <= m,
    ensures
        half_even(n, d) <= half_even(m, d),
{
    lemma_div_is_ordered(n as int, m as int, d as int);
    lemma_fundamental_div_mod(n as int, d as int);
    lemma_fundamental_div_mod(m as int, d as int);
    if n / d == m / d {
        assert(d * (n / d) == d * (m / d));
        assert(n % d <= m % d);
    }
}

/// Rounding to a double keeps the order.
pub proof fn lemma_nearest_monotone(n: nat, m: nat, den: nat)
    requires
        den > 0,
        n <= m,
    ensures
        nearest(n, den) <= nearest(m, den),
{
    let e = lemma_spacing_shape(n, den);
    let f = lemma_spacing_shape(m, den);
    lemma_pow2_pos(e);
    lemma_pow2_pos(f);
    let (low, high) = (den * pow2(e), den * pow2(f));
    assert(low > 0 && high > 0) by (nonlinear_arith)
        requires
            low == den * pow2(e),
            high == den * pow2(f),
            den > 0,
            pow2(e) > 0,
            pow2(f) > 0,
    ;
    if e == f {
        lemma_half_even_monotone(n, m, low);
        assert(half_even(n, low) * pow2(e) <= half_even(m, low) * pow2(e)) by (nonlinear_arith)
            requires
                half_even(n, low) <= half_even(m, low),
        ;
    } else if e < f {
        lemma_pow2_unfold(f);
        if e + 1 < f {
            lemma_pow2_strictly_increases(e, (f - 1) as nat);
        }
        lemma_half_even_bounds(n, low, 0, 0x20_0000_0000_0000);
        assert(m <= m * high) by (nonlinear_arith)
            requires
                high >= 1,
        ;
        lemma_half_even_bounds(m, high, 0x10_0000_0000_0000, m);
        assert(half_even(n, low) * pow2(e) <= half_even(m, high) * pow2(f)) by (nonlinear_arith)
            requires
                half_even(n, low) <= 0x20_0000_0000_0000,
                half_even(m, high) >= 0x10_0000_0000_0000,
                pow2(f) >= 2 * pow2(e),
        ;
    } else {
        lemma_pow2_unfold(e);
        if f + 1 < e {
            lemma_pow2_strictly_increases(f, (e - 1) as nat);
        }
        assert(false) by (nonlinear_arith)
            requires
                n <= m,
                low * 0x10_0000_0000_0000 <= n,
                m < high * 0x20_0000_0000_0000,
                low == den * pow2(e),
                high == den * pow2(f),
                pow2(e) >= 2 * pow2(f),
                den > 0,
        ;
    }
}

/// The nearest whole number is at most a half away, and even if it is just that.
pub proof fn lemma_half_even_error(n: nat, d: nat)
    requires
        d > 0,
    ensures
        -(d as int) <= 2 * (half_even(n, d) * d - n) <= d,
        2 * (half_even(n, d) * d - n) == d || 2 * (n - half_even(n, d) * d) == d ==> half_even(n, d)
            % 2 == 0,
{
    lemma_fundamental_div_mod(n as int, d as int);
    let q = n / d;
    assert(q * d == d * q) by (nonlinear_arith);
    assert((q + 1) * d == d * q + d) by (nonlinear_arith);
}

/// The nearest double is at most half the spacing away.
pub proof fn lemma_nearest_error(n: nat)
    ensures
        -(spacing(n, 1) as int) <= 2 * (nearest(n, 1) - n) <= spacing(n, 1),
{
    let e = lemma_spacing_shape(n, 1);
    lemma_pow2_pos(e);
    assert(1 * pow2(e) == pow2(e));
    lemma_half_even_error(n, pow2(e));
}

/// The double nearest to a quotient is at most half the spacing away from it.
pub proof fn lemma_quotient_error(num: nat, den: nat)
    requires
        den > 0,
    ensures
        -(spacing(num, den) * den as int) <= 2 * (nearest(num, den) * den - num) <= spacing(
            num,
            den,
        ) * den,
{
    let e = lemma_spacing_shape(num, den);
    let step = pow2(e);
    lemma_pow2_pos(e);
    let unit = den * step;
    assert(unit > 0) by (nonlinear_arith)
        requires
            unit == den * step,
            den > 0,
            step > 0,
    ;
    lemma_half_even_error(num, unit);
    let h = half_even(num, unit);
    assert(h * step * den == h * unit) by (nonlinear_arith)
        requires
            unit == den * step,
    ;
    assert(step * den == unit) by (nonlinear_arith)
        requires
            unit == den * step,
    ;
}

/// Zero is a double.
pub proof fn lemma_nearest_of_zero(den: nat)
    requires
        den > 0,
    ensures
        nearest(0, den) == 0,
{
    let e = lemma_spacing_shape(0, den);
    lemma_pow2_pos(e);
    assert(den * pow2(e) > 0) by (nonlinear_arith)
        requires
            den > 0,
            pow2(e) > 0,
    ;
    lemma_half_even_bounds(0, den * pow2(e), 0, 0);
}

/// A common factor of numerator and denominator does not matter.
pub proof fn lemma_nearest_of_multiple(num: nat, factor: nat)
    requires
        factor > 0,
    ensures
        nearest(num * factor, factor) == nearest(num, 1),
{
    let e = lemma_spacing_shape(num, 1);
    let step = pow2(e);
    lemma_pow2_pos(e);
    assert(factor * step == step * factor) by (nonlinear_arith);
    lemma_half_even_cancel(num, step, factor);
    if e > 0 {
        assert(factor * step * 0x10_0000_0000_0000 <= num * factor < factor * step
            * 0x20_0000_0000_0000) by (nonlinear_arith)
            requires
                step * 0x10_0000_0000_0000 <= num < step * 0x20_0000_0000_0000,
                factor > 0,
        ;
        lemma_spacing(num * factor, factor, e);
    } else {
        lemma_small_powers();
        assert(num * factor < factor * 1 * 0x20_0000_0000_0000) by (nonlinear_arith)
            requires
                num < 0x20_0000_0000_0000,
                factor > 0,
        ;
    }
}

/// `significand * 2^exponent` is `num / den` rounded to 53 bits.
pub open spec fn is_rounding(num: nat, den: nat, significand: nat, exponent: int) -> bool {
    if exponent <= 0 {
        let scaled = num * pow2((-exponent) as nat);
        &&& den * 0x10_0000_0000_0000 <= scaled < den * 0x20_0000_0000_0000
        &&& significand == half_even(scaled, den)
    } else {
        let step = den * pow2(exponent as nat);
        &&& step * 0x10_0000_0000_0000 <= num < step * 0x20_0000_0000_0000
        &&& significand == half_even(num, step)
    }
}

/// A rounding to 53 bits gives the nearest double at any scale at which the
/// spacing is not less than a unit.
pub proof fn lemma_rounding_at_scale(
    num: nat,
    den: nat,
    significand: nat,
    exponent: int,
    scale: nat,
)
    requires
        den > 0,
        is_rounding(num, den, significand, exponent),
        scale + exponent >= 0,
    ensures
        nearest(num * pow2(scale), den) == significand * pow2((scale + exponent) as nat),
        0x10_0000_0000_0000 <= significand <= 0x20_0000_0000_0000,
{
    let total = (scale + exponent) as nat;
    let step = pow2(total);
    lemma_pow2_pos(scale);
    lemma_pow2_pos(total);
    if exponent <= 0 {
        let scaled = num * pow2((-exponent) as nat);
        lemma_pow2_adds((-exponent) as nat, total);
        assert(num * pow2(scale) == scaled * step) by (nonlinear_arith)
            requires
                scaled == num * pow2((-exponent) as nat),
                pow2(scale) == pow2((-exponent) as nat) * step,
        ;
        assert(den * step * 0x10_0000_0000_0000 <= scaled * step < den * step
            * 0x20_0000_0000_0000) by (nonlinear_arith)
            requires
                den * 0x10_0000_0000_0000 <= scaled < den * 0x20_0000_0000_0000,
                step > 0,
        ;
        lemma_spacing(num * pow2(scale), den, total);
        lemma_half_even_cancel(scaled, den, step);
        lemma_half_even_bounds(scaled, den, 0x10_0000_0000_0000, 0x20_0000_0000_0000);
    } else {
        let unit = den * pow2(exponent as nat);
        let up = pow2(scale);
        lemma_pow2_pos(exponent as nat);
        lemma_pow2_adds(exponent as nat, scale);
        assert(den * step == unit * up) by (nonlinear_arith)
            requires
                unit == den * pow2(exponent as nat),
                step == pow2(exponent as nat) * up,
        ;
        assert(unit > 0) by (nonlinear_arith)
            requires
                unit == den * pow2(exponent as nat),
                den > 0,
                pow2(exponent as nat) > 0,
        ;
        assert(den * step * 0x10_0000_0000_0000 <= num * up < den * step * 0x20_0000_0000_0000)
            by (nonlinear_arith)
            requires
                unit * 0x10_0000_0000_0000 <= num < unit * 0x20_0000_0000_0000,
                den * step == unit * up,
                up > 0,
        ;
        lemma_spacing(num * up, den, total);
        lemma_half_even_cancel(num, unit, up);
        lemma_half_even_bounds(num, unit, 0x10_0000_0000_0000, 0x20_0000_0000_0000);
    }
}

// ---------------------------------------------------------------------------
// Rounding, carried out
// ---------------------------------------------------------------------------

/// A number in binary floating point: `significand * 2^exponent`.
#[derive(Debug, Clone, Copy, PartialEq, Eq)]
pub struct Binary {
    pub significand: u64,
    pub exponent: i32,
}

/// Divides and rounds to the nearest whole number, ties to even.
pub fn round_half_even(n: u128, d: u128) -> (rounded: u128)
    requires
        0 < d < 0x8000_0000_0000_0000_0000_0000_0000_0000,
    ensures
        rounded == half_even(n as nat, d as nat),
{
    let quotient: u128 = n / d;
    let rest: u128 = n % d;
    if 2 * rest < d || (2 * rest == d && quotient % 2 == 0) {
        quotient
    } else {
        proof {
            lemma_fundamental_div_mod(n as int, d as int);
        }
        assert(quotient < n) by (nonlinear_arith)
            requires
                n == d * quotient + rest,
                rest > 0,
                d > 0,
        ;
        quotient + 1
    }
}

/// Rounds a quotient to 53 bits.
pub fn round_quotient(num: u128, den: u128) -> (b: Binary)
    requires
        0 < num < 0x4000_0000_0000_0000_0000_0000_0000_0000,
        0 < den < 0x1_0000_0000_0000_0000,
    ensures
        is_rounding(num as nat, den as nat, b.significand as nat, b.exponent as int),
        0x10_0000_0000_0000 <= b.significand <= 0x20_0000_0000_0000,
        -128 < b.exponent < 128,
{
    let mut n: u128 = num;
    let mut d: u128 = den;
    let mut exponent: i32 = 0;
    proof {
        lemma_small_powers();
        lemma_pow2_adds(64, 64);
        assert(den * pow2(0) == den) by (nonlinear_arith)
            requires
                pow2(0) == 1,
        ;
    }
    while n >= d * 0x20_0000_0000_0000
        invariant
            n == num < 0x4000_0000_0000_0000_0000_0000_0000_0000,
            d == den * pow2(exponent as nat),
            0 < den,
            0 < d <= 0x400_0000_0000_0000_0000,
            0 <= exponent < 128,
            exponent > 0 ==> d * 0x10_0000_0000_0000 <= n,
            pow2(128) == 0x1_0000_0000_0000_0000 * 0x1_0000_0000_0000_0000,
        decreases n - d,
    {
        proof {
            lemma_pow2_unfold((exponent + 1) as nat);
            assert(den * pow2((exponent + 1) as nat) == 2 * d) by (nonlinear_arith)
                requires
                    d == den * pow2(exponent as nat),
                    pow2((exponent + 1) as nat) == 2 * pow2(exponent as nat),
            ;
            assert(pow2((exponent + 1) as nat) <= 2 * d) by (nonlinear_arith)
                requires
                    den * pow2((exponent + 1) as nat) == 2 * d,
                    den >= 1,
            ;
            if exponent + 1 >= 128 {
                if exponent + 1 > 128 {
                    lemma_pow2_strictly_increases(128, (exponent + 1) as nat);
                }
            }
        }
        d = d * 2;
        exponent = exponent + 1;
    }
    let ghost climbed = exponent > 0;
    proof {
        assert(num * pow2(0) == num) by (nonlinear_arith)
            requires
                pow2(0) == 1,
        ;
    }
    while n < d * 0x10_0000_0000_0000
        invariant
            0 < n < d * 0x20_0000_0000_0000,
            0 < d <= 0x400_0000_0000_0000_0000,
            climbed ==> n >= d * 0x10_0000_0000_0000,
            climbed ==> n == num && d == den * pow2(exponent as nat) && 0 < exponent < 128,
            !climbed ==> d == den && n == num * pow2((-exponent) as nat) && -128 < exponent <= 0,
            0 < num,
            0 < den < 0x1_0000_0000_0000_0000,
            pow2(128) == 0x1_0000_0000_0000_0000 * 0x1_0000_0000_0000_0000,
        decreases d * 0x20_0000_0000_0000 - n,
    {
        proof {
            let down = (-exponent) as nat;
            lemma_pow2_unfold(down + 1);
            assert(num * pow2(down + 1) == 2 * n) by (nonlinear_arith)
                requires
                    n == num * pow2(down),
                    pow2(down + 1) == 2 * pow2(down),
            ;
            assert(pow2(down + 1) <= 2 * n) by (nonlinear_arith)
                requires
                    num * pow2(down + 1) == 2 * n,
                    num >= 1,
            ;
            if down + 1 >= 128 {
                if down + 1 > 128 {
                    lemma_pow2_strictly_increases(128, down + 1);
                }
            }
        }
        n = n * 2;
        exponent = exponent - 1;
    }
    let significand: u128 = round_half_even(n, d);
    proof {
        lemma_half_even_bounds(n as nat, d as nat, 0x10_0000_0000_0000, 0x20_0000_0000_0000);
    }
    Binary { significand: significand as u64, exponent }
}

/// Multiplies by a power of two.
pub fn times_power(n: u128, exponent: u32) -> (product: u128)
    requires
        n * pow2(exponent as nat) <= u128::MAX,
    ensures
        product == n * pow2(exponent as nat),
{
    let mut product: u128 = n;
    let mut i: u32 = 0;
    proof {
        lemma_small_powers();
        assert(n * pow2(0) == n) by (nonlinear_arith)
            requires
                pow2(0) == 1,
        ;
    }
    while i < exponent
        invariant
            i <= exponent,
            product == n * pow2(i as nat),
            n * pow2(exponent as nat) <= u128::MAX,
        decreases exponent - i,
    {
        proof {
            lemma_pow2_unfold((i + 1) as nat);
            assert(n * pow2((i + 1) as nat) == 2 * product) by (nonlinear_arith)
                requires
                    product == n * pow2(i as nat),
                    pow2((i + 1) as nat) == 2 * pow2(i as nat),
            ;
            if i + 1 < exponent {
                lemma_pow2_strictly_increases((i + 1) as nat, exponent as nat);
            }
            assert(n * pow2((i + 1) as nat) <= n * pow2(exponent as nat)) by (nonlinear_arith)
                requires
                    pow2((i + 1) as nat) <= pow2(exponent as nat),
            ;
        }
        product = product * 2;
        i = i + 1;
    }
    product
}

/// Rounds a whole number to the nearest double.
pub fn nearest_integer(n: u128) -> (rounded: u128)
    requires
        n < 0x4000_0000_0000_0000_0000_0000_0000_0000,
    ensures
        rounded == nearest(n as nat, 1),
        rounded <= 0x4000_0000_0000_0000_0000_0000_0000_0000,
{
    proof {
        lemma_small_powers();
        lemma_pow2_adds(64, 62);
        lemma_pow2_subtracts(2, 64);
        lemma2_to64();
        lemma_nearest_below_power(n as nat, 1, 126);
    }
    if n < 0x20_0000_0000_0000 {
        proof {
            lemma_short_is_exact(n as nat, 0);
        }
        return n;
    }
    let b = round_quotient(n, 1);
    proof {
        if b.exponent <= 0 {
            lemma_pow2_pos((-b.exponent) as nat);
            assert(n * pow2((-b.exponent) as nat) >= n) by (nonlinear_arith)
                requires
                    pow2((-b.exponent) as nat) >= 1,
            ;
        }
        lemma_rounding_at_scale(n as nat, 1, b.significand as nat, b.exponent as int, 0);
        assert(n * pow2(0) == n) by (nonlinear_arith)
            requires
                pow2(0) == 1,
        ;
    }
    times_power(b.significand as u128, b.exponent as u32)
}

// ---------------------------------------------------------------------------
// Division of whole numbers
// ---------------------------------------------------------------------------

/// The least whole number that is no less than `n / d`.
pub open spec fn ceiling(n: nat, d: nat) -> nat {
    if n % d == 0 {
        n / d
    } else {
        n / d + 1
    }
}

/// Two ways to write one fraction have the same quotient, and remainders in the
/// proportion of the denominators.
pub proof fn lemma_same_fraction(n: nat, d: nat, x: nat, y: nat)
    requires
        d > 0,
        y > 0,
        n * y == x * d,
    ensures
        n / d == x / y,
        (n % d) * y == (x % y) * d,
        half_even(n, d) == half_even(x, y),
        ceiling(n, d) == ceiling(x, y),
        n >= 100 * d <==> x >= 100 * y,
        (n % d) * 0x10_0000_0000_0000 < d <==> (x % y) * 0x10_0000_0000_0000 < y,
{
    lemma_half_even_cancel(n, d, y);
    lemma_half_even_cancel(x, y, d);
    assert(d * y == y * d) by (nonlinear_arith);
    lemma_fundamental_div_mod(n as int, d as int);
    lemma_fundamental_div_mod(x as int, y as int);
    let (q, r) = (n / d, n % d);
    let (k, s) = (x / y, x % y);
    assert(n * y == q * (d * y) + r * y && 0 <= r * y < d * y) by (nonlinear_arith)
        requires
            n == d * q + r,
            0 <= r < d,
            y > 0,
    ;
    assert(n * y == k * (d * y) + s * d && 0 <= s * d < d * y) by (nonlinear_arith)
        requires
            n * y == x * d,
            x == y * k + s,
            0 <= s < y,
            d > 0,
    ;
    lemma_fundamental_div_mod_converse((n * y) as int, (d * y) as int, q as int, (r * y) as int);
    lemma_fundamental_div_mod_converse((n * y) as int, (d * y) as int, k as int, (s * d) as int);
    assert((r == 0) == (s == 0)) by (nonlinear_arith)
        requires
            r * y == s * d,
            d > 0,
            y > 0,
    ;
    assert(n >= 100 * d <==> x >= 100 * y) by (nonlinear_arith)
        requires
            n * y == x * d,
            d > 0,
            y > 0,
    ;
    assert(r * 0x10_0000_0000_0000 < d <==> s * 0x10_0000_0000_0000 < y) by (nonlinear_arith)
        requires
            r * y == s * d,
            d > 0,
            y > 0,
    ;
}

/// A fraction of whole numbers.
pub struct Fraction {
    pub num: u128,
    pub den: u128,
}

/// `f` is the number of `units` units.
pub open spec fn is_units(f: Fraction, units: nat) -> bool {
    &&& f.num * one() == units * f.den
    &&& 0 < f.den <= 0x20_0000_0000_0000_0000_0000_0000_0000
    &&& f.num <= 0x8_0000_0000_0000_0000
}

/// The quotient of two whole numbers that are doubles, rounded to a double.
pub fn divide(a: u128, b: u128) -> (f: Fraction)
    requires
        0 < a <= 0x8000_0000_0000_0000,
        0 < b <= 0x8000_0000_0000_0000,
    ensures
        is_units(f, nearest(a as nat * one(), b as nat)),
{
    let r = round_quotient(a, b);
    let ghost m = r.significand as nat;
    let ghost e = r.exponent as int;
    let ghost units = nearest(a as nat * one(), b as nat);
    proof {
        lemma_rounding_at_scale(a as nat, b as nat, m, e, 1074);
        lemma_small_powers();
        lemma_pow2_pos((1074 + e) as nat);
        lemma_pow2_adds(64, 53);
    }
    if r.exponent > 0 {
        proof {
            let step = pow2(e as nat);
            assert(step * 0x10_0000_0000_0000 <= a) by (nonlinear_arith)
                requires
                    b * step * 0x10_0000_0000_0000 <= a,
                    b >= 1,
            ;
            assert(m * step <= 0x8_0000_0000_0000_0000) by (nonlinear_arith)
                requires
                    step * 0x10_0000_0000_0000 <= 0x8000_0000_0000_0000,
                    m <= 0x20_0000_0000_0000,
            ;
            lemma_pow2_adds(1074, e as nat);
            assert((m * step) * one() == units * 1) by (nonlinear_arith)
                requires
                    units == m * pow2((1074 + e) as nat),
                    pow2((1074 + e) as nat) == one() * step,
            ;
        }
        let num: u128 = times_power(r.significand as u128, r.exponent as u32);
        Fraction { num, den: 1 }
    } else {
        proof {
            let den = pow2((-e) as nat);
            assert(den <= a * den) by (nonlinear_arith)
                requires
                    a >= 1,
            ;
            assert(b * 0x20_0000_0000_0000 <= 0x8000_0000_0000_0000 * 0x20_0000_0000_0000)
                by (nonlinear_arith)
                requires
                    b <= 0x8000_0000_0000_0000,
            ;
            lemma_pow2_adds((1074 + e) as nat, (-e) as nat);
            lemma_pow2_pos((-e) as nat);
            assert(m * one() == units * den) by (nonlinear_arith)
                requires
                    units == m * pow2((1074 + e) as nat),
                    one() == pow2((1074 + e) as nat) * den,
            ;
            assert(1 * den == den);
        }
        let den: u128 = times_power(1, (-r.exponent) as u32);
        Fraction { num: r.significand as u128, den }
    }
}

} // verus!
