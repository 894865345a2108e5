//! Percentages, held as the bits of doubles.

use crate::double;
use crate::text;
use vstd::arithmetic::div_mod::*;
use vstd::arithmetic::power2::*;
use vstd::prelude::*;

verus! {

// ---------------------------------------------------------------------------
// The bits of a double
// ---------------------------------------------------------------------------

/// The bits of 100.
pub const HUNDRED_BITS: u64 = 0x4059_0000_0000_0000;

/// The bits of negative zero: the sign alone.
pub const SIGN_BITS: u64 = 0x8000_0000_0000_0000;

/// The eleven bits of the exponent.
pub open spec fn exponent_field(bits: u64) -> nat {
    ((bits / 0x10_0000_0000_0000) % 0x800) as nat
}

/// The lowest 52 bits of the significand.
pub open spec fn fraction_field(bits: u64) -> nat {
    (bits % 0x10_0000_0000_0000) as nat
}

/// The sign bit is set.
pub open spec fn is_negative(bits: u64) -> bool {
    bits >= SIGN_BITS
}

/// The bits of "not a number".
pub open spec fn is_nan(bits: u64) -> bool {
    exponent_field(bits) == 0x7ff && fraction_field(bits) != 0
}

/// The significand as a whole number.
pub open spec fn significand(bits: u64) -> nat {
    if exponent_field(bits) == 0 {
        fraction_field(bits)
    } else {
        0x10_0000_0000_0000 + fraction_field(bits)
    }
}

/// The power of two that scales the significand to units.
pub open spec fn scale(bits: u64) -> nat {
    if exponent_field(bits) == 0 {
        0
    } else {
        (exponent_field(bits) - 1) as nat
    }
}

/// The magnitude of a double in units; infinity comes after all finite doubles.
pub open spec fn magnitude(bits: u64) -> nat {
    significand(bits) * pow2(scale(bits))
}

/// The value of a double in units.
pub open spec fn value(bits: u64) -> int {
    if is_negative(bits) {
        -(magnitude(bits) as int)
    } else {
        magnitude(bits) as int
    }
}

/// The `<=` of doubles: false where either is not a number.
pub open spec fn at_most(a: u64, b: u64) -> bool {
    !is_nan(a) && !is_nan(b) && value(a) <= value(b)
}

/// Where a double stands in the total order of doubles, in which negative zero
/// comes before zero, and not-a-numbers come first or last by their sign.
pub open spec fn order_key(bits: u64) -> int {
    if is_negative(bits) {
        SIGN_BITS - bits - 1
    } else {
        bits as int
    }
}

/// A double from 0 to 100.
pub open spec fn in_percent_range(bits: u64) -> bool {
    !is_nan(bits) && 0 <= value(bits) <= 100 * double::one()
}

/// What a percentage can be: from 0 to 100, or not a number.
pub open spec fn is_percent(bits: u64) -> bool {
    is_nan(bits) || in_percent_range(bits)
}

/// The larger pattern of bits has the larger magnitude.
pub proof fn lemma_magnitude_order(a: u64, b: u64)
    requires
        a < b < SIGN_BITS,
    ensures
        magnitude(a) < magnitude(b),
{
    let (ea, eb) = (exponent_field(a), exponent_field(b));
    let (fa, fb) = (fraction_field(a), fraction_field(b));
    assert(ea == a / 0x10_0000_0000_0000 && eb == b / 0x10_0000_0000_0000);
    assert(ea <= eb);
    lemma_pow2_pos(scale(a));
    lemma_pow2_pos(scale(b));
    if ea == eb {
        assert(fa < fb);
        assert(significand(a) * pow2(scale(a)) < significand(b) * pow2(scale(b)))
            by (nonlinear_arith)
            requires
                significand(a) < significand(b),
                scale(a) == scale(b),
                pow2(scale(a)) > 0,
        ;
    } else if ea == 0 {
        lemma2_to64();
        assert(significand(a) * 1 == significand(a));
        assert(significand(b) * pow2(scale(b)) >= 0x10_0000_0000_0000) by (nonlinear_arith)
            requires
                significand(b) >= 0x10_0000_0000_0000,
                pow2(scale(b)) >= 1,
        ;
    } else {
        lemma_pow2_unfold((scale(a) + 1) as nat);
        if scale(a) + 1 < scale(b) {
            lemma_pow2_strictly_increases((scale(a) + 1) as nat, scale(b));
        }
        assert(significand(a) * pow2(scale(a)) < significand(b) * pow2(scale(b)))
            by (nonlinear_arith)
            requires
                significand(a) < 0x20_0000_0000_0000,
                significand(b) >= 0x10_0000_0000_0000,
                pow2(scale(b)) >= 2 * pow2(scale(a)),
                pow2(scale(a)) > 0,
        ;
    }
}

/// The value of the bits of 100.
pub proof fn lemma_hundred()
    ensures
        magnitude(HUNDRED_BITS) == 100 * double::one(),
        value(HUNDRED_BITS) == 100 * double::one(),
        !is_nan(HUNDRED_BITS),
        magnitude(0) == 0,
        magnitude(SIGN_BITS) == 0,
        value(0) == 0,
        value(SIGN_BITS) == 0,
        !is_nan(0),
        !is_nan(SIGN_BITS),
{
    assert(exponent_field(HUNDRED_BITS) == 0x405);
    assert(fraction_field(HUNDRED_BITS) == 0x9_0000_0000_0000);
    lemma_pow2_adds(1028, 46);
    lemma2_to64_rest();
    lemma2_to64();
    assert(0x19_0000_0000_0000 * pow2(1028) == 100 * pow2(1074)) by (nonlinear_arith)
        requires
            pow2(1074) == pow2(1028) * pow2(46),
            pow2(46) == 0x4000_0000_0000,
    ;
    assert(0 * pow2(0) == 0);
}

/// A percentage is known by its bits.
pub proof fn lemma_percent_bits(bits: u64)
    ensures
        in_percent_range(bits) <==> bits <= HUNDRED_BITS || bits == SIGN_BITS,
        is_nan(bits) <==> 0x7ff0_0000_0000_0000 < bits % SIGN_BITS,
        magnitude(bits) == magnitude(bits % SIGN_BITS),
{
    lemma_hundred();
    let low = bits % SIGN_BITS;
    assert(exponent_field(bits) == exponent_field(low));
    assert(fraction_field(bits) == fraction_field(low));
    if low > 0 {
        lemma_magnitude_order(0, low);
    }
    if low > HUNDRED_BITS {
        lemma_magnitude_order(HUNDRED_BITS, low);
    }
    if low < HUNDRED_BITS {
        lemma_magnitude_order(low, HUNDRED_BITS);
    }
}

// ---------------------------------------------------------------------------
// Percentages
// ---------------------------------------------------------------------------

/// A double brought into the range from 0 to 100; not-a-number stays.
pub open spec fn clamped_bits(bits: u64) -> u64 {
    if is_nan(bits) {
        bits
    } else if value(bits) < 0 {
        0
    } else if value(bits) > 100 * double::one() {
        HUNDRED_BITS
    } else {
        bits
    }
}

/// `rest` is what remains of 100 when `used` is taken away, rounded to a double.
pub open spec fn is_remaining(used: u64, rest: u64) -> bool {
    if is_nan(used) {
        is_nan(rest)
    } else {
        &&& !is_nan(rest)
        &&& !is_negative(rest)
        &&& magnitude(rest) == double::nearest((100 * double::one() - value(used)) as nat, 1)
    }
}

/// A percentage without decimal places, ties to even.
pub open spec fn percent_text(bits: u64) -> Seq<char> {
    if is_nan(bits) {
        "NaN"@
    } else {
        (if is_negative(bits) { "-"@ } else { ""@ }) + text::decimal(
            double::half_even(magnitude(bits), double::one()),
        )
    }
}

/// A twentieth of a percentage: a hundredth of it, times 20, each rounded to a
/// double, then the nearest whole number, halves up.
pub open spec fn filled_cells(bits: u64) -> nat {
    if is_nan(bits) {
        0
    } else {
        let hundredth = double::nearest(magnitude(bits), 100);
        let cells = double::nearest(hundredth * 20, 1);
        (2 * cells + double::one()) / (2 * double::one())
    }
}

/// A bar of 20 cells.
pub open spec fn percent_bar(bits: u64) -> Seq<char> {
    let filled = if filled_cells(bits) < 20 { filled_cells(bits) } else { 20 };
    "["@ + text::repeated("\u{2588}"@, filled) + text::repeated(
        "\u{2591}"@,
        (20 - filled) as nat,
    ) + "]"@
}

/// A percentage: a double from 0 to 100, or not a number.
#[derive(Debug, Clone, Copy, PartialEq, Eq)]
pub struct Percent {
    bits: u64,
}

impl View for Percent {
    type V = u64;

    closed spec fn view(&self) -> u64 {
        self.bits
    }
}

/// Takes a double apart.
fn parts(bits: u64) -> (p: (u64, u32))
    ensures
        p.0 == significand(bits),
        p.1 == scale(bits),
        p.0 < 0x20_0000_0000_0000,
        p.1 <= 0x7fe,
{
    let exponent: u64 = (bits / 0x10_0000_0000_0000) % 0x800;
    let fraction: u64 = bits % 0x10_0000_0000_0000;
    if exponent == 0 {
        (fraction, 0)
    } else {
        (0x10_0000_0000_0000 + fraction, (exponent - 1) as u32)
    }
}

/// Puts a double together.
fn assemble(significand: u64, exponent: u32) -> (bits: u64)
    requires
        0x10_0000_0000_0000 <= significand <= 0x20_0000_0000_0000,
        exponent < 0x7fd,
    ensures
        magnitude(bits) == significand * pow2(exponent as nat),
        !is_nan(bits),
        !is_negative(bits),
{
    if significand == 0x20_0000_0000_0000 {
        let bits: u64 = (exponent as u64 + 2) * 0x10_0000_0000_0000;
        assert(exponent_field(bits) == exponent + 2 && fraction_field(bits) == 0);
        proof {
            lemma_pow2_unfold((exponent + 1) as nat);
            assert(0x10_0000_0000_0000 * pow2((exponent + 1) as nat) == 0x20_0000_0000_0000 * pow2(
                exponent as nat,
            )) by (nonlinear_arith)
                requires
                    pow2((exponent + 1) as nat) == 2 * pow2(exponent as nat),
            ;
        }
        bits
    } else {
        let bits: u64 = (exponent as u64 + 1) * 0x10_0000_0000_0000 + (significand
            - 0x10_0000_0000_0000);
        assert(exponent_field(bits) == exponent + 1 && fraction_field(bits) == significand
            - 0x10_0000_0000_0000);
        bits
    }
}

/// What is far below half a spacing of 100 does not change 100.
proof fn lemma_tiny_is_lost(t: nat)
    requires
        t < pow2(1027),
    ensures
        double::nearest((100 * double::one() - t) as nat, 1) == 100 * double::one(),
{
    let step = pow2(1028);
    let one = double::one();
    double::lemma_small_powers();
    lemma_pow2_adds(1028, 46);
    lemma_pow2_unfold(1028);
    lemma_pow2_pos(1027);
    let whole: nat = 100 * 0x4000_0000_0000;
    assert(100 * one == whole * step) by (nonlinear_arith)
        requires
            one == step * 0x4000_0000_0000,
            whole == 100 * 0x4000_0000_0000,
    ;
    let n = (100 * one - t) as nat;
    assert(one == step * 0x4000_0000_0000);
    double::lemma_spacing(n, 1, 1028);
    if t > 0 {
        assert(n == (whole - 1) * step + (step - t)) by (nonlinear_arith)
            requires
                n == whole * step - t,
        ;
        lemma_fundamental_div_mod_converse(n as int, step as int, whole - 1, step - t);
    } else {
        double::lemma_half_even_bounds(n, step, whole, whole);
    }
    assert(double::half_even(n, step) == whole);
    assert(1 * step == step);
}

impl Percent {
    #[verifier::type_invariant]
    spec fn holds_percent(self) -> bool {
        is_percent(self.bits)
    }

    /// Brings a double, given by its bits, into the range from 0 to 100.
    pub fn clamped(bits: u64) -> (p: Percent)
        ensures
            p@ == clamped_bits(bits),
            is_percent(p@),
    {
        proof {
            lemma_percent_bits(bits);
            lemma_hundred();
            lemma_percent_bits(0);
            lemma_percent_bits(HUNDRED_BITS);
            let low = bits % SIGN_BITS;
            if 0 < low {
                lemma_magnitude_order(0, low);
            }
            if HUNDRED_BITS < low {
                lemma_magnitude_order(HUNDRED_BITS, low);
            }
        }
        if bits % SIGN_BITS > 0x7ff0_0000_0000_0000 || bits == SIGN_BITS {
            Percent { bits }
        } else if bits > SIGN_BITS {
            Percent { bits: 0 }
        } else if bits > HUNDRED_BITS {
            Percent { bits: HUNDRED_BITS }
        } else {
            Percent { bits }
        }
    }

    /// Takes a double, given by its bits, if it is from 0 to 100.
    pub fn in_range(bits: u64) -> (p: Option<Percent>)
        ensures
            p is Some <==> in_percent_range(bits),
            p is Some ==> p->0@ == bits,
    {
        proof {
            lemma_percent_bits(bits);
        }
        if bits <= HUNDRED_BITS || bits == SIGN_BITS {
            Some(Percent { bits })
        } else {
            None
        }
    }

    /// The bits of the double.
    pub fn to_bits(&self) -> (bits: u64)
        ensures
            bits == self@,
            is_percent(bits),
    {
        proof {
            use_type_invariant(self);
        }
        self.bits
    }

    /// Tells whether the percentage is not a number.
    fn nan(&self) -> (yes: bool)
        ensures
            yes == is_nan(self@),
    {
        proof {
            lemma_percent_bits(self.bits);
        }
        self.bits % SIGN_BITS > 0x7ff0_0000_0000_0000
    }

    /// What remains of 100 when this percentage is taken away.
    pub fn remaining(&self) -> (rest: Percent)
        ensures
            is_remaining(self@, rest@),
            is_percent(rest@),
    {
        proof {
            use_type_invariant(self);
            lemma_percent_bits(self.bits);
            lemma_percent_bits(HUNDRED_BITS);
            lemma_percent_bits(0);
            lemma_hundred();
        }
        if self.nan() {
            return *self;
        }
        let (m, k) = parts(self.bits);
        let ghost one = double::one();
        let ghost used = magnitude(self.bits);
        let ghost target = double::nearest((100 * one - used) as nat, 1);
        if k < 956 {
            proof {
                lemma_pow2_adds(53, k as nat);
                lemma_pow2_strictly_increases((53 + k) as nat, 1027);
                lemma_pow2_pos(k as nat);
                double::lemma_small_powers();
                assert(m * pow2(k as nat) < pow2((53 + k) as nat)) by (nonlinear_arith)
                    requires
                        m < 0x20_0000_0000_0000,
                        pow2((53 + k) as nat) == 0x20_0000_0000_0000 * pow2(k as nat),
                        pow2(k as nat) > 0,
                ;
                lemma_tiny_is_lost(used);
            }
            return Percent { bits: HUNDRED_BITS };
        }
        proof {
            assert(exponent_field(self.bits) == k + 1);
            assert(k <= 1028);
            lemma_pow2_adds(k as nat, (1074 - k) as nat);
            if k > 956 {
                lemma_pow2_strictly_increases((1074 - k) as nat, 118);
            }
            lemma_pow2_adds(64, 54);
            lemma_pow2_adds(53, 1);
            double::lemma_small_powers();
            lemma_pow2_pos((1074 - k) as nat);
            lemma_pow2_pos(k as nat);
            assert(1 * pow2((1074 - k) as nat) == pow2((1074 - k) as nat));
        }
        let unit: u128 = double::times_power(1, 1074 - k);
        let ghost up = pow2(k as nat);
        proof {
            assert(100 * one == (100 * unit) * up) by (nonlinear_arith)
                requires
                    one == up * unit,
            ;
            assert(m <= 100 * unit) by (nonlinear_arith)
                requires
                    m * up <= (100 * unit) * up,
                    up > 0,
            ;
            assert(100 * one - used == (100 * unit - m) * up) by (nonlinear_arith)
                requires
                    100 * one == (100 * unit) * up,
                    used == m * up,
            ;
        }
        let left: u128 = 100 * unit - m as u128;
        if left == 0 {
            proof {
                assert(0 * up == 0);
                double::lemma_short_is_exact(0, 0);
                assert(0 * pow2(0) == 0);
            }
            return Percent { bits: 0 };
        }
        let r = double::round_quotient(left, 1);
        proof {
            double::lemma_rounding_at_scale(
                left as nat,
                1,
                r.significand as nat,
                r.exponent as int,
                k as nat,
            );
        }
        let bits: u64 = assemble(r.significand, (k as i32 + r.exponent) as u32);
        proof {
            assert(magnitude(bits) == target);
            assert(100 * one - used <= 100 * one);
            double::lemma_nearest_below_double((100 * one - used) as nat, 100, 1074);
        }
        Percent { bits }
    }

    /// Tells whether this percentage is at most another.
    pub fn is_at_most(&self, other: &Percent) -> (yes: bool)
        ensures
            yes == at_most(self@, other@),
    {
        proof {
            use_type_invariant(self);
            use_type_invariant(other);
            lemma_percent_bits(self.bits);
            lemma_percent_bits(other.bits);
            lemma_hundred();
            let (a, b) = (self.bits % SIGN_BITS, other.bits % SIGN_BITS);
            if a < b {
                lemma_magnitude_order(a, b);
            }
            if b < a {
                lemma_magnitude_order(b, a);
            }
        }
        !self.nan() && !other.nan() && self.bits % SIGN_BITS <= other.bits % SIGN_BITS
    }

    /// Tells whether this percentage stands before another in the total order.
    pub fn stands_before(&self, other: &Percent) -> (yes: bool)
        ensures
            yes == (order_key(self@) < order_key(other@)),
    {
        let (a, b) = (self.bits, other.bits);
        if a >= SIGN_BITS {
            b < SIGN_BITS || a > b
        } else {
            b < SIGN_BITS && a < b
        }
    }

    /// The percentage without decimal places.
    pub fn text(&self) -> (out: String)
        ensures
            out@ == percent_text(self@),
    {
        proof {
            use_type_invariant(self);
            lemma_percent_bits(self.bits);
            lemma_hundred();
        }
        if self.nan() {
            return "NaN".to_string();
        }
        let (m, k) = parts(self.bits);
        let mut out = if self.bits >= SIGN_BITS {
            "-".to_string()
        } else {
            "".to_string()
        };
        let ghost all = magnitude(self.bits);
        if k <= 1010 {
            proof {
                lemma_small_magnitude(m as nat, k as nat, 1010);
                lemma_pow2_adds(53, 1010);
                lemma_pow2_strictly_increases(1063, 1073);
                lemma_pow2_unfold(1074);
                lemma_basic_div(all as int, double::one() as int);
                lemma_small_mod(all, double::one());
            }
            out.append(text::decimal_text(0).as_str());
        } else {
            proof {
                assert(exponent_field(self.bits) == k + 1);
                lemma_pow2_adds(k as nat, (1074 - k) as nat);
                lemma_pow2_strictly_increases((1074 - k) as nat, 64);
                double::lemma_small_powers();
                lemma_pow2_pos((1074 - k) as nat);
                lemma_pow2_pos(k as nat);
                assert(1 * pow2((1074 - k) as nat) == pow2((1074 - k) as nat));
            }
            let unit: u128 = double::times_power(1, 1074 - k);
            proof {
                double::lemma_half_even_cancel(m as nat, unit as nat, pow2(k as nat));
                assert(unit * pow2(k as nat) == double::one()) by (nonlinear_arith)
                    requires
                        double::one() == pow2(k as nat) * unit,
                ;
            }
            out.append(text::decimal_text(double::round_half_even(m as u128, unit)).as_str());
        }
        out
    }

    /// The number of cells of a bar of 20 that the percentage fills.
    fn cells(&self) -> (filled: u128)
        ensures
            filled == filled_cells(self@),
    {
        proof {
            use_type_invariant(self);
            lemma_percent_bits(self.bits);
            lemma_hundred();
            double::lemma_small_powers();
        }
        if self.nan() {
            return 0;
        }
        let (m, k) = parts(self.bits);
        let ghost one = double::one();
        let ghost all = magnitude(self.bits);
        let ghost hundredth = double::nearest(all, 100);
        let ghost cells = double::nearest(hundredth * 20, 1);
        if k <= 1000 {
            proof {
                lemma_small_magnitude(m as nat, k as nat, 1000);
                lemma_pow2_adds(53, 1000);
                double::lemma_nearest_below_power(all, 100, 1053);
                lemma_pow2_adds(1053, 5);
                lemma2_to64();
                double::lemma_nearest_below_power(hundredth * 20, 1, 1058);
                lemma_pow2_strictly_increases(1058, 1073);
                lemma_pow2_unfold(1074);
                lemma_basic_div((2 * cells + one) as int, (2 * one) as int);
            }
            return 0;
        }
        let a = double::round_quotient(m as u128, 100);
        let b = double::round_quotient(a.significand as u128 * 20, 1);
        let exponent: i32 = k as i32 + a.exponent + b.exponent;
        let ghost top = pow2(exponent as nat);
        proof {
            let at = (k + a.exponent) as nat;
            double::lemma_rounding_at_scale(
                m as nat,
                100,
                a.significand as nat,
                a.exponent as int,
                k as nat,
            );
            assert(hundredth * 20 == (a.significand * 20) * pow2(at)) by (nonlinear_arith)
                requires
                    hundredth == a.significand * pow2(at),
            ;
            double::lemma_rounding_at_scale(
                (a.significand * 20) as nat,
                1,
                b.significand as nat,
                b.exponent as int,
                at,
            );
            assert(cells == b.significand * top);
            // The bar is not overfull, so the exponent is small.
            double::lemma_nearest_below_power(all, 100, 1074);
            lemma_pow2_adds(1074, 5);
            lemma2_to64();
            double::lemma_nearest_below_power(hundredth * 20, 1, 1079);
            lemma_pow2_pos(exponent as nat);
            if exponent > 1027 {
                lemma_pow2_strictly_increases(1027, exponent as nat);
                lemma_pow2_adds(1027, 52);
                assert(false) by (nonlinear_arith)
                    requires
                        b.significand * top <= pow2(1079),
                        b.significand >= 0x10_0000_0000_0000,
                        pow2(1079) == pow2(1027) * 0x10_0000_0000_0000,
                        pow2(1027) < top,
                ;
            }
        }
        if exponent <= 1010 {
            proof {
                if exponent < 1010 {
                    lemma_pow2_strictly_increases(exponent as nat, 1010);
                }
                assert(cells <= 0x20_0000_0000_0000 * pow2(1010)) by (nonlinear_arith)
                    requires
                        cells == b.significand * top,
                        b.significand <= 0x20_0000_0000_0000,
                        top <= pow2(1010),
                ;
                lemma_pow2_adds(53, 1010);
                lemma_pow2_strictly_increases(1063, 1073);
                lemma_pow2_unfold(1074);
                lemma_basic_div((2 * cells + one) as int, (2 * one) as int);
            }
            return 0;
        }
        proof {
            lemma_pow2_adds(exponent as nat, (1074 - exponent) as nat);
            lemma_pow2_strictly_increases((1074 - exponent) as nat, 64);
            lemma_pow2_pos((1074 - exponent) as nat);
            assert(1 * pow2((1074 - exponent) as nat) == pow2((1074 - exponent) as nat));
        }
        let unit: u128 = double::times_power(1, (1074 - exponent) as u32);
        let filled: u128 = (2 * b.significand as u128 + unit) / (2 * unit);
        proof {
            lemma_pow2_pos(1074);
            let (n, d) = ((2 * b.significand + unit) as nat, (2 * unit) as nat);
            assert(n * (2 * one) == (2 * cells + one) * d) by (nonlinear_arith)
                requires
                    n == 2 * b.significand + unit,
                    d == 2 * unit,
                    cells == b.significand * top,
                    one == top * unit,
            ;
            double::lemma_same_fraction(n, d, 2 * cells + one, 2 * one);
        }
        filled
    }

    /// The percentage as a bar of 20 cells.
    pub fn bar(&self) -> (out: String)
        ensures
            out@ == percent_bar(self@),
    {
        let cells: u128 = self.cells();
        let filled: usize = if cells < 20 {
            cells as usize
        } else {
            20
        };
        let mut out = "[".to_string();
        out.append(text::repeat("\u{2588}", filled).as_str());
        out.append(text::repeat("\u{2591}", 20 - filled).as_str());
        out.append("]");
        out
    }
}

/// A bound on a double by its exponent.
proof fn lemma_small_magnitude(m: nat, k: nat, limit: nat)
    requires
        m < 0x20_0000_0000_0000,
        k <= limit,
    ensures
        m * pow2(k) < 0x20_0000_0000_0000 * pow2(limit),
        pow2(53) == 0x20_0000_0000_0000,
{
    double::lemma_small_powers();
    lemma_pow2_pos(k);
    if k < limit {
        lemma_pow2_strictly_increases(k, limit);
    }
    assert(m * pow2(k) < 0x20_0000_0000_0000 * pow2(limit)) by (nonlinear_arith)
        requires
            m < 0x20_0000_0000_0000,
            0 < pow2(k) <= pow2(limit),
    ;
}

// ---------------------------------------------------------------------------
// Laws
// ---------------------------------------------------------------------------

/// A share of a limit that is used, brought into range, and what remains of it lie
/// from 0 to 100, unless what was reported is not a number: then neither is one.
pub proof fn law_shares_stay_in_range(reported: u64, rest: u64)
    requires
        is_remaining(clamped_bits(reported), rest),
    ensures
        is_nan(reported) <==> is_nan(clamped_bits(reported)),
        is_nan(reported) <==> is_nan(rest),
        !is_nan(reported) ==> in_percent_range(clamped_bits(reported)) && in_percent_range(rest),
{
    lemma_percent_bits(reported);
    lemma_percent_bits(0);
    lemma_percent_bits(HUNDRED_BITS);
    lemma_hundred();
    if !is_nan(reported) {
        let used = clamped_bits(reported);
        double::lemma_nearest_below_double((100 * double::one() - value(used)) as nat, 100, 1074);
    }
}

/// The more of a limit is used, the less of it remains.
pub proof fn law_using_more_leaves_less(less: u64, more: u64, rest_of_less: u64, rest_of_more: u64)
    requires
        in_percent_range(less),
        in_percent_range(more),
        at_most(less, more),
        is_remaining(less, rest_of_less),
        is_remaining(more, rest_of_more),
    ensures
        at_most(rest_of_more, rest_of_less),
{
    double::lemma_nearest_monotone(
        (100 * double::one() - value(more)) as nat,
        (100 * double::one() - value(less)) as nat,
        1,
    );
}

/// What the total order of doubles puts before is not larger, among percentages.
pub proof fn law_order_agrees_with_value(a: u64, b: u64)
    requires
        in_percent_range(a),
        in_percent_range(b),
        order_key(a) <= order_key(b),
    ensures
        at_most(a, b),
{
    lemma_percent_bits(a);
    lemma_percent_bits(b);
    if a < b && b < SIGN_BITS {
        lemma_magnitude_order(a, b);
    }
}

/// Used and remaining shares add up to 100, but for what rounding to a double takes away
/// or adds: less than 2 to the power of -46.
pub proof fn law_shares_add_up(used: u64, rest: u64)
    requires
        in_percent_range(used),
        is_remaining(used, rest),
    ensures
        -pow2(1028) < value(used) + value(rest) - 100 * double::one() < pow2(1028),
{
    let left = (100 * double::one() - value(used)) as nat;
    double::lemma_nearest_error(left);
    let e = double::lemma_spacing_shape(left, 1);
    lemma_pow2_pos(e);
    lemma2_to64();
    lemma_pow2_adds(1074, 7);
    lemma_pow2_adds(1029, 52);
    double::lemma_small_powers();
    if e > 1028 {
        if e > 1029 {
            lemma_pow2_strictly_increases(1029, e);
        }
        assert(false) by (nonlinear_arith)
            requires
                1 * pow2(e) * 0x10_0000_0000_0000 <= left,
                left <= 100 * pow2(1074),
                pow2(e) >= pow2(1029),
                pow2(1081) == pow2(1074) * 128,
                pow2(1081) == pow2(1029) * 0x10_0000_0000_0000,
                pow2(1074) > 0,
        ;
    } else if e < 1028 {
        lemma_pow2_strictly_increases(e, 1028);
    }
    lemma_pow2_pos(1028);
}

/// A percentage is written as the whole number nearest to it, with a sign just where its
/// own is negative.
pub proof fn law_percentages_are_written_to_the_nearest(bits: u64) -> (whole: nat)
    requires
        in_percent_range(bits),
    ensures
        whole <= 100,
        percent_text(bits) == (if is_negative(bits) { seq!['-'] } else { Seq::empty() })
            + text::decimal(whole),
        -(double::one() as int) <= 2 * (whole * double::one() - magnitude(bits)) <= double::one(),
        2 * (whole * double::one() - magnitude(bits)) == double::one() || 2 * (magnitude(bits)
            - whole * double::one()) == double::one() ==> whole % 2 == 0,
{
    let one = double::one();
    let whole = double::half_even(magnitude(bits), one);
    lemma_pow2_pos(1074);
    double::lemma_half_even_error(magnitude(bits), one);
    double::lemma_half_even_bounds(magnitude(bits), one, 0, 100);
    reveal_strlit("-");
    reveal_strlit("");
    assert("-"@ =~= seq!['-']);
    assert(""@ =~= Seq::empty());
    whole
}

/// The bar has twenty cells in brackets, of which the first ones are filled: none of them
/// at 0, all at 100, and never fewer where the percentage is larger.
pub proof fn law_bars_fill_up(less: u64, more: u64)
    requires
        in_percent_range(less),
        in_percent_range(more),
        at_most(less, more),
    ensures
        percent_bar(less) == seq!['['] + text::repeated(seq!['\u{2588}'], filled_cells(less))
            + text::repeated(seq!['\u{2591}'], (20 - filled_cells(less)) as nat) + seq![']'],
        filled_cells(less) <= filled_cells(more) <= 20,
        value(less) == 0 ==> filled_cells(less) == 0,
        value(more) == 100 * double::one() ==> filled_cells(more) == 20,
{
    let one = double::one();
    lemma_pow2_pos(1074);
    lemma_percent_bits(less);
    lemma_percent_bits(more);
    lemma_hundred();
    let (a, b) = (magnitude(less), magnitude(more));
    assert(a <= b <= 100 * one);
    double::lemma_nearest_monotone(a, b, 100);
    double::lemma_nearest_monotone(b, 100 * one, 100);
    double::lemma_nearest_of_multiple(one, 100);
    double::lemma_short_is_exact(1, 1074);
    double::lemma_short_is_exact(20, 1074);
    assert(1 * one == one);
    let (x, y) = (double::nearest(a, 100), double::nearest(b, 100));
    assert(x <= y <= one);
    double::lemma_nearest_monotone(x * 20, y * 20, 1);
    double::lemma_nearest_monotone(y * 20, one * 20, 1);
    assert(one * 20 == 20 * one);
    let (p, q) = (double::nearest(x * 20, 1), double::nearest(y * 20, 1));
    assert(p <= q <= 20 * one);
    lemma_div_is_ordered((2 * p + one) as int, (2 * q + one) as int, (2 * one) as int);
    lemma_div_is_ordered((2 * q + one) as int, (41 * one) as int, (2 * one) as int);
    lemma_fundamental_div_mod_converse((41 * one) as int, (2 * one) as int, 20, one as int);
    if a == 0 {
        double::lemma_nearest_of_zero(100);
        double::lemma_nearest_of_zero(1);
        lemma_fundamental_div_mod_converse(one as int, (2 * one) as int, 0, one as int);
    }
    reveal_strlit("[");
    reveal_strlit("]");
    reveal_strlit("\u{2588}");
    reveal_strlit("\u{2591}");
    assert("["@ =~= seq!['[']);
    assert("]"@ =~= seq![']']);
    assert("\u{2588}"@ =~= seq!['\u{2588}']);
    assert("\u{2591}"@ =~= seq!['\u{2591}']);
}

/// In the total order, doubles with a sign come before those without; of two without one the
/// larger pattern of bits comes last, and of two with one it comes first.
pub proof fn law_total_order(a: u64, b: u64)
    ensures
        is_negative(a) && !is_negative(b) ==> order_key(a) < order_key(b),
        !is_negative(a) && !is_negative(b) ==> (order_key(a) < order_key(b) <==> a < b),
        is_negative(a) && is_negative(b) ==> (order_key(a) < order_key(b) <==> a > b),
{
}

/// A comparison with what is not a number fails; any other compares the values.
pub proof fn law_comparison(a: u64, b: u64)
    ensures
        is_nan(a) || is_nan(b) ==> !at_most(a, b),
        !is_nan(a) && !is_nan(b) ==> (at_most(a, b) <==> value(a) <= value(b)),
        in_percent_range(a) && in_percent_range(b) ==> at_most(a, b) || at_most(b, a),
{
}

/// The bar is filled to the nearest of its twenty cells, but for what rounding adds or takes
/// away: less than 2 to the power of -42 of a percent.
pub proof fn law_bars_are_filled_to_the_nearest_cell(bits: u64)
    requires
        in_percent_range(bits),
    ensures
        -(5 * double::one() + pow2(1032)) <= 2 * (5 * filled_cells(bits) * double::one()
            - magnitude(bits)) <= 5 * double::one() + pow2(1032),
{
    let one = double::one();
    let share = magnitude(bits);
    lemma_percent_bits(bits);
    lemma_hundred();
    assert(share <= 100 * one);
    lemma_pow2_pos(1074);
    let hundredth = double::nearest(share, 100);
    let cells = double::nearest(hundredth * 20, 1);
    let filled = filled_cells(bits);
    // A hundredth is at most one, and so its neighbours are close.
    double::lemma_quotient_error(share, 100);
    lemma_spacing_below(share, 100, 1074);
    double::lemma_nearest_monotone(share, 100 * one, 100);
    double::lemma_nearest_of_multiple(one, 100);
    double::lemma_short_is_exact(1, 1074);
    assert(1 * one == one && one * 100 == 100 * one);
    assert(hundredth <= one);
    double::lemma_nearest_error(hundredth * 20);
    lemma2_to64();
    lemma_pow2_adds(1074, 5);
    lemma_spacing_below(hundredth * 20, 1, 1079);
    lemma_pow2_adds(1022, 10);
    lemma_pow2_adds(1027, 5);
    lemma_fundamental_div_mod((2 * cells + one) as int, (2 * one) as int);
    let rest = (2 * cells + one) % (2 * one);
    assert(2 * cells + one == 2 * (filled * one) + rest) by (nonlinear_arith)
        requires
            2 * cells + one == (2 * one) * filled + rest,
    ;
    assert(5 * filled * one == 5 * (filled * one)) by (nonlinear_arith);
    assert(-one <= 2 * cells - 2 * (filled * one) <= one);
}

/// Below a power of two, neighbouring doubles are closer than that power over 2 to the power
/// of 52.
proof fn lemma_spacing_below(num: nat, den: nat, exponent: nat)
    requires
        den > 0,
        exponent >= 52,
        num <= den * pow2(exponent),
    ensures
        double::spacing(num, den) <= pow2((exponent - 52) as nat),
{
    let e = double::lemma_spacing_shape(num, den);
    let limit = (exponent - 52) as nat;
    lemma_pow2_adds(limit, 52);
    double::lemma_small_powers();
    lemma_pow2_pos(e);
    if e > limit {
        lemma_pow2_strictly_increases(limit, e);
        assert(false) by (nonlinear_arith)
            requires
                den * pow2(e) * 0x10_0000_0000_0000 <= num,
                num <= den * pow2(exponent),
                pow2(exponent) == pow2(limit) * 0x10_0000_0000_0000,
                pow2(limit) < pow2(e),
                den > 0,
        ;
    } else if e < limit {
        lemma_pow2_strictly_increases(e, limit);
    }
}

/// What is not a number is written so, and its bar is empty.
pub proof fn law_not_a_number(bits: u64)
    requires
        is_nan(bits),
    ensures
        percent_text(bits) == seq!['N', 'a', 'N'],
        percent_bar(bits) == seq!['['] + text::repeated(seq!['\u{2591}'], 20) + seq![']'],
{
    reveal_strlit("NaN");
    reveal_strlit("[");
    reveal_strlit("]");
    reveal_strlit("\u{2591}");
    assert("NaN"@ =~= seq!['N', 'a', 'N']);
    assert("\u{2591}"@ =~= seq!['\u{2591}']);
    assert(text::repeated("\u{2588}"@, 0) =~= Seq::empty());
    assert(percent_bar(bits) =~= seq!['['] + text::repeated(seq!['\u{2591}'], 20) + seq![']']);
}

} // verus!
