//! Figures of token usage as short texts.

use crate::double;
use crate::text;
use crate::usage::UsageSummaryOutput;
use vstd::arithmetic::div_mod::*;
use vstd::arithmetic::power2::*;
use vstd::prelude::*;

verus! {

// ---------------------------------------------------------------------------
// Compact numbers
// ---------------------------------------------------------------------------

/// The magnitude of a whole number, rounded to a double.
pub open spec fn rounded_magnitude(n: int) -> nat {
    double::nearest((if n < 0 { -n } else { n }) as nat, 1)
}

/// The magnitude of the quotient of two whole numbers, in units: both are rounded to
/// doubles, and so is the quotient.
pub open spec fn quotient_units(value: int, divisor: int) -> nat {
    double::nearest(rounded_magnitude(value) * double::one(), rounded_magnitude(divisor))
}

/// A number of tenths with one decimal place.
pub open spec fn tenths_text(tenths: nat) -> Seq<char> {
    text::decimal(tenths / 10) + "."@ + text::decimal(tenths % 10)
}

/// The magnitude of a quotient, of `units` units: without decimal places where it is
/// whole, but for less than the distance from one to the next double, or where it
/// is `large`; else with one.
pub open spec fn scaled_text(units: nat, large: bool) -> Seq<char> {
    let one = double::one();
    if large || (units % one) * 0x10_0000_0000_0000 < one {
        text::decimal(double::half_even(units, one))
    } else {
        tenths_text(double::half_even(10 * units, one))
    }
}

/// The quotient of two whole numbers as a double, and a suffix: from 100 on without
/// decimal places.
pub open spec fn compact_text(value: int, divisor: int, suffix: Seq<char>) -> Seq<char> {
    if divisor == 0 {
        (if value == 0 {
            "NaN"@
        } else if value < 0 {
            "-inf"@
        } else {
            "inf"@
        }) + suffix
    } else {
        let negative = (value < 0) != (divisor < 0);
        let units = quotient_units(value, divisor);
        (if negative {
            "-"@
        } else {
            ""@
        }) + scaled_text(units, !negative && units >= 100 * double::one()) + suffix
    }
}

/// Rounds the magnitude of a whole number to a double.
pub fn round_magnitude(n: i64) -> (rounded: u128)
    ensures
        rounded == rounded_magnitude(n as int),
        rounded <= 0x8000_0000_0000_0000,
        n != 0 ==> rounded > 0,
{
    let size: u128 = if n < 0 {
        (-(n as i128)) as u128
    } else {
        n as u128
    };
    proof {
        lemma2_to64();
        lemma2_to64_rest();
        double::lemma_nearest_below_power(size as nat, 1, 63);
        if size > 0 {
            double::lemma_short_is_exact(1, 0);
            double::lemma_nearest_monotone(1, size as nat, 1);
        }
    }
    double::nearest_integer(size)
}

/// Writes a number of tenths.
fn format_tenths(tenths: u128) -> (out: String)
    ensures
        out@ == tenths_text(tenths as nat),
{
    let mut out = text::decimal_text(tenths / 10);
    out.append(".");
    out.append(text::decimal_text(tenths % 10).as_str());
    out
}

/// Writes the magnitude of a quotient; `negative` quotients are never large.
fn format_scaled(scaled: double::Fraction, negative: bool, Ghost(units): Ghost<nat>) -> (out: String)
    requires
        double::is_units(scaled, units),
    ensures
        out@ == scaled_text(units, !negative && units >= 100 * double::one()),
{
    let ghost one = double::one();
    let (num, den) = (scaled.num, scaled.den);
    proof {
        lemma_pow2_pos(1074);
        double::lemma_same_fraction(num as nat, den as nat, units, one);
        assert((10 * num) * one == (10 * units) * den) by (nonlinear_arith)
            requires
                num * one == units * den,
        ;
        double::lemma_same_fraction((10 * num) as nat, den as nat, 10 * units, one);
    }
    let rest: u128 = num % den;
    proof {
        let part = (den - 1) / 0x10_0000_0000_0000;
        assert((rest * 0x10_0000_0000_0000 < den) == (rest <= part));
    }
    if (!negative && num >= 100 * den) || rest <= (den - 1) / 0x10_0000_0000_0000 {
        text::decimal_text(double::round_half_even(num, den))
    } else {
        format_tenths(double::round_half_even(10 * num, den))
    }
}

/// The quotient of two whole numbers, and a suffix.
pub fn format_compact_number(value: i64, divisor: i64, suffix: &str) -> (out: String)
    ensures
        out@ == compact_text(value as int, divisor as int, suffix@),
{
    if divisor == 0 {
        let mut out = if value == 0 {
            "NaN".to_string()
        } else if value < 0 {
            "-inf".to_string()
        } else {
            "inf".to_string()
        };
        out.append(suffix);
        return out;
    }
    let negative = (value < 0) != (divisor < 0);
    let mut out = if negative {
        "-".to_string()
    } else {
        "".to_string()
    };
    let ghost units = quotient_units(value as int, divisor as int);
    let scaled = if value == 0 {
        proof {
            double::lemma_short_is_exact(0, 0);
            assert(0 * double::one() == 0) by (nonlinear_arith);
            assert(0 * pow2(0) == 0) by (nonlinear_arith);
            let b = rounded_magnitude(divisor as int);
            double::lemma_short_is_exact(1, 0);
            lemma2_to64();
            double::lemma_nearest_monotone(
                1,
                (if divisor < 0 {
                    -divisor
                } else {
                    divisor as int
                }) as nat,
                1,
            );
            double::lemma_nearest_of_zero(b);
        }
        double::Fraction { num: 0, den: 1 }
    } else {
        double::divide(round_magnitude(value), round_magnitude(divisor))
    };
    out.append(format_scaled(scaled, negative, Ghost(units)).as_str());
    out.append(suffix);
    out
}

/// A number of tokens: from a thousand on in thousands, millions or billions;
/// negative numbers count as zero.
pub open spec fn tokens_text(value: int) -> Seq<char> {
    if value >= 1_000_000_000 {
        compact_text(value, 1_000_000_000, "B"@)
    } else if value >= 1_000_000 {
        compact_text(value, 1_000_000, "M"@)
    } else if value >= 1_000 {
        compact_text(value, 1_000, "K"@)
    } else if value >= 0 {
        text::decimal(value as nat)
    } else {
        "0"@
    }
}

/// A number of tokens.
pub fn format_tokens_compact(value: i64) -> (out: String)
    ensures
        out@ == tokens_text(value as int),
{
    if value >= 1_000_000_000 {
        format_compact_number(value, 1_000_000_000, "B")
    } else if value >= 1_000_000 {
        format_compact_number(value, 1_000_000, "M")
    } else if value >= 1_000 {
        format_compact_number(value, 1_000, "K")
    } else if value >= 0 {
        text::decimal_text(value as u128)
    } else {
        "0".to_string()
    }
}

/// A number of tokens; a dash where it is not known.
pub open spec fn maybe_tokens(value: Option<i64>) -> Seq<char> {
    match value {
        Some(tokens) => tokens_text(tokens as int),
        None => "-"@,
    }
}

/// A number of tokens; a dash where it is not known.
pub fn format_optional_tokens(value: Option<i64>) -> (out: String)
    ensures
        out@ == maybe_tokens(value),
{
    match value {
        Some(tokens) => format_tokens_compact(tokens),
        None => "-".to_string(),
    }
}

// ---------------------------------------------------------------------------
// Spans of time
// ---------------------------------------------------------------------------

/// A number of seconds: hours and minutes where there are any, else seconds; a dash
/// where it is not known, and nothing below zero.
pub open spec fn maybe_seconds(value: Option<i64>) -> Seq<char> {
    match value {
        Some(given) => {
            let seconds: int = if given < 0 {
                0
            } else {
                given as int
            };
            let hours = seconds / 3_600;
            let minutes = seconds % 3_600 / 60;
            if hours > 0 && minutes > 0 {
                text::decimal(hours as nat) + "h "@ + text::decimal(minutes as nat) + "m"@
            } else if hours > 0 {
                text::decimal(hours as nat) + "h"@
            } else if minutes > 0 {
                text::decimal(minutes as nat) + "m"@
            } else {
                text::decimal(seconds as nat) + "s"@
            }
        },
        None => "-"@,
    }
}

/// A number of seconds.
pub fn format_optional_seconds(value: Option<i64>) -> (out: String)
    ensures
        out@ == maybe_seconds(value),
{
    let seconds: i64 = match value {
        Some(given) => if given < 0 {
            0
        } else {
            given
        },
        None => return "-".to_string(),
    };
    let hours: i64 = seconds / 3_600;
    let minutes: i64 = seconds % 3_600 / 60;
    if hours > 0 {
        let mut out = text::decimal_text(hours as u128);
        if minutes > 0 {
            out.append("h ");
            out.append(text::decimal_text(minutes as u128).as_str());
            out.append("m");
        } else {
            out.append("h");
        }
        out
    } else if minutes > 0 {
        let mut out = text::decimal_text(minutes as u128);
        out.append("m");
        out
    } else {
        let mut out = text::decimal_text(seconds as u128);
        out.append("s");
        out
    }
}

// ---------------------------------------------------------------------------
// The summary
// ---------------------------------------------------------------------------

/// The current streak of days and the longest.
pub open spec fn streak_text(current: Option<i64>, longest: Option<i64>) -> Seq<char> {
    let days = match current {
        Some(n) => text::signed_decimal(n as int) + "d"@,
        None => "-"@,
    };
    match longest {
        Some(best) => days + " (best "@ + text::signed_decimal(best as int) + "d)"@,
        None => days,
    }
}

/// The summary of token usage.
pub open spec fn summary_text(summary: UsageSummaryOutput) -> Seq<char> {
    "Lifetime "@ + maybe_tokens(summary.lifetime_tokens) + " · Peak "@ + maybe_tokens(
        summary.peak_daily_tokens,
    ) + " · Streak "@ + streak_text(summary.current_streak_days, summary.longest_streak_days)
        + " · Longest task "@ + maybe_seconds(summary.longest_running_turn_sec)
}

/// The current streak of days and the longest.
fn format_streak(current: Option<i64>, longest: Option<i64>) -> (out: String)
    ensures
        out@ == streak_text(current, longest),
{
    let mut out = match current {
        Some(n) => {
            let mut days = text::signed_decimal_text(n);
            days.append("d");
            days
        },
        None => "-".to_string(),
    };
    if let Some(best) = longest {
        out.append(" (best ");
        out.append(text::signed_decimal_text(best).as_str());
        out.append("d)");
    }
    out
}

/// The summary of token usage.
pub fn usage_summary_line(summary: &UsageSummaryOutput) -> (line: String)
    ensures
        line@ == summary_text(*summary),
{
    let mut line = "Lifetime ".to_string();
    line.append(format_optional_tokens(summary.lifetime_tokens).as_str());
    line.append(" · Peak ");
    line.append(format_optional_tokens(summary.peak_daily_tokens).as_str());
    line.append(" · Streak ");
    line.append(
        format_streak(summary.current_streak_days, summary.longest_streak_days).as_str(),
    );
    line.append(" · Longest task ");
    line.append(format_optional_seconds(summary.longest_running_turn_sec).as_str());
    line
}

// ---------------------------------------------------------------------------
// Laws
// ---------------------------------------------------------------------------

/// A multiple of the divisor is written as the whole number that it is.
pub proof fn law_multiples_are_written_whole(times: nat, divisor: nat, suffix: Seq<char>)
    requires
        0 < divisor <= 0x20_0000_0000_0000,
        times * divisor <= 0x20_0000_0000_0000,
    ensures
        compact_text((times * divisor) as int, divisor as int, suffix) == text::decimal(times)
            + suffix,
{
    let one = double::one();
    lemma2_to64();
    lemma_pow2_pos(1074);
    double::lemma_short_is_exact(times * divisor, 0);
    double::lemma_short_is_exact(divisor, 0);
    assert((times * divisor) * 1 == times * divisor);
    assert(divisor * 1 == divisor);
    assert(times <= 0x20_0000_0000_0000) by (nonlinear_arith)
        requires
            times * divisor <= 0x20_0000_0000_0000,
            divisor >= 1,
    ;
    double::lemma_nearest_of_multiple(times * one, divisor);
    double::lemma_short_is_exact(times, 1074);
    assert((times * divisor) * one == (times * one) * divisor) by (nonlinear_arith);
    let units = quotient_units((times * divisor) as int, divisor as int);
    assert(units == times * one);
    lemma_mod_multiples_basic(times as int, one as int);
    lemma_div_multiples_vanish(times as int, one as int);
    assert(one * times == times * one) by (nonlinear_arith);
    reveal_strlit("");
    assert(""@ + text::decimal(times) =~= text::decimal(times));
    assert(0 * 0x10_0000_0000_0000 == 0);
}

/// A span of hours, minutes and seconds is told in hours and minutes, the seconds left out,
/// unless it is less than a minute; a part that is zero is left out.
pub proof fn law_spans_are_told_in_hours_and_minutes(hours: int, minutes: int, seconds: int)
    requires
        0 <= hours,
        0 <= minutes < 60,
        0 <= seconds < 60,
        3_600 * hours + 60 * minutes + seconds <= i64::MAX,
    ensures
        ({
            let told = maybe_seconds(Some((3_600 * hours + 60 * minutes + seconds) as i64));
            &&& hours > 0 && minutes > 0 ==> told == text::decimal(hours as nat) + ("h "@ + (
            text::decimal(minutes as nat) + "m"@))
            &&& hours > 0 && minutes == 0 ==> told == text::decimal(hours as nat).push('h')
            &&& hours == 0 && minutes > 0 ==> told == text::decimal(minutes as nat).push('m')
            &&& hours == 0 && minutes == 0 ==> told == text::decimal(seconds as nat).push('s')
        }),
{
    reveal_strlit("h");
    reveal_strlit("m");
    reveal_strlit("s");
    let all = 3_600 * hours + 60 * minutes + seconds;
    assert(all / 3_600 == hours);
    assert(all % 3_600 / 60 == minutes);
    let (h, m, s) = (
        text::decimal(hours as nat),
        text::decimal(minutes as nat),
        text::decimal(seconds as nat),
    );
    assert(h + "h "@ + m + "m"@ =~= h + ("h "@ + (m + "m"@)));
    assert(h + "h"@ =~= h.push('h'));
    assert(m + "m"@ =~= m.push('m'));
    assert(s + "s"@ =~= s.push('s'));
}

/// Figures that are not known are told by a dash, and those below zero as zero.
pub proof fn law_missing_figures(value: i64)
    requires
        value <= 0,
    ensures
        maybe_seconds(None) == seq!['-'],
        maybe_tokens(None) == seq!['-'],
        maybe_seconds(Some(value)) == seq!['0', 's'],
        maybe_tokens(Some(value)) == seq!['0'],
{
    reveal_strlit("-");
    reveal_strlit("s");
    reveal_strlit("0");
    assert(text::decimal(0) =~= seq!['0']);
    assert("-"@ =~= seq!['-']);
    assert("0"@ =~= seq!['0']);
    assert(maybe_seconds(Some(value)) =~= seq!['0', 's']);
}

/// Counts below a thousand are written out; others in the largest of thousands, millions and
/// billions that they reach, with its letter.
pub proof fn law_counts_have_units(value: i64)
    ensures
        0 <= value < 1_000 ==> maybe_tokens(Some(value)) == text::decimal(value as nat),
        1_000 <= value < 1_000_000 ==> maybe_tokens(Some(value)) == compact_text(
            value as int,
            1_000,
            seq!['K'],
        ),
        1_000_000 <= value < 1_000_000_000 ==> maybe_tokens(Some(value)) == compact_text(
            value as int,
            1_000_000,
            seq!['M'],
        ),
        1_000_000_000 <= value ==> maybe_tokens(Some(value)) == compact_text(
            value as int,
            1_000_000_000,
            seq!['B'],
        ),
{
    reveal_strlit("K");
    reveal_strlit("M");
    reveal_strlit("B");
    assert("K"@ =~= seq!['K']);
    assert("M"@ =~= seq!['M']);
    assert("B"@ =~= seq!['B']);
}

/// A compact number is the quotient rounded to the nearest tenth, or to the nearest whole
/// number from 100 on and where it has no fraction to speak of; ties go to the even number.
pub proof fn law_compact_numbers_are_rounded(value: int, divisor: int, suffix: Seq<char>) -> (
    shown: nat)
    requires
        value >= 0,
        divisor > 0,
    ensures
        ({
            let one = double::one();
            let units = quotient_units(value, divisor);
            if units >= 100 * one || (units % one) * 0x10_0000_0000_0000 < one {
                &&& compact_text(value, divisor, suffix) == text::decimal(shown) + suffix
                &&& -(one as int) <= 2 * (shown * one - units) <= one
            } else {
                &&& compact_text(value, divisor, suffix) == text::decimal(shown / 10).push('.')
                    + text::decimal(shown % 10) + suffix
                &&& -(one as int) <= 2 * (shown * one - 10 * units) <= one
            }
        }),
{
    let one = double::one();
    let units = quotient_units(value, divisor);
    lemma_pow2_pos(1074);
    double::lemma_half_even_error(units, one);
    double::lemma_half_even_error(10 * units, one);
    reveal_strlit("");
    reveal_strlit(".");
    if units >= 100 * one || (units % one) * 0x10_0000_0000_0000 < one {
        let shown = double::half_even(units, one);
        assert(""@ + text::decimal(shown) =~= text::decimal(shown));
        shown
    } else {
        let shown = double::half_even(10 * units, one);
        assert(""@ + tenths_text(shown) =~= text::decimal(shown / 10).push('.') + text::decimal(
            shown % 10,
        ));
        shown
    }
}

/// The quotient of two whole numbers that doubles can hold is rounded once: it lies within
/// half the distance of neighbouring doubles.
pub proof fn law_quotients_are_rounded_once(value: int, divisor: int)
    requires
        0 <= value <= 0x20_0000_0000_0000,
        0 < divisor <= 0x20_0000_0000_0000,
    ensures
        ({
            let exact = value as nat * double::one();
            let error = quotient_units(value, divisor) * divisor - exact;
            let step = double::spacing(exact, divisor as nat) * divisor;
            -step <= 2 * error <= step
        }),
{
    lemma2_to64();
    double::lemma_short_is_exact(value as nat, 0);
    double::lemma_short_is_exact(divisor as nat, 0);
    assert(value * 1 == value && divisor * 1 == divisor);
    double::lemma_quotient_error(value as nat * double::one(), divisor as nat);
}

/// The current streak is told in days, or by a dash, and the best one in brackets where it is
/// known.
pub proof fn law_streaks(current: i64, longest: i64)
    ensures
        ({
            let (days, best) = (
                text::signed_decimal(current as int).push('d'),
                " (best "@ + (text::signed_decimal(longest as int) + "d)"@),
            );
            &&& streak_text(Some(current), None) == days
            &&& streak_text(Some(current), Some(longest)) == days + best
            &&& streak_text(None, Some(longest)) == seq!['-'] + best
            &&& streak_text(None, None) == seq!['-']
        }),
{
    reveal_strlit("d");
    reveal_strlit("-");
    let days = text::signed_decimal(current as int);
    let best = text::signed_decimal(longest as int);
    assert(days + "d"@ =~= days.push('d'));
    assert("-"@ =~= seq!['-']);
    assert(days.push('d') + " (best "@ + best + "d)"@ =~= days.push('d') + (" (best "@ + (best
        + "d)"@)));
    assert("-"@ + " (best "@ + best + "d)"@ =~= seq!['-'] + (" (best "@ + (best + "d)"@)));
}

/// The summary tells, in this order, the tokens of the lifetime, those of the best day, the
/// streaks, and the longest task.
pub proof fn law_summary_tells_every_figure(summary: UsageSummaryOutput)
    ensures
        summary_text(summary) == "Lifetime "@ + (maybe_tokens(summary.lifetime_tokens) + (
        " · Peak "@ + (maybe_tokens(summary.peak_daily_tokens) + (" · Streak "@ + (streak_text(
            summary.current_streak_days,
            summary.longest_streak_days,
        ) + (" · Longest task "@ + maybe_seconds(summary.longest_running_turn_sec))))))),
{
    let (a, b, c, d) = (
        maybe_tokens(summary.lifetime_tokens),
        maybe_tokens(summary.peak_daily_tokens),
        streak_text(summary.current_streak_days, summary.longest_streak_days),
        maybe_seconds(summary.longest_running_turn_sec),
    );
    assert(summary_text(summary) =~= "Lifetime "@ + (a + (" · Peak "@ + (b + (" · Streak "@ + (c + (
    " · Longest task "@ + d)))))));
}

/// Signs of a quotient cancel out, and a negative one is written with a sign and never cut to
/// whole numbers for its size; a quotient by zero is written in words.
pub proof fn law_signs_and_zero_divisors(value: int, divisor: int, suffix: Seq<char>)
    requires
        value > 0,
        divisor > 0,
    ensures
        compact_text(-value, -divisor, suffix) == compact_text(value, divisor, suffix),
        compact_text(-value, divisor, suffix) == compact_text(value, -divisor, suffix),
        compact_text(-value, divisor, suffix) == seq!['-'] + scaled_text(
            quotient_units(value, divisor),
            false,
        ) + suffix,
        compact_text(value, 0, suffix) == "inf"@ + suffix,
        compact_text(-value, 0, suffix) == "-inf"@ + suffix,
        compact_text(0, 0, suffix) == "NaN"@ + suffix,
{
    reveal_strlit("-");
    assert("-"@ =~= seq!['-']);
}

} // verus!
