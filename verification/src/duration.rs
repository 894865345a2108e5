//! Spans of time: reading them, writing them, and how long to sleep.

use crate::text;
use vstd::prelude::*;

verus! {

/// A span of time, of whole seconds and nanoseconds.
#[derive(Debug, Clone, Copy, PartialEq, Eq)]
pub struct Duration {
    secs: u64,
    nanos: u32,
}

/// A span of time is known by its length in nanoseconds.
impl View for Duration {
    type V = nat;

    closed spec fn view(&self) -> nat {
        (self.secs * 1_000_000_000 + self.nanos) as nat
    }
}

impl Duration {
    #[verifier::type_invariant]
    spec fn nanos_below_a_second(self) -> bool {
        self.nanos < 1_000_000_000
    }

    /// A span of seconds and nanoseconds.
    pub fn new(secs: u64, nanos: u32) -> (d: Duration)
        requires
            nanos < 1_000_000_000,
        ensures
            d@ == secs * 1_000_000_000 + nanos,
    {
        Duration { secs, nanos }
    }

    /// A span of whole seconds.
    pub fn from_secs(secs: u64) -> (d: Duration)
        ensures
            d@ == secs * 1_000_000_000,
    {
        Duration { secs, nanos: 0 }
    }

    /// A span of whole milliseconds.
    pub fn from_millis(millis: u64) -> (d: Duration)
        ensures
            d@ == millis * 1_000_000,
    {
        Duration { secs: millis / 1000, nanos: (millis % 1000) as u32 * 1_000_000 }
    }

    /// The whole seconds of the span.
    pub fn as_secs(&self) -> (secs: u64)
        ensures
            secs == self@ / 1_000_000_000,
    {
        proof {
            use_type_invariant(self);
        }
        self.secs
    }

    /// The nanoseconds beyond the whole seconds.
    pub fn subsec_nanos(&self) -> (nanos: u32)
        ensures
            nanos == self@ % 1_000_000_000,
    {
        proof {
            use_type_invariant(self);
        }
        self.nanos
    }

    /// The whole milliseconds of the span.
    pub fn as_millis(&self) -> (millis: u128)
        ensures
            millis == self@ / 1_000_000,
    {
        proof {
            use_type_invariant(self);
        }
        self.secs as u128 * 1000 + (self.nanos / 1_000_000) as u128
    }

    /// Tells whether this span is at least as long as another.
    pub fn is_at_least(&self, other: &Duration) -> (yes: bool)
        ensures
            yes == (self@ >= other@),
    {
        proof {
            use_type_invariant(self);
            use_type_invariant(other);
        }
        self.secs > other.secs || (self.secs == other.secs && self.nanos >= other.nanos)
    }

    /// The span less another, if it is at least as long.
    pub fn checked_sub(&self, other: &Duration) -> (rest: Option<Duration>)
        ensures
            rest is Some <==> self@ >= other@,
            rest is Some ==> rest->0@ == self@ - other@,
    {
        proof {
            use_type_invariant(self);
            use_type_invariant(other);
        }
        if !self.is_at_least(other) {
            None
        } else if self.nanos >= other.nanos {
            Some(Duration { secs: self.secs - other.secs, nanos: self.nanos - other.nanos })
        } else {
            Some(
                Duration {
                    secs: self.secs - other.secs - 1,
                    nanos: 1_000_000_000 + self.nanos - other.nanos,
                },
            )
        }
    }
}

// ---------------------------------------------------------------------------
// How long to sleep
// ---------------------------------------------------------------------------

/// The span to sleep before the next poll: the interval, but no longer than
/// what is left until a timeout that lies ahead.
pub open spec fn sleep_span(interval: nat, timeout: Option<nat>, elapsed: nat) -> nat {
    match timeout {
        Some(limit) => if elapsed <= limit && limit - elapsed < interval {
            (limit - elapsed) as nat
        } else {
            interval
        },
        None => interval,
    }
}

/// The length of a span that may be missing.
pub open spec fn maybe_span(d: Option<Duration>) -> Option<nat> {
    match d {
        Some(span) => Some(span@),
        None => None,
    }
}

/// How long to sleep before the next poll.
pub fn next_sleep(interval: Duration, timeout: Option<Duration>, elapsed: Duration) -> (sleep:
    Duration)
    ensures
        sleep@ == sleep_span(interval@, maybe_span(timeout), elapsed@),
{
    let rest = match timeout {
        Some(limit) => limit.checked_sub(&elapsed),
        None => None,
    };
    match rest {
        Some(remaining) => if remaining.is_at_least(&interval) {
            interval
        } else {
            remaining
        },
        None => interval,
    }
}

/// A sleep is never longer than the interval, and never ends after a timeout
/// that lies ahead.
pub proof fn law_sleep_keeps_the_limits(interval: nat, timeout: Option<nat>, elapsed: nat)
    ensures
        sleep_span(interval, timeout, elapsed) <= interval,
        timeout is Some && elapsed <= timeout->0 ==> elapsed + sleep_span(
            interval,
            timeout,
            elapsed,
        ) <= timeout->0,
{
}

// ---------------------------------------------------------------------------
// Reading
// ---------------------------------------------------------------------------

/// The unit suffixes with their lengths in milliseconds, in the order in which
/// they are tried.
pub open spec fn units() -> Seq<(Seq<char>, nat)> {
    seq![
        ("milliseconds"@, 1),
        ("millisecond"@, 1),
        ("millis"@, 1),
        ("ms"@, 1),
        ("minutes"@, 60_000),
        ("minute"@, 60_000),
        ("mins"@, 60_000),
        ("min"@, 60_000),
        ("hours"@, 3_600_000),
        ("hour"@, 3_600_000),
        ("hrs"@, 3_600_000),
        ("hr"@, 3_600_000),
        ("seconds"@, 1_000),
        ("second"@, 1_000),
        ("secs"@, 1_000),
        ("sec"@, 1_000),
        ("h"@, 3_600_000),
        ("m"@, 60_000),
        ("s"@, 1_000),
    ]
}

/// The first unit, from position `from` on, that a text ends with; the number of
/// units if there is none.
pub open spec fn unit_index(value: Seq<char>, from: nat) -> nat
    decreases 19 - from,
{
    if from >= 19 || text::ends_with(value, units()[from as int].0) {
        from
    } else {
        unit_index(value, from + 1)
    }
}

/// The number before the unit and the unit's milliseconds; seconds where the
/// text names no unit.
pub open spec fn split_unit(value: Seq<char>) -> (Seq<char>, nat) {
    let i = unit_index(value, 0);
    if i < 19 {
        let (suffix, millis) = units()[i as int];
        (text::trimmed(value.take(value.len() - suffix.len())), millis)
    } else {
        (value, 1_000)
    }
}

/// What a duration argument stands for: a span in milliseconds, or the reason
/// why it is none.
pub open spec fn duration_argument(raw: Seq<char>) -> Result<nat, Seq<char>> {
    let value = text::lowercase(text::trimmed(raw));
    let (number, unit) = split_unit(value);
    if value.len() == 0 {
        Err("expected a duration"@)
    } else {
        match text::number_value(number) {
            None => Err("expected a positive duration such as 60s or 1m"@),
            Some(amount) => if amount * unit > u64::MAX {
                Err("duration is too large"@)
            } else if amount * unit == 0 {
                Err("expected a positive duration"@)
            } else {
                Ok(amount * unit)
            },
        }
    }
}

/// The unit at a position.
fn unit_at(i: usize) -> (unit: (&'static str, u64))
    requires
        i < 19,
    ensures
        unit.0@ == units()[i as int].0,
        unit.1 == units()[i as int].1,
{
    match i {
        0 => ("milliseconds", 1),
        1 => ("millisecond", 1),
        2 => ("millis", 1),
        3 => ("ms", 1),
        4 => ("minutes", 60_000),
        5 => ("minute", 60_000),
        6 => ("mins", 60_000),
        7 => ("min", 60_000),
        8 => ("hours", 3_600_000),
        9 => ("hour", 3_600_000),
        10 => ("hrs", 3_600_000),
        11 => ("hr", 3_600_000),
        12 => ("seconds", 1_000),
        13 => ("second", 1_000),
        14 => ("secs", 1_000),
        15 => ("sec", 1_000),
        16 => ("h", 3_600_000),
        17 => ("m", 60_000),
        _ => ("s", 1_000),
    }
}

/// Parts a text into the number and the milliseconds of its unit.
fn split(value: &Vec<char>) -> (parts: (Vec<char>, u64))
    ensures
        parts.0@ == split_unit(value@).0,
        parts.1 == split_unit(value@).1,
        parts.1 > 0,
{
    let mut i: usize = 0;
    while i < 19
        invariant
            i <= 19,
            unit_index(value@, 0) == unit_index(value@, i as nat),
        decreases 19 - i,
    {
        let (suffix, millis) = unit_at(i);
        if text::has_suffix(value, suffix) {
            let length: usize = text::chars_of(suffix).len();
            let number = text::slice_of(value, 0, value.len() - length);
            assert(number@ =~= value@.take(value@.len() - suffix@.len()));
            return (text::trim(&number), millis);
        }
        i = i + 1;
    }
    let whole = text::slice_of(value, 0, value.len());
    assert(whole@ =~= value@);
    (whole, 1_000)
}

/// Reads a duration argument: plain seconds, or a number with a unit.
pub fn parse_duration_arg(raw: &str) -> (parsed: Result<Duration, String>)
    ensures
        match parsed {
            Ok(d) => duration_argument(raw@) is Ok && d@ == duration_argument(raw@)->Ok_0
                * 1_000_000,
            Err(reason) => duration_argument(raw@) is Err && reason@ == duration_argument(
                raw@,
            )->Err_0,
        },
{
    let value = text::to_lowercase(&text::trim(&text::chars_of(raw)));
    if value.len() == 0 {
        return Err("expected a duration".to_string());
    }
    let (number, unit) = split(&value);
    match text::parse_number(&number) {
        None => Err("expected a positive duration such as 60s or 1m".to_string()),
        Some(amount) => match amount.checked_mul(unit) {
            None => Err("duration is too large".to_string()),
            Some(millis) => if millis == 0 {
                Err("expected a positive duration".to_string())
            } else {
                Ok(Duration::from_millis(millis))
            },
        },
    }
}

// ---------------------------------------------------------------------------
// Writing
// ---------------------------------------------------------------------------

/// A span in words: milliseconds below a second, else whole hours or minutes
/// where the seconds make them up, else seconds.
pub open spec fn duration_text(nanos: nat) -> Seq<char> {
    let millis = nanos / 1_000_000;
    let seconds = nanos / 1_000_000_000;
    if millis < 1_000 {
        text::decimal(millis) + "ms"@
    } else if seconds % 3_600 == 0 {
        text::decimal(seconds / 3_600) + "h"@
    } else if seconds % 60 == 0 {
        text::decimal(seconds / 60) + "m"@
    } else {
        text::decimal(seconds) + "s"@
    }
}

/// Writes a span.
pub fn format_duration(duration: Duration) -> (out: String)
    ensures
        out@ == duration_text(duration@),
{
    let millis: u128 = duration.as_millis();
    if millis < 1_000 {
        let mut out = text::decimal_text(millis);
        out.append("ms");
        return out;
    }
    let seconds: u64 = duration.as_secs();
    if seconds % 3_600 == 0 {
        let mut out = text::decimal_text((seconds / 3_600) as u128);
        out.append("h");
        out
    } else if seconds % 60 == 0 {
        let mut out = text::decimal_text((seconds / 60) as u128);
        out.append("m");
        out
    } else {
        let mut out = text::decimal_text(seconds as u128);
        out.append("s");
        out
    }
}

// ---------------------------------------------------------------------------
// Laws
// ---------------------------------------------------------------------------

/// An accepted duration is positive and fits 64 bits of milliseconds.
pub proof fn law_accepted_durations_are_positive(raw: Seq<char>)
    ensures
        duration_argument(raw) matches Ok(millis) ==> 0 < millis <= u64::MAX,
{
}

/// Texts that differ within the last characters do not end alike.
proof fn lemma_ends_otherwise(s: Seq<char>, suffix: Seq<char>, back: int)
    requires
        0 <= back < suffix.len(),
        back < s.len(),
        s[s.len() - 1 - back] != suffix[suffix.len() - 1 - back],
    ensures
        !text::ends_with(s, suffix),
{
    if text::ends_with(s, suffix) {
        assert(s.skip(s.len() - suffix.len())[suffix.len() - 1 - back] == s[s.len() - 1 - back]);
    }
}

/// A number followed by one of the written units is parted as it was put
/// together.
proof fn lemma_written_unit(n: nat, i: nat)
    requires
        i == 3 || i == 16 || i == 17 || i == 18,
    ensures
        ({
            let written = text::decimal(n) + units()[i as int].0;
            &&& written.len() > 0
            &&& text::lowercase(text::trimmed(written)) == written
            &&& split_unit(written) == (text::decimal(n), units()[i as int].1)
        }),
{
    reveal_strlit("milliseconds");
    reveal_strlit("millisecond");
    reveal_strlit("millis");
    reveal_strlit("ms");
    reveal_strlit("minutes");
    reveal_strlit("minute");
    reveal_strlit("mins");
    reveal_strlit("min");
    reveal_strlit("hours");
    reveal_strlit("hour");
    reveal_strlit("hrs");
    reveal_strlit("hr");
    reveal_strlit("seconds");
    reveal_strlit("second");
    reveal_strlit("secs");
    reveal_strlit("sec");
    reveal_strlit("h");
    reveal_strlit("m");
    reveal_strlit("s");
    let digits = text::decimal(n);
    let suffix = units()[i as int].0;
    let written = digits + suffix;
    text::lemma_decimal_reads_back(n);
    assert(text::is_digit(digits[0]));
    assert(text::is_digit(digits[digits.len() - 1]));
    assert(written[0] == digits[0]);
    assert(text::trimmed(written) == written);
    assert forall|j: int| 0 <= j < written.len() implies text::ascii_lower(#[trigger] written[j])
        == written[j] by {
        if j < digits.len() {
            assert(text::is_digit(digits[j]));
        }
    }
    assert(text::lowercase(written) =~= written);
    assert forall|j: nat| j < i implies !text::ends_with(
        written,
        #[trigger] units()[j as int].0,
    ) by {
        let other = units()[j as int].0;
        if written[written.len() - 1] != other[other.len() - 1] {
            lemma_ends_otherwise(written, other, 0);
        } else {
            assert(other.len() >= 2);
            assert(written[written.len() - 2] != other[other.len() - 2]);
            lemma_ends_otherwise(written, other, 1);
        }
    }
    assert(written.skip(written.len() - suffix.len()) =~= suffix);
    assert(text::ends_with(written, suffix));
    lemma_unit_found(written, 0, i);
    assert(written.take(written.len() - suffix.len()) =~= digits);
    assert(text::trimmed(digits) == digits);
}

/// The first unit that a text ends with is found.
proof fn lemma_unit_found(value: Seq<char>, from: nat, i: nat)
    requires
        from <= i < 19,
        text::ends_with(value, units()[i as int].0),
        forall|j: nat| from <= j < i ==> !text::ends_with(value, #[trigger] units()[j as int].0),
    ensures
        unit_index(value, from) == i,
    decreases i - from,
{
    if from < i {
        lemma_unit_found(value, from + 1, i);
    }
}

/// A written span reads back as the same span, if nothing of it was left out in
/// writing: whole milliseconds below a second, or whole seconds.
pub proof fn law_written_durations_read_back(nanos: nat)
    requires
        0 < nanos,
        nanos < 1_000_000_000 ==> nanos % 1_000_000 == 0,
        nanos >= 1_000_000_000 ==> nanos % 1_000_000_000 == 0,
        nanos / 1_000_000 <= u64::MAX,
    ensures
        duration_argument(duration_text(nanos)) == Ok::<nat, Seq<char>>(nanos / 1_000_000),
{
    let millis = nanos / 1_000_000;
    let seconds = nanos / 1_000_000_000;
    if millis >= 1_000 {
        assert(nanos == seconds * 1_000_000_000);
        assert(millis == seconds * 1_000);
    }
    assert(units()[3] == ("ms"@, 1nat));
    assert(units()[16] == ("h"@, 3_600_000nat));
    assert(units()[17] == ("m"@, 60_000nat));
    assert(units()[18] == ("s"@, 1_000nat));
    if millis < 1_000 {
        lemma_written_unit(millis, 3);
        text::lemma_decimal_is_number(millis);
        assert(millis * units()[3].1 == millis) by (nonlinear_arith)
            requires
                units()[3].1 == 1,
        ;
    } else if seconds % 3_600 == 0 {
        lemma_written_unit(seconds / 3_600, 16);
        text::lemma_decimal_is_number(seconds / 3_600);
        assert((seconds / 3_600) * 3_600_000 == millis);
    } else if seconds % 60 == 0 {
        lemma_written_unit(seconds / 60, 17);
        text::lemma_decimal_is_number(seconds / 60);
        assert((seconds / 60) * 60_000 == millis);
    } else {
        lemma_written_unit(seconds, 18);
        text::lemma_decimal_is_number(seconds);
    }
}

/// Spans below a second are written in whole milliseconds.
pub proof fn law_short_spans_are_written_in_milliseconds(millis: nat, nanos: nat)
    requires
        millis < 1_000,
        nanos < 1_000_000,
    ensures
        duration_text(1_000_000 * millis + nanos) == text::decimal(millis).push('m').push('s'),
{
    reveal_strlit("ms");
    assert((1_000_000 * millis + nanos) / 1_000_000 == millis);
    assert(text::decimal(millis) + "ms"@ =~= text::decimal(millis).push('m').push('s'));
}

/// Spans of a second and more are written in the largest unit that makes up their whole
/// seconds.
pub proof fn law_spans_are_written_in_their_largest_unit(count: nat, nanos: nat)
    requires
        count > 0,
        nanos < 1_000_000_000,
    ensures
        duration_text(3_600_000_000_000 * count + nanos) == text::decimal(count).push('h'),
        count % 60 != 0 ==> duration_text(60_000_000_000 * count + nanos) == text::decimal(
            count,
        ).push('m'),
        count % 60 != 0 ==> duration_text(1_000_000_000 * count + nanos) == text::decimal(
            count,
        ).push('s'),
{
    reveal_strlit("h");
    reveal_strlit("m");
    reveal_strlit("s");
    let digits = text::decimal(count);
    assert(digits + "h"@ =~= digits.push('h'));
    assert(digits + "m"@ =~= digits.push('m'));
    assert(digits + "s"@ =~= digits.push('s'));
    assert((3_600_000_000_000 * count + nanos) / 1_000_000_000 == 3_600 * count);
    assert((60_000_000_000 * count + nanos) / 1_000_000_000 == 60 * count);
    assert((1_000_000_000 * count + nanos) / 1_000_000_000 == count);
    assert((3_600_000_000_000 * count + nanos) / 1_000_000 >= 1_000);
    assert((60_000_000_000 * count + nanos) / 1_000_000 >= 1_000);
    assert((1_000_000_000 * count + nanos) / 1_000_000 >= 1_000);
    if count % 60 != 0 {
        let (times, more) = ((60 * count) / 3_600, count / 3_600);
        if (60 * count) % 3_600 == 0 {
            assert(count == 60 * times);
        }
        if count % 3_600 == 0 {
            assert(count == 60 * (60 * more));
        }
    }
}

/// The outcome for an amount of a unit of so many milliseconds.
pub open spec fn outcome(amount: nat, millis: nat) -> Result<nat, Seq<char>> {
    if amount == 0 {
        Err("expected a positive duration"@)
    } else if amount * millis > u64::MAX {
        Err("duration is too large"@)
    } else {
        Ok(amount * millis)
    }
}

/// A number with a unit behind it, and white space before, between and behind, is that many
/// milliseconds, seconds, minutes or hours; without a unit it is that many seconds.
pub proof fn law_amounts_are_read_in_their_unit(
    before: Seq<char>,
    amount: nat,
    gap: Seq<char>,
    after: Seq<char>,
)
    requires
        text::all_white_space(before),
        text::all_white_space(gap),
        text::all_white_space(after),
        amount <= u64::MAX,
    ensures
        ({
            let number = text::decimal(amount);
            &&& duration_argument(before + number + after) == outcome(amount, 1_000)
            &&& duration_argument(before + (number + gap + "milliseconds"@) + after) == outcome(
                amount,
                1,
            )
            &&& duration_argument(before + (number + gap + "millisecond"@) + after) == outcome(
                amount,
                1,
            )
            &&& duration_argument(before + (number + gap + "millis"@) + after) == outcome(
                amount,
                1,
            )
            &&& duration_argument(before + (number + gap + "ms"@) + after) == outcome(
                amount,
                1,
            )
            &&& duration_argument(before + (number + gap + "seconds"@) + after) == outcome(
                amount,
                1_000,
            )
            &&& duration_argument(before + (number + gap + "second"@) + after) == outcome(
                amount,
                1_000,
            )
            &&& duration_argument(before + (number + gap + "secs"@) + after) == outcome(
                amount,
                1_000,
            )
            &&& duration_argument(before + (number + gap + "sec"@) + after) == outcome(
                amount,
                1_000,
            )
            &&& duration_argument(before + (number + gap + "s"@) + after) == outcome(
                amount,
                1_000,
            )
            &&& duration_argument(before + (number + gap + "minutes"@) + after) == outcome(
                amount,
                60_000,
            )
            &&& duration_argument(before + (number + gap + "minute"@) + after) == outcome(
                amount,
                60_000,
            )
            &&& duration_argument(before + (number + gap + "mins"@) + after) == outcome(
                amount,
                60_000,
            )
            &&& duration_argument(before + (number + gap + "min"@) + after) == outcome(
                amount,
                60_000,
            )
            &&& duration_argument(before + (number + gap + "m"@) + after) == outcome(
                amount,
                60_000,
            )
            &&& duration_argument(before + (number + gap + "hours"@) + after) == outcome(
                amount,
                3_600_000,
            )
            &&& duration_argument(before + (number + gap + "hour"@) + after) == outcome(
                amount,
                3_600_000,
            )
            &&& duration_argument(before + (number + gap + "hrs"@) + after) == outcome(
                amount,
                3_600_000,
            )
            &&& duration_argument(before + (number + gap + "hr"@) + after) == outcome(
                amount,
                3_600_000,
            )
            &&& duration_argument(before + (number + gap + "h"@) + after) == outcome(
                amount,
                3_600_000,
            )
        }),
{
    assert(units()[0] == ("milliseconds"@, 1nat));
    lemma_spaced_unit(before, amount, gap, 0, after);
    assert(units()[1] == ("millisecond"@, 1nat));
    lemma_spaced_unit(before, amount, gap, 1, after);
    assert(units()[2] == ("millis"@, 1nat));
    lemma_spaced_unit(before, amount, gap, 2, after);
    assert(units()[3] == ("ms"@, 1nat));
    lemma_spaced_unit(before, amount, gap, 3, after);
    assert(units()[12] == ("seconds"@, 1_000nat));
    lemma_spaced_unit(before, amount, gap, 12, after);
    assert(units()[13] == ("second"@, 1_000nat));
    lemma_spaced_unit(before, amount, gap, 13, after);
    assert(units()[14] == ("secs"@, 1_000nat));
    lemma_spaced_unit(before, amount, gap, 14, after);
    assert(units()[15] == ("sec"@, 1_000nat));
    lemma_spaced_unit(before, amount, gap, 15, after);
    assert(units()[18] == ("s"@, 1_000nat));
    lemma_spaced_unit(before, amount, gap, 18, after);
    assert(units()[4] == ("minutes"@, 60_000nat));
    lemma_spaced_unit(before, amount, gap, 4, after);
    assert(units()[5] == ("minute"@, 60_000nat));
    lemma_spaced_unit(before, amount, gap, 5, after);
    assert(units()[6] == ("mins"@, 60_000nat));
    lemma_spaced_unit(before, amount, gap, 6, after);
    assert(units()[7] == ("min"@, 60_000nat));
    lemma_spaced_unit(before, amount, gap, 7, after);
    assert(units()[17] == ("m"@, 60_000nat));
    lemma_spaced_unit(before, amount, gap, 17, after);
    assert(units()[8] == ("hours"@, 3_600_000nat));
    lemma_spaced_unit(before, amount, gap, 8, after);
    assert(units()[9] == ("hour"@, 3_600_000nat));
    lemma_spaced_unit(before, amount, gap, 9, after);
    assert(units()[10] == ("hrs"@, 3_600_000nat));
    lemma_spaced_unit(before, amount, gap, 10, after);
    assert(units()[11] == ("hr"@, 3_600_000nat));
    lemma_spaced_unit(before, amount, gap, 11, after);
    assert(units()[16] == ("h"@, 3_600_000nat));
    lemma_spaced_unit(before, amount, gap, 16, after);
    lemma_bare_number(before, amount, after);
}

/// A text of white space alone is no duration.
pub proof fn law_nothing_is_no_duration(space: Seq<char>)
    requires
        text::all_white_space(space),
    ensures
        duration_argument(space) == Err::<nat, Seq<char>>("expected a duration"@),
{
    text::law_trimmed_space(space);
}

proof fn lemma_outcome(number: Seq<char>, amount: nat, unit: nat)
    requires
        number == text::decimal(amount),
        amount <= u64::MAX,
        unit == 1 || unit == 1_000 || unit == 60_000 || unit == 3_600_000,
    ensures
        text::number_value(number) == Some(amount),
        amount * unit == 0 <==> amount == 0,
{
    text::lemma_decimal_is_number(amount);
    assert(amount * unit == 0 <==> amount == 0) by (nonlinear_arith)
        requires
            unit > 0,
    ;
}

proof fn lemma_bare_number(before: Seq<char>, amount: nat, after: Seq<char>)
    requires
        text::all_white_space(before),
        text::all_white_space(after),
        amount <= u64::MAX,
    ensures
        duration_argument(before + text::decimal(amount) + after) == outcome(amount, 1_000),
{
    let digits = text::decimal(amount);
    text::lemma_decimal_reads_back(amount);
    assert(text::is_digit(digits[0]));
    assert(text::is_digit(digits[digits.len() - 1]));
    text::law_trimmed(before, digits, after);
    assert forall|j: int| 0 <= j < digits.len() implies text::ascii_lower(#[trigger] digits[j])
        == digits[j] by {
        assert(text::is_digit(digits[j]));
    }
    assert(text::lowercase(digits) =~= digits);
    assert forall|j: nat| j < 19 implies !text::ends_with(digits, #[trigger] units()[j as int].0) by {
        let unit = units()[j as int].0;
        lemma_units_are_words(j);
        assert('a' <= unit[unit.len() - 1] <= 'z');
        lemma_ends_otherwise(digits, unit, 0);
    }
    lemma_no_unit(digits, 0);
    lemma_outcome(digits, amount, 1_000);
}

/// No unit is found where the text ends with none.
proof fn lemma_no_unit(value: Seq<char>, from: nat)
    requires
        from <= 19,
        forall|j: nat| from <= j < 19 ==> !text::ends_with(value, #[trigger] units()[j as int].0),
    ensures
        unit_index(value, from) == 19,
    decreases 19 - from,
{
    if from < 19 {
        assert(!text::ends_with(value, units()[from as int].0));
        lemma_no_unit(value, from + 1);
    }
}

/// A unit's word is made of small letters.
spec fn is_word(unit: Seq<char>) -> bool {
    unit.len() > 0 && forall|k: int| 0 <= k < unit.len() ==> 'a' <= #[trigger] unit[k] <= 'z'
}

proof fn lemma_units_are_words(i: nat)
    requires
        i < 19,
    ensures
        is_word(units()[i as int].0),
        units()[i as int].1 == 1 || units()[i as int].1 == 1_000 || units()[i as int].1 == 60_000
            || units()[i as int].1 == 3_600_000,
{
    reveal_strlit("milliseconds");
    reveal_strlit("millisecond");
    reveal_strlit("millis");
    reveal_strlit("ms");
    reveal_strlit("minutes");
    reveal_strlit("minute");
    reveal_strlit("mins");
    reveal_strlit("min");
    reveal_strlit("hours");
    reveal_strlit("hour");
    reveal_strlit("hrs");
    reveal_strlit("hr");
    reveal_strlit("seconds");
    reveal_strlit("second");
    reveal_strlit("secs");
    reveal_strlit("sec");
    reveal_strlit("h");
    reveal_strlit("m");
    reveal_strlit("s");
}

/// A word that is tried before another differs from it in one of the last two letters, or is
/// longer.
proof fn lemma_units_end_differently(i: nat, j: nat)
    requires
        j < i < 19,
    ensures
        ({
            let (word, other) = (units()[i as int].0, units()[j as int].0);
            ||| word.last() != other.last()
            ||| word.len() >= 2 && other.len() >= 2 && word[word.len() - 2] != other[other.len()
                - 2]
            ||| other.len() > word.len()
        }),
{
    reveal_strlit("milliseconds");
    reveal_strlit("millisecond");
    reveal_strlit("millis");
    reveal_strlit("ms");
    reveal_strlit("minutes");
    reveal_strlit("minute");
    reveal_strlit("mins");
    reveal_strlit("min");
    reveal_strlit("hours");
    reveal_strlit("hour");
    reveal_strlit("hrs");
    reveal_strlit("hr");
    reveal_strlit("seconds");
    reveal_strlit("second");
    reveal_strlit("secs");
    reveal_strlit("sec");
    reveal_strlit("h");
    reveal_strlit("m");
    reveal_strlit("s");
}

proof fn lemma_spaced_unit(
    before: Seq<char>,
    amount: nat,
    gap: Seq<char>,
    i: nat,
    after: Seq<char>,
)
    requires
        text::all_white_space(before),
        text::all_white_space(gap),
        text::all_white_space(after),
        amount <= u64::MAX,
        i < 19,
    ensures
        duration_argument(before + (text::decimal(amount) + gap + units()[i as int].0) + after)
            == outcome(amount, units()[i as int].1),
{
    let digits = text::decimal(amount);
    let suffix = units()[i as int].0;
    let number = digits + gap;
    let value = number + suffix;
    lemma_units_are_words(i);
    text::lemma_decimal_reads_back(amount);
    assert(text::is_digit(digits[0]));
    assert(text::is_digit(digits[digits.len() - 1]));
    assert(value[0] == digits[0]);
    assert(value.last() == suffix[suffix.len() - 1]);
    text::law_trimmed(before, value, after);
    assert forall|j: int| 0 <= j < value.len() implies text::ascii_lower(#[trigger] value[j])
        == value[j] by {
        if j < digits.len() {
            assert(text::is_digit(digits[j]));
        } else if j < number.len() {
            assert(text::is_white_space(gap[j - digits.len()]));
        } else {
            assert('a' <= suffix[j - number.len()] <= 'z');
        }
    }
    assert(text::lowercase(value) =~= value);
    let last = number.last();
    assert(!('a' <= last <= 'z')) by {
        if gap.len() > 0 {
            assert(last == gap[gap.len() - 1]);
            assert(text::is_white_space(gap[gap.len() - 1]));
        } else {
            assert(last == digits[digits.len() - 1]);
        }
    }
    assert forall|j: nat| j < i implies !text::ends_with(value, #[trigger] units()[j as int].0) by {
        let other = units()[j as int].0;
        lemma_units_are_words(j);
        lemma_units_end_differently(i, j);
        if suffix.last() != other.last() {
            lemma_ends_otherwise(value, other, 0);
        } else if suffix.len() >= 2 && other.len() >= 2 && suffix[suffix.len() - 2]
            != other[other.len() - 2] {
            lemma_ends_otherwise(value, other, 1);
        } else {
            let back = suffix.len() as int;
            assert(value[value.len() - 1 - back] == last);
            assert('a' <= other[other.len() - 1 - back] <= 'z');
            lemma_ends_otherwise(value, other, back);
        }
    }
    assert(value.skip(value.len() - suffix.len()) =~= suffix);
    lemma_unit_found(value, 0, i);
    assert(value.take(value.len() - suffix.len()) =~= number);
    assert(Seq::<char>::empty() + digits + gap =~= number);
    text::law_trimmed(Seq::empty(), digits, gap);
    lemma_outcome(digits, amount, units()[i as int].1);
}

/// Capitals and small letters are the same in a duration.
pub proof fn law_case_does_not_matter(raw: Seq<char>)
    ensures
        duration_argument(text::lowercase(raw)) == duration_argument(raw),
{
    text::law_trimming_keeps_case(raw);
    text::law_trimming_keeps_case(text::trimmed(raw));
}

/// Nothing is accepted but a number, with one of the units behind it or none.
pub proof fn law_only_amounts_are_accepted(raw: Seq<char>) -> (parts: (Seq<char>, Seq<char>))
    requires
        duration_argument(raw) is Ok,
    ensures
        text::lowercase(text::trimmed(raw)) == parts.0 + parts.1,
        text::number_value(text::trimmed(parts.0)) is Some,
        parts.1.len() == 0 || exists|i: int| 0 <= i < 19 && (#[trigger] units()[i]).0 == parts.1,
{
    let value = text::lowercase(text::trimmed(raw));
    let i = unit_index(value, 0);
    lemma_unit_index(value, 0);
    if i < 19 {
        let suffix = units()[i as int].0;
        let number = value.take(value.len() - suffix.len());
        assert(value =~= number + suffix);
        (number, suffix)
    } else {
        text::law_trimming_keeps_case(raw);
        text::law_trimming_twice(raw);
        assert(value + Seq::<char>::empty() =~= value);
        text::law_trimming_twice(text::lowercase(raw));
        (value, Seq::empty())
    }
}

proof fn lemma_unit_index(value: Seq<char>, from: nat)
    requires
        from <= 19,
    ensures
        unit_index(value, from) <= 19,
        unit_index(value, from) < 19 ==> text::ends_with(
            value,
            units()[unit_index(value, from) as int].0,
        ),
    decreases 19 - from,
{
    if from < 19 && !text::ends_with(value, units()[from as int].0) {
        lemma_unit_index(value, from + 1);
    }
}

} // verus!
