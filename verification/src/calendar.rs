//! Dates and times of day.
//!
//! A date is counted in days of the proleptic Gregorian calendar, in which
//! January 1 of the year 1 is day 1.

use crate::text;
use vstd::prelude::*;

verus! {

// ---------------------------------------------------------------------------
// The calendar
// ---------------------------------------------------------------------------

/// The first day that the date library can hold: January 1 of the year -262143.
pub const MIN_DAY: i32 = -95_746_129;

/// The last day that the date library can hold: December 31 of the year 262142.
pub const MAX_DAY: i32 = 95_745_399;

/// A leap year.
pub open spec fn is_leap(year: int) -> bool {
    year % 4 == 0 && (year % 100 != 0 || year % 400 == 0)
}

/// The number of days of a month.
pub open spec fn month_length(year: int, month: int) -> int {
    if month == 2 {
        if is_leap(year) {
            29
        } else {
            28
        }
    } else if month == 4 || month == 6 || month == 9 || month == 11 {
        30
    } else {
        31
    }
}

/// The number of days of a year.
pub open spec fn year_length(year: int) -> int {
    if is_leap(year) {
        366
    } else {
        365
    }
}

/// The number of days of a year before a month.
pub open spec fn days_before_month(year: int, month: int) -> int
    decreases month,
{
    if month <= 1 {
        0
    } else {
        days_before_month(year, month - 1) + month_length(year, month - 1)
    }
}

/// The number of days between the start of the year 1 and the start of a year.
pub open spec fn days_before_year(year: int) -> int {
    365 * (year - 1) + (year - 1) / 4 - (year - 1) / 100 + (year - 1) / 400
}

/// `day` is the given day of the given month and year.
pub open spec fn is_civil(day: int, year: int, month: int, day_of_month: int) -> bool {
    &&& 1 <= month <= 12
    &&& 1 <= day_of_month <= month_length(year, month)
    &&& day == days_before_year(year) + days_before_month(year, month) + day_of_month
}

/// The year, month and day of month of a day.
pub open spec fn civil(day: int) -> (int, int, int) {
    choose|date: (int, int, int)| #[trigger] is_civil(day, date.0, date.1, date.2)
}

/// A year's months before one of its months are fewer days than the year.
proof fn lemma_months_fill_year(year: int, month: int)
    requires
        1 <= month <= 12,
    ensures
        0 <= days_before_month(year, month),
        days_before_month(year, month) + month_length(year, month) <= year_length(year),
        month == 12 ==> days_before_month(year, month) + month_length(year, month) == year_length(
            year,
        ),
{
    reveal_with_fuel(days_before_month, 13);
}

/// A later month begins after an earlier one has ended.
proof fn lemma_months_in_order(year: int, earlier: int, later: int)
    requires
        1 <= earlier < later <= 12,
    ensures
        days_before_month(year, earlier) + month_length(year, earlier) <= days_before_month(
            year,
            later,
        ),
    decreases later - earlier,
{
    if earlier + 1 < later {
        lemma_months_in_order(year, earlier, later - 1);
    }
}

/// A later year begins after an earlier one has ended.
proof fn lemma_years_in_order(earlier: int, later: int)
    requires
        earlier < later,
    ensures
        days_before_year(earlier) + year_length(earlier) <= days_before_year(later),
        later == earlier + 1 ==> days_before_year(earlier) + year_length(earlier)
            == days_before_year(later),
    decreases later - earlier,
{
    if earlier + 1 < later {
        lemma_years_in_order(earlier, later - 1);
    }
}

/// A day has one year, month and day of month.
pub proof fn law_a_day_has_one_date(day: int, a: (int, int, int), b: (int, int, int))
    requires
        is_civil(day, a.0, a.1, a.2),
        is_civil(day, b.0, b.1, b.2),
    ensures
        a == b,
{
    lemma_months_fill_year(a.0, a.1);
    lemma_months_fill_year(b.0, b.1);
    if a.0 < b.0 {
        lemma_years_in_order(a.0, b.0);
    } else if b.0 < a.0 {
        lemma_years_in_order(b.0, a.0);
    } else if a.1 < b.1 {
        lemma_months_in_order(a.0, a.1, b.1);
    } else if b.1 < a.1 {
        lemma_months_in_order(a.0, b.1, a.1);
    }
}

/// Each day has a year, month and day of month.
pub proof fn law_each_day_has_a_date(day: int)
    ensures
        is_civil(day, civil(day).0, civil(day).1, civil(day).2),
    decreases
            (if day < 1 {
                1 - day
            } else {
                day - 1
            }),
{
    let date = if day == 1 {
        assert(days_before_year(1) == 0);
        assert(days_before_month(1, 1) == 0);
        (1int, 1int, 1int)
    } else if day > 1 {
        law_each_day_has_a_date(day - 1);
        let (year, month, day_of_month) = civil(day - 1);
        lemma_months_fill_year(year, 12);
        lemma_years_in_order(year, year + 1);
        if day_of_month < month_length(year, month) {
            (year, month, day_of_month + 1)
        } else if month < 12 {
            (year, month + 1, 1int)
        } else {
            (year + 1, 1int, 1int)
        }
    } else {
        law_each_day_has_a_date(day + 1);
        let (year, month, day_of_month) = civil(day + 1);
        lemma_months_fill_year(year - 1, 12);
        lemma_years_in_order(year - 1, year);
        if day_of_month > 1 {
            (year, month, day_of_month - 1)
        } else if month > 1 {
            (year, month - 1, month_length(year, month - 1))
        } else {
            (year - 1, 12int, 31int)
        }
    };
    assert(is_civil(day, date.0, date.1, date.2));
}

/// A day of the week, counted from Sunday as 0.
pub open spec fn weekday(day: int) -> int {
    day % 7
}

/// The day of a point in time, given in seconds since January 1, 1970.
pub open spec fn day_of_seconds(seconds: int) -> int {
    seconds / 86_400 + 719_163
}

/// The date library can hold this point in time.
pub open spec fn is_supported(seconds: int) -> bool {
    MIN_DAY <= day_of_seconds(seconds) <= MAX_DAY
}

// ---------------------------------------------------------------------------
// Texts
// ---------------------------------------------------------------------------

/// Two decimal digits.
pub open spec fn two_digits(n: int) -> Seq<char> {
    seq![text::digit_char((n / 10) as nat), text::digit_char((n % 10) as nat)]
}

/// A number in decimal notation with at least four digits.
pub open spec fn four_digits(n: nat) -> Seq<char> {
    let digits = text::decimal(n);
    text::repeated("0"@, if digits.len() < 4 { (4 - digits.len()) as nat } else { 0 }) + digits
}

/// A year of ISO 8601: outside of 0 to 9999 it has a sign.
pub open spec fn year_text(year: int) -> Seq<char> {
    if 0 <= year <= 9999 {
        four_digits(year as nat)
    } else if year < 0 {
        "-"@ + four_digits((-year) as nat)
    } else {
        "+"@ + four_digits(year as nat)
    }
}

/// Hours and minutes of a time of day.
pub open spec fn clock_text(seconds: int) -> Seq<char> {
    let second = seconds % 86_400;
    two_digits(second / 3_600) + ":"@ + two_digits(second / 60 % 60)
}

/// A date in the notation of ISO 8601.
pub open spec fn date_text(day: int) -> Seq<char> {
    let (year, month, day_of_month) = civil(day);
    year_text(year) + "-"@ + two_digits(month) + "-"@ + two_digits(day_of_month)
}

/// A point in time in the notation of RFC 3339, in universal time.
pub open spec fn rfc3339_text(seconds: int) -> Seq<char> {
    date_text(day_of_seconds(seconds)) + "T"@ + clock_text(seconds) + ":"@ + two_digits(
        seconds % 60,
    ) + "+00:00"@
}

/// The short name of a month; empty for what is no month.
pub open spec fn month_name(month: int) -> Seq<char> {
    if month == 1 {
        "Jan"@
    } else if month == 2 {
        "Feb"@
    } else if month == 3 {
        "Mar"@
    } else if month == 4 {
        "Apr"@
    } else if month == 5 {
        "May"@
    } else if month == 6 {
        "Jun"@
    } else if month == 7 {
        "Jul"@
    } else if month == 8 {
        "Aug"@
    } else if month == 9 {
        "Sep"@
    } else if month == 10 {
        "Oct"@
    } else if month == 11 {
        "Nov"@
    } else if month == 12 {
        "Dec"@
    } else {
        ""@
    }
}

/// The short name of a month.
pub fn month_abbrev(month: u32) -> (name: &'static str)
    ensures
        name@ == month_name(month as int),
{
    match month {
        1 => "Jan",
        2 => "Feb",
        3 => "Mar",
        4 => "Apr",
        5 => "May",
        6 => "Jun",
        7 => "Jul",
        8 => "Aug",
        9 => "Sep",
        10 => "Oct",
        11 => "Nov",
        12 => "Dec",
        _ => "",
    }
}

/// The short name of a day of the week; empty for what is none.
pub open spec fn weekday_name(row: int) -> Seq<char> {
    if row == 0 {
        "Su"@
    } else if row == 1 {
        "Mo"@
    } else if row == 2 {
        "Tu"@
    } else if row == 3 {
        "We"@
    } else if row == 4 {
        "Th"@
    } else if row == 5 {
        "Fr"@
    } else if row == 6 {
        "Sa"@
    } else {
        ""@
    }
}

/// The short name of a day of the week, counted from Sunday.
pub fn weekday_abbrev(row: usize) -> (name: &'static str)
    ensures
        name@ == weekday_name(row as int),
{
    match row {
        0 => "Su",
        1 => "Mo",
        2 => "Tu",
        3 => "We",
        4 => "Th",
        5 => "Fr",
        6 => "Sa",
        _ => "",
    }
}

// ---------------------------------------------------------------------------
// What the date library computes
// ---------------------------------------------------------------------------

/// The month of a day.
///
/// Calls `chrono::NaiveDate::from_num_days_from_ce_opt` and
/// `chrono::Datelike::month`.  Trusted: it is the month of the day in the proleptic
/// Gregorian calendar, from 1 for January.
#[verifier::external_body]
pub(crate) fn month_of(day: i32) -> (month: u32)
    requires
        MIN_DAY <= day <= MAX_DAY,
    ensures
        month == civil(day as int).1,
{
    let date = chrono::NaiveDate::from_num_days_from_ce_opt(day).unwrap();
    chrono::Datelike::month(&date)
}

/// A point in time as text.
///
/// Calls `chrono::DateTime::from_timestamp` and `chrono::DateTime::to_rfc3339`.
/// Trusted: there is a text just for the supported points in time, and it is the
/// date and time of day in universal time in the notation of RFC 3339.
#[verifier::external_body]
pub(crate) fn rfc3339(seconds: i64) -> (out: Option<String>)
    ensures
        out is Some <==> is_supported(seconds as int),
        out is Some ==> out->0@ == rfc3339_text(seconds as int),
{
    chrono::DateTime::from_timestamp(seconds, 0).map(|time| time.to_rfc3339())
}

/// A wall clock's time as text; the clock is read as seconds since midnight of
/// January 1, 1970 on that clock.
///
/// Calls `chrono::DateTime::from_timestamp` and `chrono::DateTime::format`.
/// Trusted: of the two patterns that it takes, the first gives hours and minutes
/// with two digits each, and the second adds the day of the month, with two
/// digits, and the English short name of the month.
#[verifier::external_body]
pub(crate) fn format_clock(seconds: i64, pattern: &str) -> (out: String)
    requires
        is_supported(seconds as int),
        pattern@ == "%H:%M"@ || pattern@ == "%H:%M on %d %b"@,
    ensures
        pattern@ == "%H:%M"@ ==> out@ == clock_text(seconds as int),
        pattern@ == "%H:%M on %d %b"@ ==> out@ == clock_text(seconds as int) + " on "@ + two_digits(
            civil(day_of_seconds(seconds as int)).2,
        ) + " "@ + month_name(civil(day_of_seconds(seconds as int)).1),
{
    let time = chrono::DateTime::from_timestamp(seconds, 0).unwrap();
    time.format(pattern).to_string()
}

/// The day that the date library reads from a text by a pattern.
pub uninterp spec fn parsed_day(source: Seq<char>, pattern: Seq<char>) -> Option<int>;

/// Reads a date.
///
/// Calls `chrono::NaiveDate::parse_from_str` and
/// `chrono::Datelike::num_days_from_ce`.  Trusted: the result depends on the text
/// and the pattern alone, it is a day that the date library can hold, and the
/// notation of ISO 8601 is read as the day that it stands for.
#[verifier::external_body]
pub(crate) fn parse_day(source: &str, pattern: &str) -> (day: Option<i32>)
    ensures
        day is Some <==> parsed_day(source@, pattern@) is Some,
        day is Some ==> day->0 == parsed_day(source@, pattern@)->0,
        day is Some ==> MIN_DAY <= day->0 <= MAX_DAY,
        forall|d: int|
            MIN_DAY <= d <= MAX_DAY && pattern@ == "%Y-%m-%d"@ && source@ == #[trigger] date_text(d)
                ==> day == Some(d as i32),
{
    let date = chrono::NaiveDate::parse_from_str(source, pattern).ok()?;
    Some(chrono::Datelike::num_days_from_ce(&date))
}

// ---------------------------------------------------------------------------
// Reset times
// ---------------------------------------------------------------------------

/// When a limit resets, for a person: the time of day, with the date where that
/// is not today's.
pub open spec fn reset_text(reset: int, now: int) -> Seq<char> {
    if day_of_seconds(reset) == day_of_seconds(now) {
        clock_text(reset)
    } else {
        let (_, month, day) = civil(day_of_seconds(reset));
        clock_text(reset) + " on "@ + two_digits(day) + " "@ + month_name(month)
    }
}

/// When a limit resets: a point in time, and what the local wall clock shows then
/// and now.
#[derive(Debug, Clone, Copy, PartialEq, Eq)]
pub struct ResetMoment {
    /// Seconds since January 1, 1970 in universal time.
    pub seconds: i64,
    /// The wall clock at that time, as seconds since midnight of January 1, 1970 on
    /// that clock.
    pub local: i64,
    /// The wall clock now, read in the same way.
    pub now: i64,
}

/// When a limit resets, for a person; nothing where the date library cannot hold
/// the time.
pub open spec fn reset_display(reset: ResetMoment) -> Option<Seq<char>> {
    if is_supported(reset.seconds as int) && is_supported(reset.local as int) {
        Some(reset_text(reset.local as int, reset.now as int))
    } else {
        None
    }
}

/// When a limit resets, for a person.
pub fn local_reset_display(reset: &ResetMoment) -> (out: Option<String>)
    ensures
        text::maybe_text(out) == reset_display(*reset),
{
    if !supported(reset.seconds) || !supported(reset.local) {
        return None;
    }
    if floor_days(reset.local) == floor_days(reset.now) {
        Some(format_clock(reset.local, "%H:%M"))
    } else {
        Some(format_clock(reset.local, "%H:%M on %d %b"))
    }
}

/// Tells whether the date library can hold a point in time.
fn supported(seconds: i64) -> (yes: bool)
    ensures
        yes == is_supported(seconds as int),
{
    let days: i64 = floor_days(seconds);
    days >= MIN_DAY as i64 - 719_163 && days <= MAX_DAY as i64 - 719_163
}

/// Whole days, rounded down.
fn floor_days(seconds: i64) -> (days: i64)
    ensures
        days == seconds as int / 86_400,
{
    if seconds >= 0 {
        seconds / 86_400
    } else {
        -((-(seconds + 1)) / 86_400) - 1
    }
}

// ---------------------------------------------------------------------------
// Laws
// ---------------------------------------------------------------------------

/// A reset is shown just where the date library can hold it: by the local time of day alone
/// where the local clock shows the same day then and now, else with day and month.
pub proof fn law_resets_of_other_days_have_a_date(reset: ResetMoment)
    ensures
        reset_display(reset) is Some <==> is_supported(reset.seconds as int) && is_supported(
            reset.local as int,
        ),
        reset_display(reset) matches Some(shown) ==> {
            let clock = clock_text(reset.local as int);
            let (_, month, day) = civil(day_of_seconds(reset.local as int));
            &&& reset.local as int / 86_400 == reset.now as int / 86_400 ==> shown == clock
            &&& reset.local as int / 86_400 != reset.now as int / 86_400 ==> shown == clock + (
            " on "@ + (two_digits(day) + (" "@ + month_name(month))))
        },
{
    let (_, month, day) = civil(day_of_seconds(reset.local as int));
    let clock = clock_text(reset.local as int);
    assert(clock + " on "@ + two_digits(day) + " "@ + month_name(month) =~= clock + (" on "@ + (
    two_digits(day) + (" "@ + month_name(month)))));
}

} // verus!
