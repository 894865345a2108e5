//! The chart of token activity over the last 52 weeks.

use crate::calendar;
use crate::double;
use crate::figures;
use crate::text;
use crate::usage;
use crate::usage::Bucket;
use crate::usage::UsageDailyBucketOutput;
use crate::usage::UsageView;
use vstd::arithmetic::div_mod::*;
use vstd::arithmetic::power2::*;
use vstd::prelude::*;

verus! {

// ---------------------------------------------------------------------------
// Dates
// ---------------------------------------------------------------------------

/// A date that the date library can hold: days are counted from January 1 of the
/// year 1, which is day 1.
#[derive(Debug, Clone, Copy, PartialEq, Eq)]
pub struct Date {
    day: i32,
}

impl View for Date {
    type V = int;

    closed spec fn view(&self) -> int {
        self.day as int
    }
}

impl Date {
    #[verifier::type_invariant]
    spec fn is_held(self) -> bool {
        calendar::MIN_DAY <= self.day <= calendar::MAX_DAY
    }

    /// The date of a day.
    pub fn from_days(day: i32) -> (date: Option<Date>)
        ensures
            date is Some <==> calendar::MIN_DAY <= day <= calendar::MAX_DAY,
            date is Some ==> date->0@ == day,
    {
        if calendar::MIN_DAY <= day && day <= calendar::MAX_DAY {
            Some(Date { day })
        } else {
            None
        }
    }

    /// The day of a date.
    pub fn days(&self) -> (day: i32)
        ensures
            day == self@,
            calendar::MIN_DAY <= day <= calendar::MAX_DAY,
    {
        proof {
            use_type_invariant(self);
        }
        self.day
    }
}

/// Dates as days.
pub open spec fn days_of(dates: Seq<Date>) -> Seq<int> {
    Seq::new(dates.len(), |i: int| dates[i]@)
}

/// The Saturday that ends the week of a day.
pub open spec fn saturday_of(day: int) -> int {
    day + 6 - calendar::weekday(day)
}

/// The date library can hold all days of the chart that ends in the week of a day.
pub open spec fn chart_fits(today: int) -> bool {
    calendar::MIN_DAY + 363 <= saturday_of(today) <= calendar::MAX_DAY
}

/// The first days of the 52 weeks that end with the week of a day.
pub open spec fn chart_weeks(today: int) -> Seq<int> {
    Seq::new(52, |i: int| saturday_of(today) - 363 + 7 * i)
}

/// The first days of the 52 weeks that end with the week of a day.
pub fn activity_weeks(today: Date) -> (weeks: Vec<Date>)
    requires
        chart_fits(today@),
    ensures
        days_of(weeks@) == chart_weeks(today@),
{
    let day: i32 = today.days();
    let weekday: i32 = (day % 7 + 7) % 7;
    assert(weekday == calendar::weekday(day as int));
    let start: i32 = day + 6 - weekday - 363;
    let mut weeks: Vec<Date> = Vec::new();
    let mut week: i32 = 0;
    while week < 52
        invariant
            0 <= week <= 52,
            start == saturday_of(today@) - 363,
            chart_fits(today@),
            weeks@.len() == week,
            forall|i: int| 0 <= i < week ==> (#[trigger] weeks@[i])@ == start + 7 * i,
        decreases 52 - week,
    {
        weeks.push(Date { day: start + week * 7 });
        week = week + 1;
    }
    assert(days_of(weeks@) =~= chart_weeks(today@));
    weeks
}

// ---------------------------------------------------------------------------
// Values
// ---------------------------------------------------------------------------

/// The tokens of a day whose date may be unreadable.
#[derive(Debug, Clone, Copy, PartialEq, Eq)]
pub struct DatedTokens {
    /// The day, counted as in a date; nothing where the date could not be read.
    pub day: Option<i32>,
    pub tokens: i64,
}

/// The tokens of a day: those of its last entry, but not less than zero; zero where
/// there is none.
pub open spec fn tokens_on(dated: Seq<DatedTokens>, day: int) -> i64
    decreases dated.len(),
{
    if dated.len() == 0 {
        0
    } else if dated.last().day is Some && dated.last().day->0 == day {
        if dated.last().tokens < 0 {
            0
        } else {
            dated.last().tokens
        }
    } else {
        tokens_on(dated.drop_last(), day)
    }
}

/// What the chart shows of a day: its tokens, or nothing where it lies ahead.
pub open spec fn day_value(dated: Seq<DatedTokens>, day: int, today: int) -> Option<i64> {
    if day > today {
        None
    } else {
        Some(tokens_on(dated, day))
    }
}

/// What the chart shows of the seven days of each week.
pub open spec fn chart_values(
    dated: Seq<DatedTokens>,
    weeks: Seq<int>,
    today: int,
) -> Seq<Option<i64>> {
    Seq::new(7 * weeks.len(), |i: int| day_value(dated, weeks[i / 7] + i % 7, today))
}

/// The tokens of a day.
fn find_tokens(dated: &Vec<DatedTokens>, day: i32) -> (tokens: i64)
    ensures
        tokens == tokens_on(dated@, day as int),
{
    let mut left: usize = dated.len();
    assert(dated@.take(left as int) =~= dated@);
    while left > 0
        invariant
            left <= dated@.len(),
            tokens_on(dated@, day as int) == tokens_on(dated@.take(left as int), day as int),
        decreases left,
    {
        let entry = dated[left - 1];
        assert(dated@.take(left as int).last() == entry);
        assert(dated@.take(left as int).drop_last() =~= dated@.take(left - 1));
        if let Some(found) = entry.day {
            if found == day {
                return if entry.tokens < 0 {
                    0
                } else {
                    entry.tokens
                };
            }
        }
        left = left - 1;
    }
    0
}

/// What the chart shows of the seven days of each week, given the days of the
/// buckets.
pub fn values_by_date(dated: &Vec<DatedTokens>, weeks: &Vec<Date>, today: Date) -> (values: Vec<
    Option<i64>,
>)
    requires
        forall|i: int| 0 <= i < weeks@.len() ==> (#[trigger] weeks@[i])@ + 6 <= calendar::MAX_DAY,
    ensures
        values@ == chart_values(dated@, days_of(weeks@), today@),
{
    let mut values: Vec<Option<i64>> = Vec::new();
    let mut week: usize = 0;
    while week < weeks.len()
        invariant
            week <= weeks@.len(),
            forall|i: int|
                0 <= i < weeks@.len() ==> (#[trigger] weeks@[i])@ + 6 <= calendar::MAX_DAY,
            values@.len() == 7 * week,
            forall|i: int|
                0 <= i < 7 * week ==> #[trigger] values@[i] == day_value(
                    dated@,
                    days_of(weeks@)[i / 7] + i % 7,
                    today@,
                ),
        decreases weeks@.len() - week,
    {
        let first: i32 = weeks[week].days();
        let mut day: i32 = 0;
        while day < 7
            invariant
                0 <= day <= 7,
                week < weeks@.len(),
                first == days_of(weeks@)[week as int],
                first + 6 <= calendar::MAX_DAY,
                values@.len() == 7 * week + day,
                forall|i: int|
                    0 <= i < 7 * week + day ==> #[trigger] values@[i] == day_value(
                        dated@,
                        days_of(weeks@)[i / 7] + i % 7,
                        today@,
                    ),
            decreases 7 - day,
        {
            let date: i32 = first + day;
            if date > today.days() {
                values.push(None);
            } else {
                values.push(Some(find_tokens(dated, date)));
            }
            day = day + 1;
        }
        week = week + 1;
    }
    assert(values@ =~= chart_values(dated@, days_of(weeks@), today@));
    values
}

/// The days that the date library reads from the dates of buckets, and their tokens.
pub open spec fn dated_tokens(buckets: Seq<Bucket>) -> Seq<DatedTokens> {
    Seq::new(
        buckets.len(),
        |i: int|
            DatedTokens {
                day: match calendar::parsed_day(buckets[i].date, "%Y-%m-%d"@) {
                    Some(day) => Some(day as i32),
                    None => None,
                },
                tokens: buckets[i].tokens,
            },
    )
}

/// Dates of buckets in the notation of ISO 8601 are read as the days that they stand for.
pub open spec fn dates_read_back(buckets: Seq<Bucket>) -> bool {
    forall|i: int, day: int|
        0 <= i < buckets.len() && calendar::MIN_DAY <= day <= calendar::MAX_DAY && (
        #[trigger] buckets[i]).date == #[trigger] calendar::date_text(day)
            ==> calendar::parsed_day(buckets[i].date, "%Y-%m-%d"@) == Some(day)
}

/// Reads the dates of buckets.
fn read_dates(buckets: &Vec<UsageDailyBucketOutput>) -> (dated: Vec<DatedTokens>)
    ensures
        dated@ == dated_tokens(usage::shown_days(buckets@)),
        dates_read_back(usage::shown_days(buckets@)),
{
    let ghost all = usage::shown_days(buckets@);
    let mut dated: Vec<DatedTokens> = Vec::new();
    let mut i: usize = 0;
    while i < buckets.len()
        invariant
            i <= buckets@.len(),
            all == usage::shown_days(buckets@),
            dated@.len() == i,
            forall|k: int| 0 <= k < i ==> #[trigger] dated@[k] == dated_tokens(all)[k],
            dates_read_back(all.take(i as int)),
        decreases buckets@.len() - i,
    {
        let day = calendar::parse_day(buckets[i].start_date.as_str(), "%Y-%m-%d");
        dated.push(DatedTokens { day, tokens: buckets[i].tokens });
        proof {
            let next = all.take(i + 1);
            assert forall|k: int, d: int|
                0 <= k < next.len() && calendar::MIN_DAY <= d <= calendar::MAX_DAY && (
                #[trigger] next[k]).date == #[trigger] calendar::date_text(
                    d,
                ) implies calendar::parsed_day(next[k].date, "%Y-%m-%d"@) == Some(d) by {
                if k < i {
                    assert(all.take(i as int)[k] == next[k]);
                }
            }
        }
        i = i + 1;
    }
    assert(all.take(i as int) =~= all);
    assert(dated@ =~= dated_tokens(all));
    dated
}

/// What the chart shows of the seven days of each week.
pub fn activity_values(
    buckets: &Vec<UsageDailyBucketOutput>,
    weeks: &Vec<Date>,
    today: Date,
) -> (values: Vec<Option<i64>>)
    requires
        forall|i: int| 0 <= i < weeks@.len() ==> (#[trigger] weeks@[i])@ + 6 <= calendar::MAX_DAY,
    ensures
        values@ == chart_values(
            dated_tokens(usage::shown_days(buckets@)),
            days_of(weeks@),
            today@,
        ),
        dates_read_back(usage::shown_days(buckets@)),
{
    values_by_date(&read_dates(buckets), weeks, today)
}

// ---------------------------------------------------------------------------
// Levels
// ---------------------------------------------------------------------------

/// The largest value that is there.
pub open spec fn largest(values: Seq<Option<i64>>) -> Option<i64>
    decreases values.len(),
{
    if values.len() == 0 {
        None
    } else {
        match (largest(values.drop_last()), values.last()) {
            (Some(best), Some(value)) => Some(
                if value > best {
                    value
                } else {
                    best
                },
            ),
            (Some(best), None) => Some(best),
            (None, last) => last,
        }
    }
}

/// The largest value that is there; zero where there is none.
pub open spec fn peak_of(values: Seq<Option<i64>>) -> i64 {
    match largest(values) {
        Some(value) => value,
        None => 0,
    }
}

/// The largest value that is there; zero where there is none.
fn find_peak(values: &Vec<Option<i64>>) -> (peak: i64)
    ensures
        peak == peak_of(values@),
{
    let mut best: Option<i64> = None;
    let mut i: usize = 0;
    while i < values.len()
        invariant
            i <= values@.len(),
            best == largest(values@.take(i as int)),
        decreases values@.len() - i,
    {
        assert(values@.take(i + 1).drop_last() =~= values@.take(i as int));
        if let Some(value) = values[i] {
            best = match best {
                Some(found) => Some(
                    if value > found {
                        value
                    } else {
                        found
                    },
                ),
                None => Some(value),
            };
        }
        i = i + 1;
    }
    assert(values@.take(i as int) =~= values@);
    match best {
        Some(value) => value,
        None => 0,
    }
}

/// Four times the share of a value in the peak, calculated with doubles and rounded
/// up; shares below zero count as zero.
pub open spec fn level_of(value: int, peak: int) -> nat {
    if value == 0 || peak == 0 || (value < 0) != (peak < 0) {
        0
    } else {
        double::ceiling(4 * figures::quotient_units(value, peak), double::one())
    }
}

/// The level of a value that may be missing; it ends at the largest index.
pub open spec fn maybe_level(value: Option<i64>, peak: i64) -> Option<usize> {
    match value {
        Some(v) => {
            let level = level_of(v as int, peak as int);
            Some(
                if level <= usize::MAX {
                    level as usize
                } else {
                    usize::MAX
                },
            )
        },
        None => None,
    }
}

/// The levels of values, against the largest of them.
pub open spec fn levels_of(values: Seq<Option<i64>>) -> Seq<Option<usize>> {
    Seq::new(values.len(), |i: int| maybe_level(values[i], peak_of(values)))
}

/// The level of a value.
fn find_level(value: i64, peak: i64) -> (level: usize)
    ensures
        Some(level) == maybe_level(Some(value), peak),
{
    if value == 0 || peak == 0 || (value < 0) != (peak < 0) {
        return 0;
    }
    let share = double::divide(figures::round_magnitude(value), figures::round_magnitude(peak));
    let ghost units = figures::quotient_units(value as int, peak as int);
    let (num, den) = (share.num, share.den);
    proof {
        lemma_pow2_pos(1074);
        assert((4 * num) * double::one() == (4 * units) * den) by (nonlinear_arith)
            requires
                num * double::one() == units * den,
        ;
        double::lemma_same_fraction((4 * num) as nat, den as nat, 4 * units, double::one());
    }
    let scaled: u128 = 4 * num;
    let mut level: u128 = scaled / den;
    assert(level <= scaled) by (nonlinear_arith)
        requires
            level == scaled / den,
            den > 0,
    ;
    if scaled % den != 0 {
        level = level + 1;
    }
    if level <= usize::MAX as u128 {
        level as usize
    } else {
        usize::MAX
    }
}

/// The levels of values, against the largest of them.
pub fn activity_levels(values: &Vec<Option<i64>>) -> (levels: Vec<Option<usize>>)
    ensures
        levels@ == levels_of(values@),
{
    let peak: i64 = find_peak(values);
    let mut levels: Vec<Option<usize>> = Vec::new();
    let mut i: usize = 0;
    while i < values.len()
        invariant
            i <= values@.len(),
            peak == peak_of(values@),
            levels@.len() == i,
            forall|k: int| 0 <= k < i ==> #[trigger] levels@[k] == maybe_level(values@[k], peak),
        decreases values@.len() - i,
    {
        let level = match values[i] {
            Some(value) => Some(find_level(value, peak)),
            None => None,
        };
        levels.push(level);
        i = i + 1;
    }
    assert(levels@ =~= levels_of(values@));
    levels
}

/// The sign of a level; days without tokens have a sign of their own.
pub open spec fn glyph_of(level: Option<usize>, daily: bool) -> char {
    match level {
        None => ' ',
        Some(n) => if n == 0 {
            if daily {
                '·'
            } else {
                ' '
            }
        } else if n == 1 {
            '░'
        } else if n == 2 {
            '▒'
        } else if n == 3 {
            '▓'
        } else {
            '█'
        },
    }
}

/// The sign of a level.
pub fn activity_glyph(level: Option<usize>, daily: bool) -> (glyph: char)
    ensures
        glyph == glyph_of(level, daily),
{
    match level {
        None => ' ',
        Some(0) => if daily {
            '·'
        } else {
            ' '
        },
        Some(1) => '░',
        Some(2) => '▒',
        Some(3) => '▓',
        Some(_) => '█',
    }
}

// ---------------------------------------------------------------------------
// Lines
// ---------------------------------------------------------------------------

/// The month of a day.
pub open spec fn month_of(day: int) -> int {
    calendar::civil(day).1
}

/// The line of months above weeks: a month is named at the first week that begins in
/// it.
pub open spec fn header_text(weeks: Seq<int>) -> Seq<char>
    decreases weeks.len(),
{
    if weeks.len() == 0 {
        "    "@
    } else {
        let last = month_of(weeks.last());
        header_text(weeks.drop_last()) + " "@ + if weeks.len() == 1 || month_of(
            weeks[weeks.len() - 2],
        ) != last {
            calendar::month_name(last)
        } else {
            " "@
        }
    }
}

/// The line of months above weeks.
pub fn month_header(weeks: &Vec<Date>) -> (line: String)
    ensures
        line@ == header_text(days_of(weeks@)),
{
    let ghost all = days_of(weeks@);
    let mut line = "    ".to_string();
    let mut previous: Option<u32> = None;
    assert(all.take(0) =~= Seq::empty());
    let mut i: usize = 0;
    while i < weeks.len()
        invariant
            i <= weeks@.len(),
            all == days_of(weeks@),
            line@ == header_text(all.take(i as int)),
            i == 0 ==> previous is None,
            i > 0 ==> previous is Some && previous->0 == month_of(all[i - 1]),
        decreases weeks@.len() - i,
    {
        let day: i32 = weeks[i].days();
        let month: u32 = calendar::month_of(day);
        proof {
            assert(all.take(i + 1).drop_last() =~= all.take(i as int));
        }
        line.append(" ");
        let named = match previous {
            Some(before) => before != month,
            None => true,
        };
        if named {
            line.append(calendar::month_abbrev(month));
        } else {
            line.append(" ");
        }
        previous = Some(month);
        i = i + 1;
    }
    assert(all.take(i as int) =~= all);
    line
}

/// The signs of levels, each behind a space.
pub open spec fn signs_text(levels: Seq<Option<usize>>, daily: bool) -> Seq<char>
    decreases levels.len(),
{
    if levels.len() == 0 {
        Seq::empty()
    } else {
        signs_text(levels.drop_last(), daily).push(' ').push(glyph_of(levels.last(), daily))
    }
}

/// A sign behind a space.
fn sign_text(glyph: char) -> (out: String)
    requires
        glyph == ' ' || glyph == '·' || glyph == '░' || glyph == '▒' || glyph == '▓' || glyph
            == '█',
    ensures
        out@ == seq![' ', glyph],
{
    proof {
        reveal_strlit("  ");
        reveal_strlit(" ·");
        reveal_strlit(" ░");
        reveal_strlit(" ▒");
        reveal_strlit(" ▓");
        reveal_strlit(" █");
    }
    let out = if glyph == ' ' {
        "  "
    } else if glyph == '·' {
        " ·"
    } else if glyph == '░' {
        " ░"
    } else if glyph == '▒' {
        " ▒"
    } else if glyph == '▓' {
        " ▓"
    } else {
        " █"
    };
    assert(out@ =~= seq![' ', glyph]);
    out.to_string()
}

/// Writes the signs of levels behind a text.
fn append_signs(line: &mut String, levels: &Vec<Option<usize>>, daily: bool)
    ensures
        final(line)@ == old(line)@ + signs_text(levels@, daily),
{
    let ghost start = line@;
    let mut i: usize = 0;
    assert(start + signs_text(levels@.take(0), daily) =~= start);
    while i < levels.len()
        invariant
            i <= levels@.len(),
            line@ == start + signs_text(levels@.take(i as int), daily),
        decreases levels@.len() - i,
    {
        let glyph = activity_glyph(levels[i], daily);
        let ghost before = signs_text(levels@.take(i as int), daily);
        assert(levels@.take(i + 1).drop_last() =~= levels@.take(i as int));
        line.append(sign_text(glyph).as_str());
        assert(line@ =~= start + before.push(' ').push(glyph));
        i = i + 1;
    }
    assert(levels@.take(i as int) =~= levels@);
}

/// The levels of one day of the week, for 52 weeks.
pub open spec fn row_levels(levels: Seq<Option<usize>>, row: int) -> Seq<Option<usize>> {
    Seq::new(52, |column: int| levels[7 * column + row])
}

/// The line of one day of the week.
pub open spec fn row_text(levels: Seq<Option<usize>>, row: int) -> Seq<char> {
    " "@ + text::padded_right(calendar::weekday_name(row), 2) + signs_text(
        row_levels(levels, row),
        true,
    )
}

/// The chart of days: the months, a line for each day of the week, and a legend.
pub open spec fn daily_chart(weeks: Seq<int>, values: Seq<Option<i64>>) -> Seq<Seq<char>> {
    seq![header_text(weeks)] + Seq::new(7, |row: int| row_text(levels_of(values), row)) + seq![
        "     · none  ░ low  ▒ medium  ▓ high  █ peak"@,
    ]
}

/// The chart of days.
pub fn daily_activity_lines(weeks: &Vec<Date>, values: &Vec<Option<i64>>) -> (lines: Vec<String>)
    requires
        values@.len() >= 364,
    ensures
        text::texts(lines@) == daily_chart(days_of(weeks@), values@),
{
    let levels = activity_levels(values);
    let mut lines: Vec<String> = Vec::new();
    lines.push(month_header(weeks));
    let mut row: usize = 0;
    while row < 7
        invariant
            row <= 7,
            levels@ == levels_of(values@),
            levels@.len() >= 364,
            lines@.len() == 1 + row,
            lines@[0]@ == header_text(days_of(weeks@)),
            forall|i: int| 1 <= i < 1 + row ==> (#[trigger] lines@[i])@ == row_text(levels@, i - 1),
        decreases 7 - row,
    {
        let mut line = " ".to_string();
        line.append(text::pad_right(calendar::weekday_abbrev(row), 2).as_str());
        let mut cells: Vec<Option<usize>> = Vec::new();
        let mut column: usize = 0;
        while column < 52
            invariant
                row < 7,
                column <= 52,
                levels@.len() >= 364,
                cells@.len() == column,
                forall|k: int| 0 <= k < column ==> #[trigger] cells@[k] == levels@[7 * k + row],
            decreases 52 - column,
        {
            cells.push(levels[column * 7 + row]);
            column = column + 1;
        }
        assert(cells@ =~= row_levels(levels@, row as int));
        append_signs(&mut line, &cells, true);
        lines.push(line);
        row = row + 1;
    }
    lines.push("     · none  ░ low  ▒ medium  ▓ high  █ peak".to_string());
    assert(text::texts(lines@) =~= daily_chart(days_of(weeks@), values@));
    lines
}

// ---------------------------------------------------------------------------
// Totals
// ---------------------------------------------------------------------------

/// The sum of the values that are there.
pub open spec fn sum_of(values: Seq<Option<i64>>) -> int
    decreases values.len(),
{
    if values.len() == 0 {
        0
    } else {
        sum_of(values.drop_last()) + match values.last() {
            Some(value) => value as int,
            None => 0,
        }
    }
}

/// The number of weeks that values fill, the last one perhaps in part.
pub open spec fn week_count(values: Seq<Option<i64>>) -> nat {
    (values.len() + 6) / 7
}

/// The values of a week up to one of its days.
pub open spec fn week_part(values: Seq<Option<i64>>, week: int, days: int) -> Seq<Option<i64>> {
    values.subrange(
        7 * week,
        if 7 * week + days < values.len() {
            7 * week + days
        } else {
            values.len() as int
        },
    )
}

/// The sum of the values of a week.
pub open spec fn week_total(values: Seq<Option<i64>>, week: int) -> int {
    sum_of(week_part(values, week, 7))
}

/// A total fits in 64 bits.
pub open spec fn fits(total: int) -> bool {
    i64::MIN <= total <= i64::MAX
}

/// The sum of each week fits, at each of its days.
pub open spec fn week_sums_fit(values: Seq<Option<i64>>) -> bool {
    forall|week: int, days: int|
        0 <= week < week_count(values) && 0 <= days <= 7 ==> fits(
            #[trigger] sum_of(week_part(values, week, days)),
        )
}

/// The sums of the weeks.
pub open spec fn totals_of(values: Seq<Option<i64>>) -> Seq<int> {
    Seq::new(week_count(values), |week: int| week_total(values, week))
}

/// Whole numbers of 64 bits as such.
pub open spec fn ints(numbers: Seq<i64>) -> Seq<int> {
    Seq::new(numbers.len(), |i: int| numbers[i] as int)
}

/// The sums of the weeks: of seven values each, and of what is left at the end.
pub fn weekly_totals(values: &Vec<Option<i64>>) -> (totals: Vec<i64>)
    requires
        week_sums_fit(values@),
    ensures
        ints(totals@) == totals_of(values@),
{
    let mut totals: Vec<i64> = Vec::new();
    let mut next: usize = 0;
    let ghost mut week: int = 0;
    while next < values.len()
        invariant
            next <= values@.len(),
            next == 7 * week || (next == values@.len() && 7 * (week - 1) < next <= 7 * week),
            week >= 0,
            week_sums_fit(values@),
            totals@.len() == week,
            forall|i: int| 0 <= i < week ==> #[trigger] totals@[i] == week_total(values@, i),
        decreases values@.len() - next,
    {
        let mut total: i64 = 0;
        let mut days: usize = 0;
        assert(week_part(values@, week, 0) =~= Seq::empty());
        while days < 7 && next < values.len()
            invariant
                days <= 7,
                0 <= week,
                7 * week < values@.len(),
                next == 7 * week + days,
                next <= values@.len(),
                week_sums_fit(values@),
                total == sum_of(week_part(values@, week, days as int)),
            decreases 7 - days,
        {
            let ghost part = week_part(values@, week, days + 1);
            assert(part.drop_last() =~= week_part(values@, week, days as int));
            assert(part.last() == values@[next as int]);
            assert(fits(sum_of(part)));
            if let Some(value) = values[next] {
                total = total + value;
            }
            next = next + 1;
            days = days + 1;
        }
        assert(week_part(values@, week, days as int) =~= week_part(values@, week, 7));
        totals.push(total);
        proof {
            week = week + 1;
        }
    }
    assert(week == week_count(values@));
    assert(ints(totals@) =~= totals_of(values@));
    totals
}

/// The sum of the first numbers.
pub open spec fn sum_first(numbers: Seq<int>, count: int) -> int
    decreases count,
{
    if count <= 0 {
        0
    } else {
        sum_first(numbers, count - 1) + numbers[count - 1]
    }
}

/// The running sums of numbers.
pub open spec fn running_sums(numbers: Seq<int>) -> Seq<int> {
    Seq::new(numbers.len(), |i: int| sum_first(numbers, i + 1))
}

/// The running sums of the weeks fit.
pub open spec fn running_sums_fit(values: Seq<Option<i64>>) -> bool {
    forall|count: int|
        0 <= count <= week_count(values) ==> fits(#[trigger] sum_first(totals_of(values), count))
}

/// All sums that a view needs fit.
pub open spec fn sums_fit(view: UsageView, values: Seq<Option<i64>>) -> bool {
    match view {
        UsageView::Daily => true,
        UsageView::Weekly => week_sums_fit(values),
        UsageView::Cumulative => week_sums_fit(values) && running_sums_fit(values),
    }
}

/// The sums that a view draws.
pub open spec fn drawn_sums(view: UsageView, values: Seq<Option<i64>>) -> Seq<int> {
    if view == UsageView::Cumulative {
        running_sums(totals_of(values))
    } else {
        totals_of(values)
    }
}

/// Replaces numbers by their running sums.
fn accumulate(totals: &mut Vec<i64>)
    requires
        forall|count: int|
            0 <= count <= old(totals)@.len() ==> fits(
                #[trigger] sum_first(ints(old(totals)@), count),
            ),
    ensures
        ints(final(totals)@) == running_sums(ints(old(totals)@)),
{
    let ghost given = ints(totals@);
    let mut running: i64 = 0;
    let mut i: usize = 0;
    while i < totals.len()
        invariant
            i <= totals@.len(),
            totals@.len() == given.len(),
            forall|count: int|
                0 <= count <= given.len() ==> fits(#[trigger] sum_first(given, count)),
            running == sum_first(given, i as int),
            forall|k: int| i <= k < totals@.len() ==> #[trigger] totals@[k] == given[k],
            forall|k: int| 0 <= k < i ==> #[trigger] totals@[k] == sum_first(given, k + 1),
        decreases totals@.len() - i,
    {
        assert(fits(sum_first(given, i + 1)));
        running = running + totals[i];
        totals.set(i, running);
        i = i + 1;
    }
    assert(ints(totals@) =~= running_sums(given));
}

/// Numbers that are all there.
pub open spec fn all_there(numbers: Seq<int>) -> Seq<Option<i64>> {
    Seq::new(numbers.len(), |i: int| Some(numbers[i] as i64))
}

/// The chart of sums: the months, a line of signs, and the largest sum.
pub open spec fn sums_chart(view: UsageView, weeks: Seq<int>, sums: Seq<int>) -> Seq<Seq<char>> {
    let label = if view == UsageView::Cumulative {
        "Running total"@
    } else {
        "Weekly total"@
    };
    let drawn = all_there(sums);
    seq![
        header_text(weeks),
        "     "@ + signs_text(levels_of(drawn), false),
        "     "@ + label + " · top "@ + figures::tokens_text(peak_of(drawn) as int),
    ]
}

/// The chart of sums.
pub fn aggregate_activity_lines(
    view: UsageView,
    weeks: &Vec<Date>,
    values: &Vec<Option<i64>>,
) -> (lines: Vec<String>)
    requires
        view != UsageView::Daily,
        sums_fit(view, values@),
    ensures
        text::texts(lines@) == sums_chart(view, days_of(weeks@), drawn_sums(view, values@)),
{
    let cumulative = matches!(view, UsageView::Cumulative);
    let mut totals = weekly_totals(values);
    if cumulative {
        accumulate(&mut totals);
    }
    let ghost sums = drawn_sums(view, values@);
    assert(ints(totals@) == sums);
    let mut drawn: Vec<Option<i64>> = Vec::new();
    let mut i: usize = 0;
    while i < totals.len()
        invariant
            i <= totals@.len(),
            sums == ints(totals@),
            drawn@.len() == i,
            forall|k: int| 0 <= k < i ==> #[trigger] drawn@[k] == Some(sums[k] as i64),
        decreases totals@.len() - i,
    {
        drawn.push(Some(totals[i]));
        i = i + 1;
    }
    assert(drawn@ =~= all_there(sums));
    let mut line = "     ".to_string();
    append_signs(&mut line, &activity_levels(&drawn), false);
    let mut caption = "     ".to_string();
    caption.append(
        if cumulative {
            "Running total"
        } else {
            "Weekly total"
        },
    );
    caption.append(" · top ");
    caption.append(figures::format_tokens_compact(find_peak(&drawn)).as_str());
    let mut lines: Vec<String> = Vec::new();
    lines.push(month_header(weeks));
    lines.push(line);
    lines.push(caption);
    assert(text::texts(lines@) =~= sums_chart(view, days_of(weeks@), sums));
    lines
}

/// Tells whether the sum of each week fits, at each of its days.
fn test_week_sums(values: &Vec<Option<i64>>) -> (yes: bool)
    ensures
        yes == week_sums_fit(values@),
{
    let mut next: usize = 0;
    let ghost mut week: int = 0;
    while next < values.len()
        invariant
            next <= values@.len(),
            next == 7 * week || (next == values@.len() && 7 * (week - 1) < next <= 7 * week),
            week >= 0,
            forall|w: int, d: int|
                0 <= w < week && 0 <= d <= 7 ==> fits(#[trigger] sum_of(week_part(values@, w, d))),
        decreases values@.len() - next,
    {
        let mut total: i128 = 0;
        let mut days: usize = 0;
        assert(week_part(values@, week, 0) =~= Seq::empty());
        while days < 7 && next < values.len()
            invariant
                days <= 7,
                0 <= week,
                7 * week < values@.len(),
                next == 7 * week + days,
                next <= values@.len(),
                total == sum_of(week_part(values@, week, days as int)),
                fits(total as int),
                forall|d: int|
                    0 <= d <= days ==> fits(#[trigger] sum_of(week_part(values@, week, d))),
            decreases 7 - days,
        {
            let ghost part = week_part(values@, week, days + 1);
            assert(part.drop_last() =~= week_part(values@, week, days as int));
            assert(part.last() == values@[next as int]);
            if let Some(value) = values[next] {
                total = total + value as i128;
            }
            if total < i64::MIN as i128 || total > i64::MAX as i128 {
                assert(!fits(sum_of(part)));
                assert(week < week_count(values@));
                return false;
            }
            next = next + 1;
            days = days + 1;
        }
        assert forall|d: int| days <= d <= 7 implies fits(
            #[trigger] sum_of(week_part(values@, week, d)),
        ) by {
            assert(week_part(values@, week, days as int) =~= week_part(values@, week, d));
        }
        proof {
            week = week + 1;
        }
    }
    assert(week == week_count(values@));
    true
}

/// Tells whether all running sums fit.
fn test_running_sums(totals: &Vec<i64>) -> (yes: bool)
    ensures
        yes == forall|count: int|
            0 <= count <= totals@.len() ==> fits(#[trigger] sum_first(ints(totals@), count)),
{
    let mut running: i128 = 0;
    let mut i: usize = 0;
    while i < totals.len()
        invariant
            i <= totals@.len(),
            running == sum_first(ints(totals@), i as int),
            fits(running as int),
            forall|count: int|
                0 <= count <= i ==> fits(#[trigger] sum_first(ints(totals@), count)),
        decreases totals@.len() - i,
    {
        running = running + totals[i] as i128;
        assert(running == sum_first(ints(totals@), i + 1));
        if running < i64::MIN as i128 || running > i64::MAX as i128 {
            return false;
        }
        i = i + 1;
    }
    true
}

/// Tells whether all sums that a view needs fit.
pub fn activity_sums_fit(view: UsageView, values: &Vec<Option<i64>>) -> (yes: bool)
    ensures
        yes == sums_fit(view, values@),
{
    match view {
        UsageView::Daily => true,
        UsageView::Weekly => test_week_sums(values),
        UsageView::Cumulative => {
            if !test_week_sums(values) {
                return false;
            }
            let totals = weekly_totals(values);
            assert(totals@.len() == ints(totals@).len());
            test_running_sums(&totals)
        },
    }
}

// ---------------------------------------------------------------------------
// The chart
// ---------------------------------------------------------------------------

/// The chart of a view.
pub open spec fn chart(view: UsageView, weeks: Seq<int>, values: Seq<Option<i64>>) -> Seq<
    Seq<char>,
> {
    if view == UsageView::Daily {
        daily_chart(weeks, values)
    } else {
        sums_chart(view, weeks, drawn_sums(view, values))
    }
}

/// What the chart that ends in the week of a day shows of buckets.
pub open spec fn bucket_values(buckets: Seq<Bucket>, today: int) -> Seq<Option<i64>> {
    chart_values(dated_tokens(buckets), chart_weeks(today), today)
}

/// The chart of a view, given what it shows of each day.
pub fn activity_lines(view: UsageView, weeks: &Vec<Date>, values: &Vec<Option<i64>>) -> (lines: Vec<
    String,
>)
    requires
        view == UsageView::Daily ==> values@.len() >= 364,
        sums_fit(view, values@),
    ensures
        text::texts(lines@) == chart(view, days_of(weeks@), values@),
{
    match view {
        UsageView::Daily => daily_activity_lines(weeks, values),
        UsageView::Weekly | UsageView::Cumulative => aggregate_activity_lines(view, weeks, values),
    }
}

/// The weeks of the chart that ends in the week of a day, and what it shows.
fn chart_data(buckets: &Vec<UsageDailyBucketOutput>, today: Date) -> (data: (
    Vec<Date>,
    Vec<Option<i64>>,
))
    requires
        chart_fits(today@),
    ensures
        days_of(data.0@) == chart_weeks(today@),
        data.1@ == bucket_values(usage::shown_days(buckets@), today@),
        dates_read_back(usage::shown_days(buckets@)),
{
    let weeks = activity_weeks(today);
    assert forall|i: int| 0 <= i < weeks@.len() implies (#[trigger] weeks@[i])@ + 6
        <= calendar::MAX_DAY by {
        assert(days_of(weeks@).len() == weeks@.len());
        assert(days_of(weeks@)[i] == weeks@[i]@);
        assert(chart_weeks(today@)[i] == saturday_of(today@) - 363 + 7 * i);
    }
    let values = activity_values(buckets, &weeks, today);
    (weeks, values)
}

/// The chart of a view that ends in the week of a day.
pub fn token_activity_lines(
    view: UsageView,
    buckets: &Vec<UsageDailyBucketOutput>,
    today: Date,
) -> (lines: Vec<String>)
    requires
        chart_fits(today@),
        sums_fit(view, bucket_values(usage::shown_days(buckets@), today@)),
    ensures
        text::texts(lines@) == chart(
            view,
            chart_weeks(today@),
            bucket_values(usage::shown_days(buckets@), today@),
        ),
        dates_read_back(usage::shown_days(buckets@)),
{
    let (weeks, values) = chart_data(buckets, today);
    activity_lines(view, &weeks, &values)
}

/// Tells whether the date library can hold all days of the chart that ends in the week
/// of a day.
fn test_chart(today: Date) -> (yes: bool)
    ensures
        yes == chart_fits(today@),
{
    let day: i32 = today.days();
    let saturday: i32 = day + 6 - (day % 7 + 7) % 7;
    assert(saturday == saturday_of(day as int));
    calendar::MIN_DAY + 363 <= saturday && saturday <= calendar::MAX_DAY
}

/// The chart of a view that ends in the week of a day, where the date library can hold
/// its days and its sums fit.
pub fn checked_activity_lines(
    view: UsageView,
    buckets: &Vec<UsageDailyBucketOutput>,
    today: Date,
) -> (lines: Option<Vec<String>>)
    ensures
        lines is Some <==> chart_fits(today@) && sums_fit(
            view,
            bucket_values(usage::shown_days(buckets@), today@),
        ),
        lines is Some ==> text::texts(lines->0@) == chart(
            view,
            chart_weeks(today@),
            bucket_values(usage::shown_days(buckets@), today@),
        ),
        lines is Some ==> dates_read_back(usage::shown_days(buckets@)),
{
    if !test_chart(today) {
        return None;
    }
    let (_, values) = chart_data(buckets, today);
    if activity_sums_fit(view, &values) {
        Some(token_activity_lines(view, buckets, today))
    } else {
        None
    }
}

// ---------------------------------------------------------------------------
// Laws
// ---------------------------------------------------------------------------

/// The chart has 52 weeks, one after the other; each begins on a Sunday, and the last
/// one holds the day for which the chart is drawn.
pub proof fn law_chart_weeks(today: int)
    ensures
        chart_weeks(today).len() == 52,
        forall|i: int|
            0 <= i < 52 ==> calendar::weekday(#[trigger] chart_weeks(today)[i]) == 0,
        forall|i: int|
            0 <= i < 51 ==> #[trigger] chart_weeks(today)[i] + 7 == chart_weeks(today)[i + 1],
        chart_weeks(today)[51] <= today <= chart_weeks(today)[51] + 6,
{
    assert forall|i: int| 0 <= i < 52 implies calendar::weekday(
        #[trigger] chart_weeks(today)[i],
    ) == 0 by {
        assert(saturday_of(today) % 7 == 6);
    }
}

/// A day's tokens are those of its last entry, unless these are below zero.
pub proof fn law_last_entry_counts(dated: Seq<DatedTokens>, index: int, day: i32)
    requires
        0 <= index < dated.len(),
        dated[index].day == Some(day),
        forall|later: int|
            index < later < dated.len() ==> (#[trigger] dated[later]).day != Some(day),
    ensures
        tokens_on(dated, day as int) == if dated[index].tokens < 0 {
            0
        } else {
            dated[index].tokens
        },
    decreases dated.len(),
{
    if index < dated.len() - 1 {
        let rest = dated.drop_last();
        assert(dated[dated.len() - 1] == dated.last());
        assert forall|later: int| index < later < rest.len() implies (
        #[trigger] rest[later]).day != Some(day) by {
            assert(rest[later] == dated[later]);
        }
        law_last_entry_counts(rest, index, day);
    }
}

/// A bucket whose date is in the notation of ISO 8601 counts on its day, unless a later
/// bucket has the same day.
pub proof fn law_bucket_counts_on_its_day(buckets: Seq<Bucket>, index: int, day: i32)
    requires
        dates_read_back(buckets),
        0 <= index < buckets.len(),
        calendar::MIN_DAY <= day <= calendar::MAX_DAY,
        buckets[index].date == calendar::date_text(day as int),
        forall|later: int|
            index < later < buckets.len() ==> dated_tokens(buckets)[later].day != Some(day),
    ensures
        tokens_on(dated_tokens(buckets), day as int) == if buckets[index].tokens < 0 {
            0
        } else {
            buckets[index].tokens
        },
{
    assert(calendar::parsed_day(buckets[index].date, "%Y-%m-%d"@) == Some(day as int));
    law_last_entry_counts(dated_tokens(buckets), index, day);
}

/// A day without an entry has no tokens.
pub proof fn law_days_without_entry_are_empty(dated: Seq<DatedTokens>, day: i32)
    requires
        forall|i: int| 0 <= i < dated.len() ==> (#[trigger] dated[i]).day != Some(day),
    ensures
        tokens_on(dated, day as int) == 0,
    decreases dated.len(),
{
    if dated.len() > 0 {
        let rest = dated.drop_last();
        assert(dated[dated.len() - 1] == dated.last());
        assert forall|i: int| 0 <= i < rest.len() implies (#[trigger] rest[i]).day != Some(day) by {
            assert(rest[i] == dated[i]);
        }
        law_days_without_entry_are_empty(rest, day);
    }
}

/// All values that are there are at least zero.
pub open spec fn none_negative(values: Seq<Option<i64>>) -> bool {
    forall|i: int| 0 <= i < values.len() && values[i] is Some ==> #[trigger] values[i]->0 >= 0
}

/// No value of the chart is below zero, and just the days ahead have none.
pub proof fn law_chart_values(dated: Seq<DatedTokens>, weeks: Seq<int>, today: int)
    ensures
        none_negative(chart_values(dated, weeks, today)),
        forall|i: int|
            0 <= i < 7 * weeks.len() ==> (#[trigger] chart_values(dated, weeks, today)[i] is None
                <==> weeks[i / 7] + i % 7 > today),
{
    let values = chart_values(dated, weeks, today);
    assert forall|i: int| 0 <= i < values.len() && values[i] is Some implies #[trigger] values[i]->0
        >= 0 by {
        lemma_tokens_not_negative(dated, weeks[i / 7] + i % 7);
    }
}

proof fn lemma_tokens_not_negative(dated: Seq<DatedTokens>, day: int)
    ensures
        tokens_on(dated, day) >= 0,
    decreases dated.len(),
{
    if dated.len() > 0 {
        lemma_tokens_not_negative(dated.drop_last(), day);
    }
}

/// The peak is the largest value that is there.
pub proof fn law_peak_is_the_largest(values: Seq<Option<i64>>)
    ensures
        forall|i: int|
            0 <= i < values.len() && values[i] is Some ==> #[trigger] values[i]->0 <= peak_of(
                values,
            ),
        (exists|i: int| 0 <= i < values.len() && #[trigger] values[i] is Some)
            ==> values.contains(Some(peak_of(values))),
    decreases values.len(),
{
    if values.len() > 0 {
        let rest = values.drop_last();
        law_peak_is_the_largest(rest);
        assert(values.last() == values[values.len() - 1]);
        lemma_largest_is_there(values);
        assert forall|i: int| 0 <= i < values.len() && values[i] is Some implies #[trigger] values[
        i]->0 <= peak_of(values) by {
            if i < rest.len() {
                assert(rest[i] == values[i]);
                lemma_largest_is_there(rest);
            }
        }
    }
}

proof fn lemma_largest_is_there(values: Seq<Option<i64>>)
    ensures
        largest(values) is Some <==> exists|i: int|
            0 <= i < values.len() && #[trigger] values[i] is Some,
        largest(values) is Some ==> values.contains(largest(values)),
    decreases values.len(),
{
    if values.len() > 0 {
        let rest = values.drop_last();
        lemma_largest_is_there(rest);
        assert(values.last() == values[values.len() - 1]);
        if largest(rest) is Some {
            let i = choose|i: int| 0 <= i < rest.len() && rest[i] == largest(rest);
            assert(values[i] == largest(rest));
        }
        if exists|i: int| 0 <= i < values.len() && #[trigger] values[i] is Some {
            let i = choose|i: int| 0 <= i < values.len() && #[trigger] values[i] is Some;
            if i < rest.len() {
                assert(rest[i] is Some);
            }
        }
    }
}

proof fn lemma_magnitude_positive(n: int)
    requires
        n > 0,
    ensures
        figures::rounded_magnitude(n) > 0,
{
    lemma2_to64();
    double::lemma_short_is_exact(1, 0);
    double::lemma_nearest_monotone(1, n as nat, 1);
}

proof fn lemma_ceiling_monotone(n: nat, m: nat, d: nat)
    requires
        n <= m,
        d > 0,
    ensures
        double::ceiling(n, d) <= double::ceiling(m, d),
{
    lemma_div_is_ordered(n as int, m as int, d as int);
    lemma_fundamental_div_mod(n as int, d as int);
    lemma_fundamental_div_mod(m as int, d as int);
    if n / d == m / d {
        assert(d * (n / d) == d * (m / d));
    }
}

/// Of values up to the peak, none has a level above 4, the peak itself has level 4,
/// and just zero has level 0.
pub proof fn law_levels_run_from_zero_to_four(value: int, peak: int)
    requires
        0 <= value <= peak <= i64::MAX,
    ensures
        level_of(value, peak) <= 4,
        value == peak && peak > 0 ==> level_of(value, peak) == 4,
        level_of(value, peak) == 0 <==> value == 0,
{
    if value > 0 {
        let one = double::one();
        let p = figures::rounded_magnitude(peak);
        let v = figures::rounded_magnitude(value);
        let share = figures::quotient_units(value, peak);
        lemma_pow2_pos(1074);
        lemma_magnitude_positive(value);
        lemma_magnitude_positive(peak);
        double::lemma_nearest_monotone(value as nat, peak as nat, 1);
        // The peak's share in itself is one.
        double::lemma_short_is_exact(1, 1074);
        assert(1 * one == one);
        double::lemma_nearest_of_multiple(one, p);
        assert(one * p == p * one) by (nonlinear_arith);
        assert(v * one <= p * one) by (nonlinear_arith)
            requires
                v <= p,
        ;
        double::lemma_nearest_monotone(v * one, p * one, p);
        assert(share <= one);
        lemma_ceiling_monotone(4 * share, 4 * one, one);
        lemma_four_ones(one);
        // A share is not rounded to zero: the peak is less than 2 to the power of 63.
        lemma2_to64();
        lemma2_to64_rest();
        double::lemma_nearest_below_power(peak as nat, 1, 63);
        lemma_pow2_strictly_increases(63, 1074);
        assert(one <= v * one) by (nonlinear_arith)
            requires
                v >= 1,
        ;
        lemma_share_is_positive(v, p);
        assert(4 * share > 0);
        if double::ceiling(4 * share, one) == 0 {
            lemma_fundamental_div_mod((4 * share) as int, one as int);
            assert(one * 0 == 0) by (nonlinear_arith);
        }
    }
}

proof fn lemma_four_ones(one: nat)
    requires
        one > 0,
    ensures
        double::ceiling(4 * one, one) == 4,
{
    lemma_div_multiples_vanish(4, one as int);
    lemma_mod_multiples_basic(4, one as int);
    assert(one * 4 == 4 * one) by (nonlinear_arith);
}

proof fn lemma_share_is_positive(v: nat, p: nat)
    requires
        0 < p <= v * double::one(),
    ensures
        double::nearest(v * double::one(), p) > 0,
{
    lemma2_to64();
    double::lemma_short_is_exact(1, 0);
    assert(1 * pow2(0) == 1);
    double::lemma_nearest_of_multiple(1, p);
    assert(1 * p == p);
    double::lemma_nearest_monotone(p, v * double::one(), p);
}

/// Of two values up to the peak, the larger one has no lower level.
pub proof fn law_larger_values_have_no_lower_level(less: int, more: int, peak: int)
    requires
        0 <= less <= more <= peak <= i64::MAX,
    ensures
        level_of(less, peak) <= level_of(more, peak),
{
    if less > 0 {
        let one = double::one();
        let p = figures::rounded_magnitude(peak);
        let (a, b) = (figures::rounded_magnitude(less), figures::rounded_magnitude(more));
        lemma_pow2_pos(1074);
        lemma_magnitude_positive(peak);
        double::lemma_nearest_monotone(less as nat, more as nat, 1);
        assert(a * one <= b * one) by (nonlinear_arith)
            requires
                a <= b,
        ;
        double::lemma_nearest_monotone(a * one, b * one, p);
        lemma_ceiling_monotone(
            4 * figures::quotient_units(less, peak),
            4 * figures::quotient_units(more, peak),
            one,
        );
    }
}

/// The sum of joined sequences is the sum of their sums.
proof fn lemma_sum_of_joined(a: Seq<Option<i64>>, b: Seq<Option<i64>>)
    ensures
        sum_of(a + b) == sum_of(a) + sum_of(b),
    decreases b.len(),
{
    if b.len() == 0 {
        assert(a + b =~= a);
    } else {
        assert((a + b).drop_last() =~= a + b.drop_last());
        lemma_sum_of_joined(a, b.drop_last());
    }
}

/// The sums of the first weeks add up to the sum of their days.
proof fn lemma_first_weeks(values: Seq<Option<i64>>, weeks: int)
    requires
        0 <= weeks <= week_count(values),
    ensures
        sum_first(totals_of(values), weeks) == sum_of(
            values.take(
                if 7 * weeks < values.len() {
                    7 * weeks
                } else {
                    values.len() as int
                },
            ),
        ),
    decreases weeks,
{
    if weeks == 0 {
        assert(values.take(0) =~= Seq::empty());
    } else {
        lemma_first_weeks(values, weeks - 1);
        let before = values.take(7 * (weeks - 1));
        let week = week_part(values, weeks - 1, 7);
        lemma_sum_of_joined(before, week);
        let all = values.take(
            if 7 * weeks < values.len() {
                7 * weeks
            } else {
                values.len() as int
            },
        );
        assert(before + week =~= all);
    }
}

/// The sums of the weeks add up to the sum of the days.
pub proof fn law_weekly_totals_add_up(values: Seq<Option<i64>>)
    ensures
        sum_first(totals_of(values), week_count(values) as int) == sum_of(values),
{
    lemma_first_weeks(values, week_count(values) as int);
    assert(values.take(values.len() as int) =~= values);
}

/// The running total ends with the sum of all days.
pub proof fn law_running_total_ends_with_the_sum(values: Seq<Option<i64>>)
    requires
        values.len() > 0,
    ensures
        drawn_sums(UsageView::Cumulative, values).last() == sum_of(values),
{
    law_weekly_totals_add_up(values);
}

proof fn lemma_sum_not_negative(values: Seq<Option<i64>>)
    requires
        none_negative(values),
    ensures
        sum_of(values) >= 0,
    decreases values.len(),
{
    if values.len() > 0 {
        let rest = values.drop_last();
        assert(values.last() == values[values.len() - 1]);
        assert forall|i: int| 0 <= i < rest.len() && rest[i] is Some implies #[trigger] rest[i]->0
            >= 0 by {
            assert(rest[i] == values[i]);
        }
        lemma_sum_not_negative(rest);
    }
}

proof fn lemma_part_not_above(values: Seq<Option<i64>>, from: int, to: int)
    requires
        none_negative(values),
        0 <= from <= to <= values.len(),
    ensures
        0 <= sum_of(values.subrange(from, to)) <= sum_of(values),
{
    let (a, b, c) = (
        values.subrange(0, from),
        values.subrange(from, to),
        values.subrange(to, values.len() as int),
    );
    lemma_sum_of_joined(a, b);
    lemma_sum_of_joined(a + b, c);
    assert((a + b) + c =~= values);
    assert forall|i: int| 0 <= i < a.len() && a[i] is Some implies #[trigger] a[i]->0 >= 0 by {
        assert(a[i] == values[i]);
    }
    assert forall|i: int| 0 <= i < b.len() && b[i] is Some implies #[trigger] b[i]->0 >= 0 by {
        assert(b[i] == values[from + i]);
    }
    assert forall|i: int| 0 <= i < c.len() && c[i] is Some implies #[trigger] c[i]->0 >= 0 by {
        assert(c[i] == values[to + i]);
    }
    lemma_sum_not_negative(a);
    lemma_sum_not_negative(b);
    lemma_sum_not_negative(c);
}

/// The running total never falls where no value is below zero.
pub proof fn law_running_total_never_falls(values: Seq<Option<i64>>, earlier: int, later: int)
    requires
        none_negative(values),
        0 <= earlier <= later < week_count(values),
    ensures
        drawn_sums(UsageView::Cumulative, values)[earlier] <= drawn_sums(
            UsageView::Cumulative,
            values,
        )[later],
    decreases later,
{
    if earlier < later {
        law_running_total_never_falls(values, earlier, later - 1);
        lemma_part_not_above(
            values,
            7 * later,
            if 7 * later + 7 < values.len() {
                7 * later + 7
            } else {
                values.len() as int
            },
        );
    }
}

/// Where no value is below zero and the sum of all fits, every sum of the chart fits.
pub proof fn law_sums_fit_where_the_total_fits(view: UsageView, values: Seq<Option<i64>>)
    requires
        none_negative(values),
        fits(sum_of(values)),
    ensures
        sums_fit(view, values),
{
    assert forall|week: int, days: int|
        0 <= week < week_count(values) && 0 <= days <= 7 implies fits(
        #[trigger] sum_of(week_part(values, week, days)),
    ) by {
        lemma_part_not_above(
            values,
            7 * week,
            if 7 * week + days < values.len() {
                7 * week + days
            } else {
                values.len() as int
            },
        );
    }
    assert forall|count: int| 0 <= count <= week_count(values) implies fits(
        #[trigger] sum_first(totals_of(values), count),
    ) by {
        lemma_first_weeks(values, count);
        let end = if 7 * count < values.len() {
            7 * count
        } else {
            values.len() as int
        };
        lemma_part_not_above(values, 0, end);
        assert(values.subrange(0, end) =~= values.take(end));
    }
}

/// The chart of days has nine lines, that of sums three.
pub proof fn law_chart_size(view: UsageView, weeks: Seq<int>, values: Seq<Option<i64>>)
    ensures
        chart(view, weeks, values).len() == if view == UsageView::Daily {
            9nat
        } else {
            3nat
        },
{
}

// ---------------------------------------------------------------------------
// Laws of the drawn chart
// ---------------------------------------------------------------------------

/// The signs of levels take two places each: a space, and the sign.
proof fn lemma_signs(levels: Seq<Option<usize>>, daily: bool, index: int)
    ensures
        signs_text(levels, daily).len() == 2 * levels.len(),
        0 <= index < levels.len() ==> signs_text(levels, daily)[2 * index] == ' ' && signs_text(
            levels,
            daily,
        )[2 * index + 1] == glyph_of(levels[index], daily),
    decreases levels.len(),
{
    if levels.len() > 0 {
        lemma_signs(levels.drop_last(), daily, index);
    }
}

/// The names of the days of the week have two letters.
proof fn lemma_weekday_names(row: int)
    requires
        0 <= row < 7,
    ensures
        calendar::weekday_name(row).len() == 2,
        text::padded_right(calendar::weekday_name(row), 2) == calendar::weekday_name(row),
{
    reveal_strlit("Su");
    reveal_strlit("Mo");
    reveal_strlit("Tu");
    reveal_strlit("We");
    reveal_strlit("Th");
    reveal_strlit("Fr");
    reveal_strlit("Sa");
    assert(text::repeated(" "@, 0) =~= Seq::empty());
    assert(text::padded_right(calendar::weekday_name(row), 2) =~= calendar::weekday_name(row));
}

/// In the chart of days, the line below the months that stands `row` lines down begins
/// with the name of the `row`-th day of the week, and shows in its `column`-th place the
/// level of that day of that week.
pub proof fn law_rows_are_days_of_the_week(
    weeks: Seq<int>,
    values: Seq<Option<i64>>,
    row: int,
    column: int,
)
    requires
        values.len() >= 364,
        0 <= row < 7,
        0 <= column < 52,
    ensures
        ({
            let line = chart(UsageView::Daily, weeks, values)[1 + row];
            &&& line.len() == 107
            &&& line.take(3) == seq![' '] + calendar::weekday_name(row)
            &&& line[3 + 2 * column] == ' '
            &&& line[4 + 2 * column] == glyph_of(
                maybe_level(values[7 * column + row], peak_of(values)),
                true,
            )
        }),
{
    let levels = levels_of(values);
    let cells = row_levels(levels, row);
    let line = row_text(levels, row);
    lemma_weekday_names(row);
    lemma_signs(cells, true, column);
    reveal_strlit(" ");
    assert(cells[column] == levels[7 * column + row]);
    assert(chart(UsageView::Daily, weeks, values)[1 + row] == line);
    assert(line.take(3) =~= seq![' '] + calendar::weekday_name(row));
    assert(line[3 + 2 * column] == signs_text(cells, true)[2 * column]);
    assert(line[4 + 2 * column] == signs_text(cells, true)[2 * column + 1]);
}

/// Each day of the chart is drawn in the line of its day of the week, in the column of its
/// week: days ahead are blank, and other days show the level of their tokens.
pub proof fn law_each_day_is_drawn_on_its_weekday(dated: Seq<DatedTokens>, today: int, day: int)
    requires
        chart_weeks(today)[0] <= day <= chart_weeks(today)[51] + 6,
    ensures
        ({
            let values = chart_values(dated, chart_weeks(today), today);
            let line = chart(UsageView::Daily, chart_weeks(today), values)[1
                + calendar::weekday(day)];
            let sign = line[4 + 2 * ((day - chart_weeks(today)[0]) / 7)];
            &&& line.take(3) == seq![' '] + calendar::weekday_name(calendar::weekday(day))
            &&& day > today ==> sign == ' '
            &&& day <= today ==> sign == glyph_of(
                maybe_level(Some(tokens_on(dated, day)), peak_of(values)),
                true,
            )
        }),
{
    let weeks = chart_weeks(today);
    let values = chart_values(dated, weeks, today);
    let row = calendar::weekday(day);
    let column = (day - weeks[0]) / 7;
    law_chart_weeks(today);
    assert(weeks[0] % 7 == 0);
    assert(weeks[51] == weeks[0] + 357);
    assert(day == weeks[0] + 7 * column + row);
    law_rows_are_days_of_the_week(weeks, values, row, column);
    let index = 7 * column + row;
    assert(index / 7 == column && index % 7 == row);
    assert(weeks[column] == weeks[0] + 7 * column);
    assert(values[index] == day_value(dated, day, today));
}

/// The tokens of a bucket whose date is in the notation of ISO 8601 are drawn on its day,
/// unless a later bucket has the same day: in the chart of days, in the line of its day of
/// the week and the column of its week.
pub proof fn law_bucket_is_drawn_on_its_day(
    buckets: Seq<Bucket>,
    index: int,
    day: i32,
    today: int,
)
    requires
        dates_read_back(buckets),
        0 <= index < buckets.len(),
        calendar::MIN_DAY <= day <= calendar::MAX_DAY,
        buckets[index].date == calendar::date_text(day as int),
        forall|later: int|
            index < later < buckets.len() ==> dated_tokens(buckets)[later].day != Some(day),
        chart_weeks(today)[0] <= day <= today,
    ensures
        ({
            let values = bucket_values(buckets, today);
            let line = chart(UsageView::Daily, chart_weeks(today), values)[1 + calendar::weekday(
                day as int,
            )];
            let tokens = if buckets[index].tokens < 0 {
                0
            } else {
                buckets[index].tokens
            };
            &&& values[day - chart_weeks(today)[0]] == Some(tokens)
            &&& line[4 + 2 * ((day - chart_weeks(today)[0]) / 7)] == glyph_of(
                maybe_level(Some(tokens), peak_of(values)),
                true,
            )
        }),
{
    let dated = dated_tokens(buckets);
    let weeks = chart_weeks(today);
    law_chart_weeks(today);
    law_bucket_counts_on_its_day(buckets, index, day);
    law_each_day_is_drawn_on_its_weekday(dated, today, day as int);
    let offset = day - weeks[0];
    assert(weeks[51] == weeks[0] + 357);
    assert(weeks[offset / 7] == weeks[0] + 7 * (offset / 7));
    assert(bucket_values(buckets, today)[offset] == day_value(dated, day as int, today));
}

/// Values stand week by week: seven for each week, from its first day on.
pub proof fn law_values_stand_week_by_week(
    dated: Seq<DatedTokens>,
    weeks: Seq<int>,
    today: int,
    week: int,
    weekday: int,
)
    requires
        0 <= week < weeks.len(),
        0 <= weekday < 7,
    ensures
        chart_values(dated, weeks, today).len() == 7 * weeks.len(),
        weeks[week] + weekday > today ==> chart_values(dated, weeks, today)[7 * week
            + weekday] is None,
        weeks[week] + weekday <= today ==> chart_values(dated, weeks, today)[7 * week + weekday]
            == Some(tokens_on(dated, weeks[week] + weekday)),
{
    let index = 7 * week + weekday;
    assert(index / 7 == week && index % 7 == weekday);
}

/// Signs grow darker with the level, and are full from level 4 on; nothing is drawn where
/// there is no value, and only the chart of days marks the level 0.
pub proof fn law_signs(level: usize, daily: bool)
    ensures
        glyph_of(None, daily) == ' ',
        glyph_of(Some(0), false) == ' ',
        glyph_of(Some(0), true) == '·',
        glyph_of(Some(1), daily) == '░',
        glyph_of(Some(2), daily) == '▒',
        glyph_of(Some(3), daily) == '▓',
        level >= 4 ==> glyph_of(Some(level), daily) == '█',
{
}

/// Every chart begins with the months of its weeks; the chart of days ends with the legend.
pub proof fn law_charts_begin_with_the_months(
    view: UsageView,
    weeks: Seq<int>,
    values: Seq<Option<i64>>,
)
    ensures
        chart(view, weeks, values)[0] == header_text(weeks),
        view == UsageView::Daily ==> chart(view, weeks, values).last()
            == "     · none  ░ low  ▒ medium  ▓ high  █ peak"@,
{
}

/// One more week puts a space and the name of its month behind the months, or two spaces
/// where the week before it began in the same month.
pub proof fn law_months_are_named_where_they_begin(weeks: Seq<int>, week: int)
    ensures
        header_text(Seq::empty()) == seq![' ', ' ', ' ', ' '],
        weeks.len() == 0 || calendar::civil(weeks.last()).1 != calendar::civil(week).1
            ==> header_text(weeks.push(week)) == header_text(weeks).push(' ')
            + calendar::month_name(calendar::civil(week).1),
        weeks.len() > 0 && calendar::civil(weeks.last()).1 == calendar::civil(week).1
            ==> header_text(weeks.push(week)) == header_text(weeks).push(' ').push(' '),
{
    reveal_strlit("    ");
    reveal_strlit(" ");
    let all = weeks.push(week);
    assert(all.drop_last() =~= weeks);
    assert(all.last() == week);
    assert(header_text(Seq::empty()) =~= seq![' ', ' ', ' ', ' ']);
    assert(header_text(weeks) + " "@ =~= header_text(weeks).push(' '));
    if weeks.len() > 0 {
        assert(all[all.len() - 2] == weeks.last());
        assert(header_text(weeks).push(' ') + " "@ =~= header_text(weeks).push(' ').push(' '));
    }
}

// ---------------------------------------------------------------------------
// Laws of levels
// ---------------------------------------------------------------------------

/// A share of at most some quarters of the peak has at most that level.
proof fn lemma_level_at_most(value: int, peak: int, quarters: nat)
    requires
        0 < value <= peak <= 0x8_0000_0000_0000,
        4 * value <= quarters * peak,
        quarters <= 4,
    ensures
        level_of(value, peak) <= quarters,
{
    let one = double::one();
    let (v, p) = (value as nat, peak as nat);
    lemma_small_magnitudes(value, peak);
    let quarter = pow2(1072);
    lemma_pow2_adds(1072, 2);
    lemma2_to64();
    assert(one == 4 * quarter);
    lemma_pow2_pos(1072);
    let bound = quarters * quarter;
    assert(v * one <= bound * p) by (nonlinear_arith)
        requires
            4 * v <= quarters * p,
            one == 4 * quarter,
            bound == quarters * quarter,
    ;
    double::lemma_nearest_monotone(v * one, bound * p, p);
    double::lemma_nearest_of_multiple(bound, p);
    double::lemma_short_is_exact(quarters, 1072);
    let share = figures::quotient_units(value, peak);
    assert(share <= bound);
    assert(4 * share <= quarters * one) by (nonlinear_arith)
        requires
            share <= bound,
            bound == quarters * quarter,
            one == 4 * quarter,
    ;
    lemma_ceiling_monotone(4 * share, quarters * one, one);
    lemma_whole_ceiling(quarters, one);
}

/// A share of more than some quarters of the peak has a level above that.
proof fn lemma_level_above(value: int, peak: int, quarters: nat)
    requires
        0 < value <= peak <= 0x8_0000_0000_0000,
        4 * value > quarters * peak,
    ensures
        level_of(value, peak) > quarters,
{
    let one = double::one();
    let (v, p) = (value as nat, peak as nat);
    lemma_small_magnitudes(value, peak);
    assert(quarters < 4) by (nonlinear_arith)
        requires
            4 * value > quarters * peak,
            value <= peak,
            peak > 0,
    ;
    // The next double above the quarters, at a distance that the share cannot miss.
    let step = pow2(1021);
    lemma_pow2_adds(1021, 53);
    lemma2_to64();
    double::lemma_small_powers();
    lemma_pow2_pos(1021);
    assert(one == 0x20_0000_0000_0000 * step);
    let parts = quarters * 0x8_0000_0000_0000 + 1;
    let bound = parts * step;
    assert(v * one >= bound * p) by (nonlinear_arith)
        requires
            4 * v >= quarters * p + 1,
            p <= 0x8_0000_0000_0000,
            one == 0x20_0000_0000_0000 * step,
            bound == (quarters * 0x8_0000_0000_0000 + 1) * step,
            step > 0,
    ;
    double::lemma_nearest_monotone(bound * p, v * one, p);
    double::lemma_nearest_of_multiple(bound, p);
    double::lemma_short_is_exact(parts, 1021);
    let share = figures::quotient_units(value, peak);
    assert(share >= bound);
    assert(4 * share >= quarters * one + 4 * step) by (nonlinear_arith)
        requires
            share >= bound,
            bound == (quarters * 0x8_0000_0000_0000 + 1) * step,
            one == 0x20_0000_0000_0000 * step,
    ;
    let scaled = 4 * share;
    lemma_pow2_pos(1074);
    lemma_fundamental_div_mod(scaled as int, one as int);
    if double::ceiling(scaled, one) <= quarters {
        let q = scaled / one;
        if scaled % one == 0 {
            assert(one * q <= quarters * one) by (nonlinear_arith)
                requires
                    q <= quarters,
            ;
        } else {
            assert(one * q + one <= quarters * one) by (nonlinear_arith)
                requires
                    q + 1 <= quarters,
            ;
        }
    }
}

proof fn lemma_small_magnitudes(value: int, peak: int)
    requires
        0 < value <= peak <= 0x8_0000_0000_0000,
    ensures
        figures::rounded_magnitude(value) == value,
        figures::rounded_magnitude(peak) == peak,
{
    lemma2_to64();
    double::lemma_short_is_exact(value as nat, 0);
    double::lemma_short_is_exact(peak as nat, 0);
    assert(value * 1 == value && peak * 1 == peak);
}

proof fn lemma_whole_ceiling(times: nat, one: nat)
    requires
        one > 0,
    ensures
        double::ceiling(times * one, one) == times,
{
    lemma_div_multiples_vanish(times as int, one as int);
    lemma_mod_multiples_basic(times as int, one as int);
    assert(one * times == times * one) by (nonlinear_arith);
}

/// The level of a value is the number of quarters of the peak that it fills, the last one
/// perhaps in part; so for all peaks below 2 to the power of 51, where doubles tell all
/// quarters apart.
pub proof fn law_levels_are_quarters_of_the_peak(values: Seq<Option<i64>>, index: int)
    requires
        0 <= index < values.len(),
        none_negative(values),
        peak_of(values) <= 0x8_0000_0000_0000,
    ensures
        levels_of(values).len() == values.len(),
        values[index] is None ==> levels_of(values)[index] is None,
        values[index] matches Some(value) ==> levels_of(values)[index] is Some && ({
            let level = levels_of(values)[index]->0;
            &&& value == 0 ==> level == 0
            &&& value > 0 ==> 1 <= level <= 4 && (level - 1) * peak_of(values) < 4 * value <= level
                * peak_of(values)
        }),
{
    if values[index] is Some && values[index]->0 > 0 {
        let value = values[index]->0 as int;
        let peak = peak_of(values) as int;
        law_peak_is_the_largest(values);
        assert(values[index]->0 <= peak);
        law_levels_run_from_zero_to_four(value, peak);
        let level = level_of(value, peak);
        assert(level <= usize::MAX);
        if 4 * value <= (level - 1) * peak {
            lemma_level_at_most(value, peak, (level - 1) as nat);
        }
        if 4 * value > level * peak {
            lemma_level_above(value, peak, level);
        }
    }
}

/// Levels of one chart, whatever the peak: those that are there belong to the values that
/// are there, the peak has level 4, and of two values the larger has no lower level.
pub proof fn law_levels_follow_the_values(values: Seq<Option<i64>>, less: int, more: int)
    requires
        0 <= less < values.len(),
        0 <= more < values.len(),
        none_negative(values),
        values[less] is Some,
        values[more] is Some,
        values[less]->0 <= values[more]->0,
    ensures
        levels_of(values)[less] is Some,
        levels_of(values)[more] is Some,
        levels_of(values)[less]->0 <= levels_of(values)[more]->0 <= 4,
        levels_of(values)[less]->0 == 0 <==> values[less]->0 == 0,
        values[more]->0 == peak_of(values) && peak_of(values) > 0 ==> levels_of(values)[more]->0
            == 4,
{
    law_peak_is_the_largest(values);
    assert(values[less]->0 >= 0 && values[more]->0 <= peak_of(values));
    let (a, b) = (values[less]->0 as int, values[more]->0 as int);
    let peak = peak_of(values) as int;
    law_levels_run_from_zero_to_four(a, peak);
    law_levels_run_from_zero_to_four(b, peak);
    law_larger_values_have_no_lower_level(a, b, peak);
}

// ---------------------------------------------------------------------------
// Laws of sums
// ---------------------------------------------------------------------------

/// What a value that may be missing adds to a sum.
pub open spec fn amount(value: Option<i64>) -> int {
    match value {
        Some(n) => n as int,
        None => 0,
    }
}

proof fn lemma_sum_of_update(values: Seq<Option<i64>>, index: int, value: Option<i64>)
    requires
        0 <= index < values.len(),
    ensures
        sum_of(values.update(index, value)) == sum_of(values) - amount(values[index]) + amount(
            value,
        ),
    decreases values.len(),
{
    let changed = values.update(index, value);
    if index == values.len() - 1 {
        assert(changed.drop_last() =~= values.drop_last());
    } else {
        assert(changed.drop_last() =~= values.drop_last().update(index, value));
        lemma_sum_of_update(values.drop_last(), index, value);
    }
}

/// A day counts in its own week and in no other: where the value of one day changes, just
/// the sum of its week changes, and by as much.
pub proof fn law_a_day_counts_in_its_week(
    values: Seq<Option<i64>>,
    index: int,
    value: Option<i64>,
    week: int,
)
    requires
        0 <= index < values.len(),
        0 <= week < drawn_sums(UsageView::Weekly, values).len(),
    ensures
        drawn_sums(UsageView::Weekly, values.update(index, value)).len() == drawn_sums(
            UsageView::Weekly,
            values,
        ).len(),
        drawn_sums(UsageView::Weekly, values.update(index, value))[week] == drawn_sums(
            UsageView::Weekly,
            values,
        )[week] + if 7 * week <= index < 7 * week + 7 {
            amount(value) - amount(values[index])
        } else {
            0
        },
{
    let changed = values.update(index, value);
    let part = week_part(values, week, 7);
    if 7 * week <= index < 7 * week + 7 {
        lemma_sum_of_update(part, index - 7 * week, value);
        assert(week_part(changed, week, 7) =~= part.update(index - 7 * week, value));
    } else {
        assert(week_part(changed, week, 7) =~= part);
    }
}

/// There is a sum for each week that has a day; without any value each sum is zero.
pub proof fn law_each_week_has_a_sum(values: Seq<Option<i64>>)
    ensures
        ({
            let count = drawn_sums(UsageView::Weekly, values).len();
            7 * (count - 1) < values.len() <= 7 * count
        }),
        (forall|i: int| 0 <= i < values.len() ==> (#[trigger] values[i]) is None) ==> forall|week: int|
            0 <= week < drawn_sums(UsageView::Weekly, values).len() ==> #[trigger] drawn_sums(
                UsageView::Weekly,
                values,
            )[week] == 0,
{
    if forall|i: int| 0 <= i < values.len() ==> (#[trigger] values[i]) is None {
        assert forall|week: int|
            0 <= week < drawn_sums(UsageView::Weekly, values).len() implies #[trigger] drawn_sums(
            UsageView::Weekly,
            values,
        )[week] == 0 by {
            let part = week_part(values, week, 7);
            assert forall|i: int| 0 <= i < part.len() implies (#[trigger] part[i]) is None by {
                assert(part[i] == values[7 * week + i]);
            }
            lemma_sum_of_nothing(part);
        }
    }
}

proof fn lemma_sum_of_nothing(values: Seq<Option<i64>>)
    requires
        forall|i: int| 0 <= i < values.len() ==> (#[trigger] values[i]) is None,
    ensures
        sum_of(values) == 0,
    decreases values.len(),
{
    if values.len() > 0 {
        let rest = values.drop_last();
        assert(values.last() == values[values.len() - 1]);
        assert forall|i: int| 0 <= i < rest.len() implies (#[trigger] rest[i]) is None by {
            assert(rest[i] == values[i]);
        }
        lemma_sum_of_nothing(rest);
    }
}

/// The running total begins with the first week's sum and grows by each week's sum.
pub proof fn law_running_total_grows_week_by_week(values: Seq<Option<i64>>, week: int)
    requires
        0 <= week < drawn_sums(UsageView::Weekly, values).len(),
    ensures
        drawn_sums(UsageView::Cumulative, values).len() == drawn_sums(
            UsageView::Weekly,
            values,
        ).len(),
        drawn_sums(UsageView::Cumulative, values)[week] == drawn_sums(UsageView::Weekly, values)[week]
            + if week == 0 {
            0
        } else {
            drawn_sums(UsageView::Cumulative, values)[week - 1]
        },
{
    assert(sum_first(totals_of(values), 0) == 0);
}

/// In a chart of sums, the line below the months shows the level of each week's sum among
/// the sums, and the caption tells the largest sum.
pub proof fn law_sums_are_drawn_week_by_week(
    view: UsageView,
    weeks: Seq<int>,
    values: Seq<Option<i64>>,
    week: int,
)
    requires
        view != UsageView::Daily,
        sums_fit(view, values),
        0 <= week < drawn_sums(view, values).len(),
    ensures
        ({
            let sums = drawn_sums(view, values);
            let drawn = Seq::new(sums.len(), |i: int| Some(sums[i] as i64));
            let line = chart(view, weeks, values)[1];
            let caption = chart(view, weeks, values)[2];
            &&& line.len() == 5 + 2 * sums.len()
            &&& line.take(5) == seq![' ', ' ', ' ', ' ', ' ']
            &&& line[5 + 2 * week] == ' '
            &&& line[6 + 2 * week] == glyph_of(levels_of(drawn)[week], false)
            &&& exists|top: int|
                0 <= top < sums.len() && sums[week] <= sums[top] && caption == (if view
                    == UsageView::Weekly {
                    "     "@ + "Weekly total"@ + " · top "@
                } else {
                    "     "@ + "Running total"@ + " · top "@
                }) + #[trigger] figures::tokens_text(sums[top])
        }),
{
    let sums = drawn_sums(view, values);
    let drawn = all_there(sums);
    assert(drawn =~= Seq::new(sums.len(), |i: int| Some(sums[i] as i64)));
    let line = chart(view, weeks, values)[1];
    reveal_strlit("     ");
    lemma_signs(levels_of(drawn), false, week);
    assert(line.take(5) =~= seq![' ', ' ', ' ', ' ', ' ']);
    assert(line[5 + 2 * week] == signs_text(levels_of(drawn), false)[2 * week]);
    assert(line[6 + 2 * week] == signs_text(levels_of(drawn), false)[2 * week + 1]);
    assert forall|i: int| 0 <= i < sums.len() implies fits(#[trigger] sums[i]) by {
        if view == UsageView::Weekly {
            assert(fits(sum_of(week_part(values, i, 7))));
        } else {
            assert(fits(sum_first(totals_of(values), i + 1)));
        }
    }
    law_peak_is_the_largest(drawn);
    assert(drawn[week] is Some);
    let top = choose|top: int| 0 <= top < drawn.len() && drawn[top] == Some(peak_of(drawn));
    assert(fits(sums[top]) && fits(sums[week]));
    assert(drawn[week]->0 <= peak_of(drawn));
    assert(peak_of(drawn) == sums[top]);
}

// ---------------------------------------------------------------------------
// Laws of what can be drawn
// ---------------------------------------------------------------------------

/// A bucket whose date cannot be read changes nothing.
pub proof fn law_unreadable_dates_do_not_count(buckets: Seq<Bucket>, bucket: Bucket, day: int)
    requires
        calendar::parsed_day(bucket.date, "%Y-%m-%d"@) is None,
    ensures
        tokens_on(dated_tokens(buckets.push(bucket)), day) == tokens_on(dated_tokens(buckets), day),
{
    let all = dated_tokens(buckets.push(bucket));
    assert(all.drop_last() =~= dated_tokens(buckets));
    assert(all.last().day is None);
}

/// A chart can be drawn just where the date library can hold its first and its last day.
pub proof fn law_charts_are_drawn_where_their_days_are_held(today: int)
    ensures
        chart_fits(today) <==> calendar::MIN_DAY <= chart_weeks(today)[0] && chart_weeks(today)[51]
            + 6 <= calendar::MAX_DAY,
{
}

/// All sums of a chart that is drawn fit: those of weeks and, in the view of running sums,
/// those too.  The view of days needs none.
pub proof fn law_drawn_sums_fit(view: UsageView, values: Seq<Option<i64>>, week: int)
    requires
        sums_fit(view, values),
        0 <= week < drawn_sums(view, values).len(),
    ensures
        view != UsageView::Daily ==> i64::MIN <= drawn_sums(view, values)[week] <= i64::MAX,
        sums_fit(UsageView::Daily, values),
{
    if view == UsageView::Weekly {
        assert(fits(sum_of(week_part(values, week, 7))));
    } else if view == UsageView::Cumulative {
        assert(fits(sum_first(totals_of(values), week + 1)));
    }
}

/// Dates, sums and dated tokens are taken as they are, and none is left out.
pub proof fn law_days_are_taken_in_full(
    dates: Seq<Date>,
    numbers: Seq<i64>,
    buckets: Seq<Bucket>,
)
    ensures
        days_of(dates).len() == dates.len(),
        forall|i: int| 0 <= i < dates.len() ==> #[trigger] days_of(dates)[i] == dates[i]@,
        ints(numbers).len() == numbers.len(),
        forall|i: int| 0 <= i < numbers.len() ==> #[trigger] ints(numbers)[i] == numbers[i],
        dated_tokens(buckets).len() == buckets.len(),
        forall|i: int|
            0 <= i < buckets.len() ==> (#[trigger] dated_tokens(buckets)[i]).tokens
                == buckets[i].tokens,
{
}

} // verus!
