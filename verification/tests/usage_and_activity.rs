use chrono::Datelike;
use cxst::activity::{
    activity_glyph, activity_levels, activity_lines, activity_sums_fit, activity_values,
    activity_weeks, checked_activity_lines, daily_activity_lines, month_header,
    token_activity_lines, values_by_date, weekly_totals, Date, DatedTokens,
};
use cxst::figures::{
    format_compact_number, format_optional_seconds, format_optional_tokens,
    format_tokens_compact, usage_summary_line,
};
use cxst::status::usage_lines;
use cxst::usage::{
    normalize_token_usage, normalize_usage_daily_buckets, token_usage_error_reason, usage_output,
    usage_summary_output, usage_unavailable, TokenUsageProfile, TokenUsageProfileDailyBucket,
    TokenUsageProfileStats, UsageDailyBucketOutput, UsageOutput, UsageReply, UsageStatus,
    UsageSummaryOutput, UsageView,
};
use serde_json::{Number, Value};

fn token_usage_profile() -> TokenUsageProfile {
    TokenUsageProfile {
        stats: TokenUsageProfileStats {
            lifetime_tokens: Some(19_100_000_000),
            peak_daily_tokens: Some(912_000_000),
            longest_running_turn_sec: Some(42_240),
            current_streak_days: Some(1),
            longest_streak_days: Some(38),
            daily_usage_buckets: Some(vec![
                TokenUsageProfileDailyBucket {
                    start_date: "2026-06-15".to_string(),
                    tokens: 12_000,
                },
                TokenUsageProfileDailyBucket {
                    start_date: "2026-06-14".to_string(),
                    tokens: 24_000,
                },
            ]),
        },
    }
}

fn count(value: Option<i64>) -> Value {
    match value {
        Some(value) => Value::Number(Number::from(value)),
        None => Value::Null,
    }
}

fn usage_value(output: &UsageOutput) -> Value {
    let mut object = serde_json::Map::new();
    object.insert(
        "status".to_string(),
        Value::String(
            match output.status {
                UsageStatus::Available => "available",
                UsageStatus::Unavailable => "unavailable",
            }
            .to_string(),
        ),
    );
    object.insert(
        "reason".to_string(),
        match &output.reason {
            Some(reason) => Value::String(reason.clone()),
            None => Value::Null,
        },
    );
    object.insert(
        "view".to_string(),
        Value::String(
            match output.view {
                UsageView::Daily => "daily",
                UsageView::Weekly => "weekly",
                UsageView::Cumulative => "cumulative",
            }
            .to_string(),
        ),
    );
    object.insert(
        "summary".to_string(),
        match &output.summary {
            Some(summary) => {
                let mut fields = serde_json::Map::new();
                fields.insert("lifetimeTokens".to_string(), count(summary.lifetime_tokens));
                fields.insert(
                    "peakDailyTokens".to_string(),
                    count(summary.peak_daily_tokens),
                );
                fields.insert(
                    "longestRunningTurnSec".to_string(),
                    count(summary.longest_running_turn_sec),
                );
                fields.insert(
                    "currentStreakDays".to_string(),
                    count(summary.current_streak_days),
                );
                fields.insert(
                    "longestStreakDays".to_string(),
                    count(summary.longest_streak_days),
                );
                Value::Object(fields)
            }
            None => Value::Null,
        },
    );
    object.insert(
        "dailyUsageBuckets".to_string(),
        match &output.daily_usage_buckets {
            Some(buckets) => Value::Array(
                buckets
                    .iter()
                    .map(|bucket| {
                        let mut fields = serde_json::Map::new();
                        fields.insert(
                            "startDate".to_string(),
                            Value::String(bucket.start_date.clone()),
                        );
                        fields.insert("tokens".to_string(), count(Some(bucket.tokens)));
                        Value::Object(fields)
                    })
                    .collect(),
            ),
            None => Value::Null,
        },
    );
    Value::Object(object)
}

fn date(year: i32, month: u32, day: u32) -> Date {
    let date = chrono::NaiveDate::from_ymd_opt(year, month, day).unwrap();
    Date::from_days(date.num_days_from_ce()).unwrap()
}

fn bucket(start_date: &str, tokens: i64) -> UsageDailyBucketOutput {
    UsageDailyBucketOutput {
        start_date: start_date.to_string(),
        tokens,
    }
}

#[test]
fn usage_unavailable_has_fixed_reason_without_payload() {
    let output = usage_unavailable(
        UsageView::Daily,
        "chatgpt authentication required to read token usage",
    );
    let json = serde_json::to_string(&usage_value(&output)).unwrap();

    assert!(matches!(output.status, UsageStatus::Unavailable));
    assert_eq!(
        output.reason.as_deref(),
        Some("chatgpt authentication required to read token usage")
    );
    assert!(output.summary.is_none());
    assert!(output.daily_usage_buckets.is_none());
    assert!(!json.contains("Authorization"));
    assert!(!json.contains("github_pat_"));
}

#[test]
fn normalizes_token_usage_profile_for_json() {
    let output = normalize_token_usage(token_usage_profile(), UsageView::Daily);
    let json = usage_value(&output);

    assert_eq!(json["status"], "available");
    assert_eq!(json["reason"], serde_json::Value::Null);
    assert_eq!(json["view"], "daily");
    assert_eq!(json["summary"]["lifetimeTokens"], 19_100_000_000_i64);
    assert_eq!(json["summary"]["peakDailyTokens"], 912_000_000_i64);
    assert_eq!(json["summary"]["longestRunningTurnSec"], 42_240);
    assert_eq!(json["summary"]["currentStreakDays"], 1);
    assert_eq!(json["summary"]["longestStreakDays"], 38);
    assert_eq!(json["dailyUsageBuckets"][0]["startDate"], "2026-06-14");
    assert_eq!(json["dailyUsageBuckets"][0]["tokens"], 24_000);
    assert_eq!(json["dailyUsageBuckets"][1]["startDate"], "2026-06-15");
    assert_eq!(json["dailyUsageBuckets"][1]["tokens"], 12_000);
    assert!(json.get("auth").is_none());
    assert!(json.get("codex").is_none());
}

#[test]
fn token_usage_history_can_be_missing() {
    let profile = TokenUsageProfile {
        stats: TokenUsageProfileStats {
            lifetime_tokens: None,
            peak_daily_tokens: None,
            longest_running_turn_sec: None,
            current_streak_days: None,
            longest_streak_days: None,
            daily_usage_buckets: None,
        },
    };

    let output = normalize_token_usage(profile, UsageView::Weekly);

    assert!(matches!(output.status, UsageStatus::Available));
    assert!(output.daily_usage_buckets.is_none());
    assert_eq!(
        usage_summary_line(output.summary.as_ref().unwrap()),
        "Lifetime - · Peak - · Streak - · Longest task -"
    );
}

#[test]
fn formats_usage_summary_and_duration() {
    let summary = usage_summary_output(&token_usage_profile().stats);

    assert_eq!(
        usage_summary_line(&summary),
        "Lifetime 19.1B · Peak 912M · Streak 1d (best 38d) · Longest task 11h 44m"
    );
    assert_eq!(format_optional_seconds(Some(59)), "59s");
    assert_eq!(format_optional_seconds(Some(60)), "1m");
    assert_eq!(format_optional_seconds(Some(3_600)), "1h");
    assert_eq!(format_tokens_compact(1_500), "1.5K");
}

#[test]
fn renders_daily_and_weekly_usage_lines() {
    let buckets = vec![bucket("2026-06-14", 10), bucket("2026-06-15", 20)];
    let today = date(2026, 6, 16);

    let daily = token_activity_lines(UsageView::Daily, &buckets, today);
    assert!(daily[0].contains("Jun"));
    assert_eq!(daily.len(), 9);
    assert!(daily.iter().any(|line| line.starts_with(" Su")));
    assert!(daily.iter().any(|line| line.contains('█')));

    let weekly = token_activity_lines(UsageView::Weekly, &buckets, today);
    assert_eq!(weekly.len(), 3);
    assert!(weekly[2].contains("Weekly total"));
    assert!(weekly[2].contains("30"));
}

#[test]
fn usage_replies_are_shown_with_fixed_reasons() {
    let reason = |reply: UsageReply| usage_output(reply, UsageView::Weekly).reason.unwrap();
    assert_eq!(
        reason(UsageReply::NoAccount),
        "codex account authentication required to read token usage"
    );
    assert_eq!(
        reason(UsageReply::OtherBackend),
        "chatgpt authentication required to read token usage"
    );
    assert_eq!(
        reason(UsageReply::NoClient),
        "failed to construct backend client"
    );
    assert_eq!(
        reason(UsageReply::Failed("error 401".to_string())),
        "authentication failed while reading token usage"
    );
    assert_eq!(
        reason(UsageReply::Failed("error 500".to_string())),
        "failed to fetch token usage"
    );
    assert_eq!(
        token_usage_error_reason("xUnauthorizedx"),
        "authentication failed while reading token usage"
    );
    let shown = usage_output(
        UsageReply::Reported(token_usage_profile()),
        UsageView::Cumulative,
    );
    assert_eq!(shown.status, UsageStatus::Available);
    assert_eq!(shown.view, UsageView::Cumulative);
    assert_eq!(shown.reason, None);
}

#[test]
fn days_are_sorted_by_date_and_stay_in_order_within_one() {
    let day = |start_date: &str, tokens: i64| TokenUsageProfileDailyBucket {
        start_date: start_date.to_string(),
        tokens,
    };
    let sorted = normalize_usage_daily_buckets(vec![
        day("b", 1),
        day("a", 2),
        day("ba", 3),
        day("", 4),
        day("b", 5),
        day("a", 6),
        day("é", 7),
    ]);
    let seen: Vec<(String, i64)> = sorted
        .iter()
        .map(|bucket| (bucket.start_date.clone(), bucket.tokens))
        .collect();
    let expected: Vec<(String, i64)> = [
        ("", 4),
        ("a", 2),
        ("a", 6),
        ("b", 1),
        ("b", 5),
        ("ba", 3),
        ("é", 7),
    ]
    .iter()
    .map(|(date, tokens)| (date.to_string(), *tokens))
    .collect();
    assert_eq!(seen, expected);
}

fn reference_compact(value: i64, divisor: i64, suffix: &str) -> String {
    let scaled = value as f64 / divisor as f64;
    if scaled >= 100.0 || (scaled.fract() - 0.0).abs() < f64::EPSILON {
        format!("{scaled:.0}{suffix}")
    } else {
        format!("{scaled:.1}{suffix}")
    }
}

fn interesting_numbers() -> Vec<i64> {
    let mut numbers = vec![0, 1, -1, 7, 250, -250, i64::MAX, i64::MIN, i64::MIN + 1];
    for base in [1_000_i64, 1_000_000, 1_000_000_000] {
        for factor in [1_i64, 2, 9, 10, 99, 100, 101, 999] {
            for offset in [-1_i64, 0, 1, 49, 50, 51] {
                numbers.push(base * factor + offset * base / 1_000);
                numbers.push(base * factor + offset);
            }
        }
    }
    let mut state: u64 = 0x9E37_79B9_7F4A_7C15;
    for shift in 0..60 {
        state = state.wrapping_mul(6_364_136_223_846_793_005).wrapping_add(1);
        numbers.push((state as i64) >> shift);
    }
    numbers
}

#[test]
fn compact_numbers_agree_with_doubles() {
    let divisors = [
        1_000_i64,
        1_000_000,
        1_000_000_000,
        1,
        3,
        8,
        -7,
        0,
        i64::MAX,
        i64::MIN,
    ];
    for value in interesting_numbers() {
        for divisor in divisors {
            assert_eq!(
                format_compact_number(value, divisor, "X"),
                reference_compact(value, divisor, "X"),
                "{value} / {divisor}"
            );
        }
    }
}

#[test]
fn tokens_are_counted_in_thousands_millions_and_billions() {
    assert_eq!(format_tokens_compact(i64::MIN), "0");
    assert_eq!(format_tokens_compact(-1), "0");
    assert_eq!(format_tokens_compact(0), "0");
    assert_eq!(format_tokens_compact(999), "999");
    assert_eq!(format_tokens_compact(1_000), "1K");
    assert_eq!(format_tokens_compact(1_250), "1.2K");
    assert_eq!(format_tokens_compact(1_350), "1.4K");
    assert_eq!(format_tokens_compact(100_500), "100K");
    assert_eq!(format_tokens_compact(101_500), "102K");
    assert_eq!(format_tokens_compact(999_999), "1000K");
    assert_eq!(format_tokens_compact(1_000_000), "1M");
    assert_eq!(format_tokens_compact(2_000_000_000), "2B");
    assert_eq!(format_tokens_compact(i64::MAX), "9223372037B");
    assert_eq!(format_optional_tokens(None), "-");
    assert_eq!(format_optional_tokens(Some(12)), "12");
}

#[test]
fn seconds_are_shown_as_hours_and_minutes() {
    assert_eq!(format_optional_seconds(None), "-");
    assert_eq!(format_optional_seconds(Some(-5)), "0s");
    assert_eq!(format_optional_seconds(Some(0)), "0s");
    assert_eq!(format_optional_seconds(Some(61)), "1m");
    assert_eq!(format_optional_seconds(Some(3_659)), "1h");
    assert_eq!(format_optional_seconds(Some(3_660)), "1h 1m");
    assert_eq!(
        format_optional_seconds(Some(i64::MAX)),
        "2562047788015215h 30m"
    );
}

#[test]
fn streaks_are_shown_with_the_best_one() {
    let line = |current: Option<i64>, longest: Option<i64>| {
        usage_summary_line(&UsageSummaryOutput {
            lifetime_tokens: None,
            peak_daily_tokens: None,
            longest_running_turn_sec: None,
            current_streak_days: current,
            longest_streak_days: longest,
        })
    };
    assert_eq!(
        line(Some(-3), None),
        "Lifetime - · Peak - · Streak -3d · Longest task -"
    );
    assert_eq!(
        line(None, Some(9)),
        "Lifetime - · Peak - · Streak - (best 9d) · Longest task -"
    );
}

#[test]
fn the_chart_has_52_weeks_that_begin_on_sundays() {
    for offset in 0..14 {
        let today = chrono::NaiveDate::from_ymd_opt(2024, 2, 25).unwrap()
            + chrono::Duration::days(offset);
        let weeks = activity_weeks(Date::from_days(today.num_days_from_ce()).unwrap());
        assert_eq!(weeks.len(), 52);
        let end = today
            + chrono::Duration::days(6 - i64::from(today.weekday().num_days_from_sunday()));
        let start = end - chrono::Duration::days(363);
        for (index, week) in weeks.iter().enumerate() {
            let expected = start + chrono::Duration::days(index as i64 * 7);
            assert_eq!(week.days(), expected.num_days_from_ce());
            assert_eq!(expected.weekday(), chrono::Weekday::Sun);
        }
        let last = weeks[51].days();
        assert!(last <= today.num_days_from_ce() && today.num_days_from_ce() <= last + 6);
    }
}

#[test]
fn dates_are_held_within_the_bounds_of_the_date_library() {
    let first = chrono::NaiveDate::MIN.num_days_from_ce();
    let last = chrono::NaiveDate::MAX.num_days_from_ce();
    assert_eq!(Date::from_days(first).unwrap().days(), first);
    assert_eq!(Date::from_days(last).unwrap().days(), last);
    assert!(Date::from_days(first - 1).is_none());
    assert!(Date::from_days(last + 1).is_none());
}

#[test]
fn the_last_bucket_of_a_date_counts_and_unreadable_dates_do_not() {
    let today = date(2026, 6, 16);
    let weeks = activity_weeks(today);
    let buckets = vec![
        bucket("2026-06-14", 10),
        bucket("2026-06-15", -7),
        bucket("2026-06-14", 30),
        bucket("2026-06-17", 99),
        bucket("2026-02-30", 5),
        bucket("today", 6),
        bucket("2026-06-13 ", 8),
        bucket("2025-06-22", 4),
        bucket("2025-06-21", 3),
    ];
    let values = activity_values(&buckets, &weeks, today);
    assert_eq!(values.len(), 364);
    assert_eq!(values[0], Some(4));
    assert_eq!(values[357], Some(30));
    assert_eq!(values[358], Some(0));
    assert_eq!(values[359], Some(0));
    assert_eq!(values[360], None);
    assert_eq!(values[363], None);
    let total: i64 = values.iter().flatten().sum();
    let readable = chrono::NaiveDate::parse_from_str("2026-06-13 ", "%Y-%m-%d").is_ok();
    assert_eq!(total, if readable { 42 } else { 34 });
}

#[test]
fn dates_in_iso_notation_are_read_as_their_days() {
    for (text, year, month, day) in [
        ("2026-06-14", 2026, 6, 14),
        ("2024-02-29", 2024, 2, 29),
        ("0000-01-01", 0, 1, 1),
        ("0007-12-31", 7, 12, 31),
        ("9999-12-31", 9999, 12, 31),
        ("+10000-01-01", 10_000, 1, 1),
        ("-0001-12-31", -1, 12, 31),
        ("-262143-01-01", -262_143, 1, 1),
        ("+262142-12-25", 262_142, 12, 25),
    ] {
        let first = date(year, month, day);
        let values = activity_values(&vec![bucket(text, 5)], &vec![first], first);
        assert_eq!(values[0], Some(5), "{text}");
    }
}

#[test]
fn values_follow_the_days_that_were_read() {
    let today = date(2026, 6, 16);
    let weeks = vec![date(2026, 6, 14)];
    let day = today.days();
    let dated = vec![
        DatedTokens {
            day: Some(day),
            tokens: 5,
        },
        DatedTokens {
            day: None,
            tokens: 50,
        },
        DatedTokens {
            day: Some(day - 2),
            tokens: -1,
        },
        DatedTokens {
            day: Some(day),
            tokens: 8,
        },
    ];
    assert_eq!(
        values_by_date(&dated, &weeks, today),
        vec![Some(0), Some(0), Some(8), None, None, None, None]
    );
}

fn reference_levels(values: &[Option<i64>]) -> Vec<Option<usize>> {
    let peak = values.iter().flatten().copied().max().unwrap_or(0);
    values
        .iter()
        .map(|value| {
            let value = (*value)?;
            if value == 0 || peak == 0 {
                Some(0)
            } else {
                Some(((value as f64 / peak as f64) * 4.0).ceil() as usize)
            }
        })
        .collect()
}

#[test]
fn levels_agree_with_doubles() {
    let numbers = interesting_numbers();
    for chunk in numbers.chunks(9) {
        let mut values: Vec<Option<i64>> = chunk.iter().copied().map(Some).collect();
        values.push(None);
        assert_eq!(activity_levels(&values), reference_levels(&values));
        let negative: Vec<Option<i64>> = chunk
            .iter()
            .map(|value| Some(if *value > 0 { -*value } else { *value }))
            .collect();
        assert_eq!(activity_levels(&negative), reference_levels(&negative));
        let positive: Vec<Option<i64>> =
            chunk.iter().map(|value| Some(value.saturating_abs())).collect();
        let levels = activity_levels(&positive);
        assert_eq!(levels, reference_levels(&positive));
        assert!(levels.iter().flatten().all(|level| *level <= 4));
    }
    assert_eq!(
        activity_levels(&vec![Some(1), Some(25), Some(26), Some(76), Some(100), Some(0), None]),
        vec![Some(1), Some(1), Some(2), Some(4), Some(4), Some(0), None]
    );
    assert_eq!(activity_levels(&vec![]), vec![]);
    assert_eq!(activity_levels(&vec![None]), vec![None]);
}

#[test]
fn glyphs_tell_levels_apart() {
    assert_eq!(activity_glyph(None, true), ' ');
    assert_eq!(activity_glyph(None, false), ' ');
    assert_eq!(activity_glyph(Some(0), true), '·');
    assert_eq!(activity_glyph(Some(0), false), ' ');
    assert_eq!(activity_glyph(Some(1), true), '░');
    assert_eq!(activity_glyph(Some(2), false), '▒');
    assert_eq!(activity_glyph(Some(3), true), '▓');
    assert_eq!(activity_glyph(Some(4), false), '█');
    assert_eq!(activity_glyph(Some(usize::MAX), true), '█');
}

#[test]
fn weekly_totals_add_up_sevens_and_the_rest() {
    assert_eq!(weekly_totals(&vec![]), Vec::<i64>::new());
    let mut values: Vec<Option<i64>> = (1..=15).map(Some).collect();
    values[3] = None;
    assert_eq!(weekly_totals(&values), vec![24, 77, 15]);
    let total: i64 = values.iter().flatten().sum();
    assert_eq!(weekly_totals(&values).iter().sum::<i64>(), total);
}

#[test]
fn months_are_named_where_they_begin() {
    let weeks = activity_weeks(date(2026, 6, 16));
    let header = month_header(&weeks);
    assert!(header.starts_with("     Jun   Jul"));
    assert_eq!(header.matches("Jun").count(), 2);
    assert_eq!(header.matches("Feb").count(), 1);
    let mut expected = "    ".to_string();
    let mut previous = None;
    for week in &weeks {
        let day = chrono::NaiveDate::from_num_days_from_ce_opt(week.days()).unwrap();
        expected.push(' ');
        if previous != Some(day.month()) {
            expected.push_str(&day.format("%b").to_string());
            previous = Some(day.month());
        } else {
            expected.push(' ');
        }
    }
    assert_eq!(header, expected);
}

#[test]
fn charts_are_drawn_line_by_line() {
    let today = date(2026, 6, 16);
    let buckets = vec![
        bucket("2026-06-09", 10),
        bucket("2026-06-14", 20),
        bucket("2026-06-15", 40),
    ];
    let daily = token_activity_lines(UsageView::Daily, &buckets, today);
    assert_eq!(daily.len(), 9);
    assert!(daily[1].starts_with(" Su · · ·"));
    assert!(daily[1].ends_with(" · ▒"));
    assert!(daily[2].starts_with(" Mo"));
    assert!(daily[2].ends_with(" · █"));
    assert!(daily[3].starts_with(" Tu"));
    assert!(daily[3].ends_with(" ░ ·"));
    assert!(daily[4].starts_with(" We"));
    assert!(daily[4].ends_with(" ·  "));
    assert_eq!(daily[1].chars().count(), 3 + 104);
    assert_eq!(daily[8], "     · none  ░ low  ▒ medium  ▓ high  █ peak");

    let weekly = token_activity_lines(UsageView::Weekly, &buckets, today);
    assert_eq!(weekly[0], daily[0]);
    assert!(weekly[1].starts_with("          "));
    assert!(weekly[1].ends_with(" ░ █"));
    assert_eq!(weekly[1].chars().count(), 5 + 104);
    assert_eq!(weekly[2], "     Weekly total · top 60");

    let cumulative = token_activity_lines(UsageView::Cumulative, &buckets, today);
    assert!(cumulative[1].ends_with("   ░ █"));
    assert_eq!(cumulative[2], "     Running total · top 70");

    let weeks = activity_weeks(today);
    let values = activity_values(&buckets, &weeks, today);
    assert_eq!(daily_activity_lines(&weeks, &values), daily);
    for (view, lines) in [
        (UsageView::Daily, &daily),
        (UsageView::Weekly, &weekly),
        (UsageView::Cumulative, &cumulative),
    ] {
        assert!(activity_sums_fit(view, &values));
        assert_eq!(&activity_lines(view, &weeks, &values), lines);
        assert_eq!(
            checked_activity_lines(view, &buckets, today).as_ref(),
            Some(lines)
        );
    }
}

#[test]
fn sums_that_do_not_fit_are_noticed() {
    let today = date(2026, 6, 16);
    let same_week = vec![bucket("2026-06-14", i64::MAX), bucket("2026-06-15", 1)];
    assert!(checked_activity_lines(UsageView::Daily, &same_week, today).is_some());
    assert!(checked_activity_lines(UsageView::Weekly, &same_week, today).is_none());
    assert!(checked_activity_lines(UsageView::Cumulative, &same_week, today).is_none());
    let two_weeks = vec![bucket("2026-06-07", i64::MAX), bucket("2026-06-14", 1)];
    assert!(checked_activity_lines(UsageView::Weekly, &two_weeks, today).is_some());
    assert!(checked_activity_lines(UsageView::Cumulative, &two_weeks, today).is_none());
    let last = Date::from_days(chrono::NaiveDate::MAX.num_days_from_ce()).unwrap();
    assert!(checked_activity_lines(UsageView::Daily, &two_weeks, last).is_none());
    let ahead = vec![bucket("2026-06-14", i64::MAX), bucket("2026-06-18", 1)];
    assert!(checked_activity_lines(UsageView::Cumulative, &ahead, today).is_some());
}

#[test]
fn usage_is_printed_line_by_line() {
    let today = date(2026, 6, 16);
    let missing = usage_unavailable(UsageView::Daily, "why");
    assert_eq!(
        usage_lines(&missing, today).unwrap(),
        vec!["Token activity   last 12 months", "  unavailable     why"]
    );
    let silent = UsageOutput {
        status: UsageStatus::Unavailable,
        reason: None,
        view: UsageView::Daily,
        summary: None,
        daily_usage_buckets: None,
    };
    assert_eq!(
        usage_lines(&silent, today).unwrap()[1],
        "  unavailable     unavailable"
    );
    let mut profile = token_usage_profile();
    let shown = normalize_token_usage(profile.clone(), UsageView::Weekly);
    let lines = usage_lines(&shown, today).unwrap();
    assert_eq!(lines.len(), 5);
    assert_eq!(
        lines[1],
        "  Lifetime 19.1B · Peak 912M · Streak 1d (best 38d) · Longest task 11h 44m"
    );
    assert_eq!(lines[4], "     Weekly total · top 36K");
    profile.stats.daily_usage_buckets = None;
    let shown = normalize_token_usage(profile, UsageView::Weekly);
    let lines = usage_lines(&shown, today).unwrap();
    assert_eq!(lines[2], "  Token activity history unavailable");
    let large = UsageOutput {
        status: UsageStatus::Available,
        reason: None,
        view: UsageView::Weekly,
        summary: None,
        daily_usage_buckets: Some(vec![
            bucket("2026-06-14", i64::MAX),
            bucket("2026-06-15", i64::MAX),
        ]),
    };
    assert!(usage_lines(&large, today).is_none());
}
