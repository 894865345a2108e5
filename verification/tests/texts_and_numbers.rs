use cxst::calendar::{local_reset_display, month_abbrev, weekday_abbrev, ResetMoment};
use cxst::double::{divide, nearest_integer, round_half_even, round_quotient, times_power};
use cxst::duration::{format_duration, next_sleep, parse_duration_arg, Duration};
use cxst::percent::Percent;
use cxst::sorted;
use cxst::text;

fn interesting_percentages() -> Vec<f64> {
    let mut values = vec![
        0.0,
        -0.0,
        0.5,
        1.5,
        2.5,
        12.5,
        33.0,
        49.5,
        50.5,
        82.5,
        83.0,
        99.49999999999999,
        99.5,
        100.0,
        f64::MIN_POSITIVE,
        f64::from_bits(1),
        f64::EPSILON,
        0.1,
        1.0e-20,
        99.99999999999999,
    ];
    for tenth in 0..=1000 {
        values.push(f64::from(tenth) / 10.0);
    }
    let mut state: u64 = 12345;
    for _ in 0..2000 {
        state = state.wrapping_mul(6_364_136_223_846_793_005).wrapping_add(1_442_695_040_888_963_407);
        values.push((state >> 11) as f64 / (1_u64 << 53) as f64 * 100.0);
        let small = f64::from_bits(state >> 2);
        if (0.0..=100.0).contains(&small) {
            values.push(small);
        }
    }
    values
}

#[test]
fn parses_wait_durations() {
    assert_eq!(parse_duration_arg("1").unwrap(), Duration::from_secs(1));
    assert_eq!(parse_duration_arg("60s").unwrap(), Duration::from_secs(60));
    assert_eq!(parse_duration_arg("1m").unwrap(), Duration::from_secs(60));
    assert_eq!(
        parse_duration_arg("1 minute").unwrap(),
        Duration::from_secs(60)
    );
    assert_eq!(
        parse_duration_arg("1h").unwrap(),
        Duration::from_secs(3_600)
    );
    assert_eq!(
        parse_duration_arg("250ms").unwrap(),
        Duration::from_millis(250)
    );
    assert!(parse_duration_arg("0s").is_err());
}

#[test]
fn durations_have_many_units_and_fixed_errors() {
    let millis = |raw: &str| parse_duration_arg(raw).unwrap().as_millis();
    for unit in ["milliseconds", "millisecond", "millis", "ms"] {
        assert_eq!(millis(&format!("7{unit}")), 7);
    }
    for unit in ["seconds", "second", "secs", "sec", "s", ""] {
        assert_eq!(millis(&format!("7 {unit}")), 7_000);
    }
    for unit in ["minutes", "minute", "mins", "min", "m"] {
        assert_eq!(millis(&format!(" 7\t{unit}  ")), 420_000);
    }
    for unit in ["HOURS", "Hour", "hrs", "hr", "h"] {
        assert_eq!(millis(&format!("+7{unit}")), 25_200_000);
    }
    let error = |raw: &str| parse_duration_arg(raw).unwrap_err();
    assert_eq!(error(""), "expected a duration");
    assert_eq!(error(" \n"), "expected a duration");
    for raw in ["-1s", "1.5s", "s", "1d", "1ss", "one", "99999999999999999999"] {
        assert_eq!(
            error(raw),
            "expected a positive duration such as 60s or 1m",
            "{raw}"
        );
    }
    assert_eq!(error("18446744073709551615h"), "duration is too large");
    assert_eq!(error("0ms"), "expected a positive duration");
    assert_eq!(
        parse_duration_arg("18446744073709551615ms").unwrap(),
        Duration::from_millis(u64::MAX)
    );
}

#[test]
fn durations_are_written_in_their_largest_unit() {
    assert_eq!(format_duration(Duration::from_millis(0)), "0ms");
    assert_eq!(format_duration(Duration::new(0, 999_999_999)), "999ms");
    assert_eq!(format_duration(Duration::from_millis(1_999)), "1s");
    assert_eq!(format_duration(Duration::from_secs(60)), "1m");
    assert_eq!(format_duration(Duration::from_secs(90)), "90s");
    assert_eq!(format_duration(Duration::from_secs(7_200)), "2h");
    assert_eq!(
        format_duration(Duration::from_secs(u64::MAX)),
        "18446744073709551615s"
    );
    for raw in ["250ms", "1s", "59s", "1m", "90m", "2h"] {
        let duration = parse_duration_arg(raw).unwrap();
        let again = parse_duration_arg(&format_duration(duration)).unwrap();
        assert_eq!(again, duration);
    }
}

#[test]
fn spans_agree_with_the_standard_ones() {
    let spans = [
        (0_u64, 0_u32),
        (0, 1),
        (1, 999_999_999),
        (59, 500_000_000),
        (60, 0),
        (u64::MAX, 999_999_999),
    ];
    for (secs, nanos) in spans {
        let ours = Duration::new(secs, nanos);
        let theirs = std::time::Duration::new(secs, nanos);
        assert_eq!(ours.as_secs(), theirs.as_secs());
        assert_eq!(ours.subsec_nanos(), theirs.subsec_nanos());
        assert_eq!(ours.as_millis(), theirs.as_millis());
        for (more_secs, more_nanos) in spans {
            let other = Duration::new(more_secs, more_nanos);
            let other_theirs = std::time::Duration::new(more_secs, more_nanos);
            assert_eq!(ours.is_at_least(&other), theirs >= other_theirs);
            assert_eq!(
                ours.checked_sub(&other)
                    .map(|rest| (rest.as_secs(), rest.subsec_nanos())),
                theirs
                    .checked_sub(other_theirs)
                    .map(|rest| (rest.as_secs(), rest.subsec_nanos()))
            );
        }
    }
}

#[test]
fn sleeps_end_with_the_timeout() {
    let seconds = Duration::from_secs;
    assert_eq!(next_sleep(seconds(60), None, seconds(5)), seconds(60));
    assert_eq!(
        next_sleep(seconds(60), Some(seconds(100)), seconds(10)),
        seconds(60)
    );
    assert_eq!(
        next_sleep(seconds(60), Some(seconds(100)), seconds(70)),
        seconds(30)
    );
    assert_eq!(
        next_sleep(seconds(60), Some(seconds(100)), seconds(100)),
        seconds(0)
    );
    assert_eq!(
        next_sleep(seconds(60), Some(seconds(100)), seconds(101)),
        seconds(60)
    );
}

#[test]
fn percentages_agree_with_doubles() {
    for value in interesting_percentages() {
        let percent = Percent::in_range(value.to_bits()).unwrap();
        assert_eq!(percent.to_bits(), value.to_bits());
        assert_eq!(percent.text(), format!("{value:.0}"), "{value:e}");
        assert_eq!(
            percent.remaining().to_bits(),
            (100.0 - value).to_bits(),
            "{value:e}"
        );
        let filled = ((value.clamp(0.0, 100.0) / 100.0) * 20.0).round() as usize;
        assert_eq!(
            percent.bar(),
            format!("[{}{}]", "█".repeat(filled), "░".repeat(20 - filled)),
            "{value:e}"
        );
    }
}

#[test]
fn percentages_are_ordered_like_doubles() {
    let values = interesting_percentages();
    for (index, left) in values.iter().enumerate() {
        for right in values.iter().skip(index % 7).step_by(97) {
            let a = Percent::in_range(left.to_bits()).unwrap();
            let b = Percent::in_range(right.to_bits()).unwrap();
            assert_eq!(a.is_at_most(&b), left <= right);
            assert_eq!(a.stands_before(&b), left.total_cmp(right).is_lt());
            if left <= right {
                assert!(b.remaining().is_at_most(&a.remaining()));
            }
        }
    }
}

#[test]
fn doubles_are_brought_into_range() {
    for value in [
        f64::NEG_INFINITY,
        -1.0,
        -f64::MIN_POSITIVE,
        -0.0,
        0.0,
        50.25,
        100.0,
        100.00000000000001,
        1.0e300,
        f64::INFINITY,
    ] {
        assert_eq!(
            Percent::clamped(value.to_bits()).to_bits(),
            value.clamp(0.0, 100.0).to_bits()
        );
        assert_eq!(
            Percent::in_range(value.to_bits()).is_some(),
            (0.0..=100.0).contains(&value)
        );
    }
    let nan = Percent::clamped(f64::NAN.to_bits());
    assert!(f64::from_bits(nan.to_bits()).is_nan());
    assert!(f64::from_bits(nan.remaining().to_bits()).is_nan());
    assert_eq!(nan.text(), format!("{:.0}", f64::NAN));
    assert_eq!(nan.bar(), format!("[{}]", "░".repeat(20)));
    assert!(!nan.is_at_most(&nan));
    assert!(Percent::in_range(f64::NAN.to_bits()).is_none());
}

#[test]
fn rounding_agrees_with_doubles() {
    let mut state: u64 = 99;
    let mut numbers = vec![1_u64, 2, 3, 10, (1 << 53) - 1, 1 << 53, (1 << 53) + 1, 1 << 63];
    for shift in 0..62 {
        state = state.wrapping_mul(6_364_136_223_846_793_005).wrapping_add(7);
        numbers.push((state >> (shift + 1)) | 1);
    }
    for a in &numbers {
        assert_eq!(nearest_integer(u128::from(*a)), (*a as f64) as u128);
        for b in &numbers {
            let (x, y) = (*a as f64, *b as f64);
            let r = round_quotient(x as u128, y as u128);
            assert_eq!(r.significand as f64 * 2.0_f64.powi(r.exponent), x / y);
            let f = divide(x as u128, y as u128);
            assert_eq!(f.num as f64 / f.den as f64, x / y);
        }
    }
    assert_eq!(round_half_even(5, 2), 2);
    assert_eq!(round_half_even(7, 2), 4);
    assert_eq!(round_half_even(8, 3), 3);
    assert_eq!(times_power(3, 10), 3_072);
}

#[test]
fn white_space_is_that_of_the_standard_library() {
    for code in 0..=0x10_FFFF_u32 {
        if let Some(c) = char::from_u32(code) {
            assert_eq!(text::white_space(c), c.is_whitespace(), "{code:x}");
        }
    }
}

#[test]
fn texts_are_handled_like_those_of_the_standard_library() {
    let samples = [
        "", " ", "a", "ab", "b", " a b ", "é", "Ää", "\u{2003}x\u{85}", "workspace", "work", "401",
        "%", "AGENTS.md", "z\u{10ffff}", "z\u{ffff}",
    ];
    for a in samples {
        let chars = text::chars_of(a);
        assert_eq!(chars, a.chars().collect::<Vec<char>>());
        assert_eq!(text::trim(&chars), a.trim().chars().collect::<Vec<char>>());
        assert_eq!(
            text::to_lowercase(&chars),
            a.to_ascii_lowercase().chars().collect::<Vec<char>>()
        );
        assert_eq!(
            text::parse_number(&chars),
            a.parse::<u64>().ok(),
            "{a:?}"
        );
        for b in samples {
            assert_eq!(text::same_text(a, b), a == b);
            assert_eq!(text::has_prefix(a, b), a.starts_with(b));
            assert_eq!(text::has_suffix(&chars, b), a.ends_with(b));
            assert_eq!(text::contains(a, b), a.contains(b));
            assert_eq!(text::precedes(a, b), a < b);
            assert_eq!(
                text::strip_prefix(a, b),
                a.strip_prefix(b).map(str::to_string)
            );
        }
    }
    assert_eq!(text::decimal_text(0), "0");
    assert_eq!(text::decimal_text(u128::MAX), u128::MAX.to_string());
    assert_eq!(text::signed_decimal_text(i64::MIN), i64::MIN.to_string());
    assert_eq!(text::signed_decimal_text(-7), "-7");
    for number in ["+5", "007", "18446744073709551615", "18446744073709551616", "+", "-1", "1_0"] {
        assert_eq!(
            text::parse_number(&text::chars_of(number)),
            number.parse::<u64>().ok()
        );
    }
    let parts = vec!["a".to_string(), "".to_string(), "b".to_string()];
    assert_eq!(text::join(&parts, ", "), parts.join(", "));
    assert_eq!(text::join(&vec![], ", "), "");
    assert_eq!(text::repeat("ab", 3), "ababab");
    assert_eq!(text::pad_right("é", 3), format!("{:<3}", "é"));
    assert_eq!(text::pad_left("é", 3), format!("{:>3}", "é"));
    assert_eq!(text::pad_left("four", 3), "four");
}

#[test]
fn texts_are_kept_in_order_and_once() {
    let mut list: Vec<String> = vec![];
    for item in ["m", "b", "z", "b", "", "mm", "a"] {
        sorted::insert(&mut list, item.to_string());
    }
    assert_eq!(list, vec!["", "a", "b", "m", "mm", "z"]);
    assert_eq!(sorted::place_of(&list, "m"), (4, true));
    assert_eq!(sorted::place_of(&list, "c"), (3, false));
}

#[test]
fn resets_of_today_go_without_a_date() {
    let display = |seconds: i64, local: i64, now: i64| {
        local_reset_display(&ResetMoment {
            seconds,
            local,
            now,
        })
    };
    assert_eq!(display(0, 0, 86_399), Some("00:00".to_string()));
    assert_eq!(display(0, 0, 86_400), Some("00:00 on 01 Jan".to_string()));
    assert_eq!(display(0, -1, 0), Some("23:59 on 31 Dec".to_string()));
    assert_eq!(display(0, -1, -86_400), Some("23:59".to_string()));
    assert_eq!(display(i64::MAX, 0, 0), None);
    assert_eq!(display(0, i64::MIN, 0), None);
    assert_eq!(display(8_210_266_876_799, 8_210_266_876_799, 0), Some("23:59 on 31 Dec".to_string()));
    assert_eq!(display(8_210_266_876_800, 0, 0), None);
    assert_eq!(display(-8_334_601_228_800, -8_334_601_228_800, 0), Some("00:00 on 01 Jan".to_string()));
    assert_eq!(display(-8_334_601_228_801, 0, 0), None);
}

#[test]
fn months_and_weekdays_have_short_names() {
    let months: Vec<&str> = (0..14).map(month_abbrev).collect();
    assert_eq!(
        months,
        vec![
            "", "Jan", "Feb", "Mar", "Apr", "May", "Jun", "Jul", "Aug", "Sep", "Oct", "Nov",
            "Dec", ""
        ]
    );
    let days: Vec<&str> = (0..8).map(weekday_abbrev).collect();
    assert_eq!(days, vec!["Su", "Mo", "Tu", "We", "Th", "Fr", "Sa", ""]);
}
