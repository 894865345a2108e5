use chrono::TimeZone;
use cxst::account::PlanType;
use cxst::calendar::ResetMoment;
use cxst::duration::Duration;
use cxst::limits::{
    assign_rate_limit_window, fallback_window_kind, is_approximate_window,
    limit_has_displayable_window, normalize_rate_limits, rate_limit_error_reason,
    rate_limits_output, unavailable, window_kind, window_output, RateLimitOutput,
    RateLimitSnapshot, RateLimitStatus, RateLimitWindow, RateLimitWindowKind, RateLimitsOutput,
    RateLimitsReply, WindowFallback,
};
use cxst::percent::Percent;
use cxst::wait::{
    check_rate_limits, evaluate_wait, format_check_ok, format_wait_continue,
    format_wait_triggered, lowest_remaining_window, parse_percent_arg, percent_source,
    selected_wait_windows, wait_reset_suffix, wait_step, CheckArgs, CommandOutput, Report,
    WaitAction, WaitArgs, WaitDecision, WaitEventOutput, WaitObservedWindow, WaitWindow,
};
use serde_json::{Number, Value};

fn percent(value: f64) -> Percent {
    Percent::in_range(value.to_bits()).unwrap()
}

fn number(value: &Percent) -> f64 {
    f64::from_bits(value.to_bits())
}

fn moment(seconds: i64) -> ResetMoment {
    ResetMoment {
        seconds,
        local: seconds,
        now: 1_699_990_000,
    }
}

fn snapshot(
    limit_id: Option<&str>,
    primary: Option<f64>,
    secondary: Option<f64>,
) -> RateLimitSnapshot {
    snapshot_with_window_minutes(limit_id, primary, Some(300), secondary, Some(10_080))
}

fn snapshot_with_window_minutes(
    limit_id: Option<&str>,
    primary: Option<f64>,
    primary_window_minutes: Option<i64>,
    secondary: Option<f64>,
    secondary_window_minutes: Option<i64>,
) -> RateLimitSnapshot {
    RateLimitSnapshot {
        limit_id: limit_id.map(str::to_string),
        primary: primary.map(|used_percent| RateLimitWindow {
            used_percent: used_percent.to_bits(),
            window_minutes: primary_window_minutes,
            resets_at: Some(moment(1_700_000_000)),
        }),
        secondary: secondary.map(|used_percent| RateLimitWindow {
            used_percent: used_percent.to_bits(),
            window_minutes: secondary_window_minutes,
            resets_at: Some(moment(1_700_360_000)),
        }),
        plan_type: Some(PlanType::Plus),
    }
}

fn available(snapshots: Vec<RateLimitSnapshot>) -> RateLimitsOutput {
    RateLimitsOutput {
        status: RateLimitStatus::Available,
        reason: None,
        limits: normalize_rate_limits(snapshots),
    }
}

fn parse_percent(raw: &str) -> Result<f64, String> {
    let source = percent_source(raw);
    parse_percent_arg(source.parse::<f64>().ok().map(f64::to_bits)).map(|value| number(&value))
}

fn text_or_null(text: &Option<String>) -> Value {
    match text {
        Some(text) => Value::String(text.clone()),
        None => Value::Null,
    }
}

fn double_value(value: &Percent) -> Value {
    Value::Number(Number::from_f64(number(value)).unwrap())
}

fn window_value(window: &WaitObservedWindow) -> Value {
    let mut object = serde_json::Map::new();
    object.insert("scope".to_string(), Value::String(window.scope.clone()));
    object.insert("window".to_string(), Value::String(window.window.clone()));
    object.insert(
        "remainingPercent".to_string(),
        double_value(&window.remaining_percent),
    );
    object.insert("usedPercent".to_string(), double_value(&window.used_percent));
    object.insert("resetAt".to_string(), text_or_null(&window.reset_at));
    object.insert(
        "resetDisplay".to_string(),
        text_or_null(&window.reset_display),
    );
    Value::Object(object)
}

fn event_text(event: &WaitEventOutput) -> String {
    let mut object = serde_json::Map::new();
    object.insert("status".to_string(), Value::String(event.status.clone()));
    object.insert(
        "thresholdRemainingPercent".to_string(),
        double_value(&event.threshold_remaining_percent),
    );
    object.insert(
        "windows".to_string(),
        Value::Array(event.windows.iter().map(window_value).collect()),
    );
    object.insert("reason".to_string(), text_or_null(&event.reason));
    object.insert(
        "nextPollSeconds".to_string(),
        match event.next_poll_seconds {
            Some(seconds) => Value::Number(Number::from(seconds)),
            None => Value::Null,
        },
    );
    format!("{}\n", serde_json::to_string(&Value::Object(object)).unwrap())
}

fn stdout(output: &CommandOutput) -> String {
    report_text(&output.stdout)
}

fn report_text(report: &Report) -> String {
    match report {
        Report::Text(text) => text.clone(),
        Report::Event(event) => event_text(event),
    }
}

#[test]
fn normalizes_default_limit_id_and_remaining_percentages() {
    let limits = normalize_rate_limits(vec![snapshot(None, Some(25.0), Some(40.0))]);

    assert_eq!(limits.len(), 1);
    assert_eq!(limits[0].scope, "codex");
    assert_eq!(
        number(&limits[0].five_hour.as_ref().unwrap().remaining_percent),
        75.0
    );
    assert_eq!(
        number(&limits[0].weekly.as_ref().unwrap().remaining_percent),
        60.0
    );
}

#[test]
fn normalizes_monthly_primary_window_by_duration() {
    let limits = normalize_rate_limits(vec![snapshot_with_window_minutes(
        None,
        Some(27.0),
        Some(43_200),
        None,
        None,
    )]);

    assert_eq!(limits.len(), 1);
    assert_eq!(limits[0].scope, "codex");
    assert!(limits[0].five_hour.is_none());
    assert!(limits[0].weekly.is_none());
    assert_eq!(
        number(&limits[0].monthly.as_ref().unwrap().remaining_percent),
        73.0
    );
}

#[test]
fn api_key_auth_has_fixed_unavailable_reason() {
    let output = unavailable("chatgpt authentication required");

    assert!(matches!(output.status, RateLimitStatus::Unavailable));
    assert_eq!(
        output.reason.as_deref(),
        Some("chatgpt authentication required")
    );
}

#[test]
fn unauthenticated_auth_has_fixed_unavailable_reason() {
    let output = unavailable("codex account authentication required");

    assert!(matches!(output.status, RateLimitStatus::Unavailable));
    assert_eq!(
        output.reason.as_deref(),
        Some("codex account authentication required")
    );
}

#[test]
fn wait_evaluation_triggers_only_selected_window() {
    let rate_limits = available(vec![snapshot(None, Some(10.0), Some(82.0))]);

    let five_hour = evaluate_wait(&rate_limits, WaitWindow::FiveHour, &percent(20.0));
    assert!(matches!(five_hour, WaitDecision::Continue(_)));

    let weekly = evaluate_wait(&rate_limits, WaitWindow::Weekly, &percent(20.0));
    match weekly {
        WaitDecision::Triggered(windows) => {
            assert_eq!(windows.len(), 1);
            assert_eq!(windows[0].scope, "codex");
            assert_eq!(windows[0].window, "weekly");
            assert_eq!(number(&windows[0].remaining_percent), 18.0);
        }
        other => panic!("expected weekly trigger, got {other:?}"),
    }
}

#[test]
fn wait_evaluation_can_select_monthly_window() {
    let rate_limits = available(vec![snapshot_with_window_minutes(
        None,
        Some(88.0),
        Some(43_200),
        None,
        None,
    )]);

    match evaluate_wait(&rate_limits, WaitWindow::Monthly, &percent(15.0)) {
        WaitDecision::Triggered(windows) => {
            assert_eq!(windows.len(), 1);
            assert_eq!(windows[0].scope, "codex");
            assert_eq!(windows[0].window, "monthly");
            assert_eq!(number(&windows[0].remaining_percent), 12.0);
        }
        other => panic!("expected monthly trigger, got {other:?}"),
    }
}

#[test]
fn wait_evaluation_reports_unavailable_reason() {
    let decision = evaluate_wait(
        &unavailable("chatgpt authentication required"),
        WaitWindow::Both,
        &percent(10.0),
    );

    assert_eq!(
        decision,
        WaitDecision::Unavailable("chatgpt authentication required".to_string())
    );
}

#[test]
fn wait_evaluation_handles_missing_selected_windows() {
    let rate_limits = available(vec![snapshot(None, Some(10.0), None)]);

    assert_eq!(
        evaluate_wait(&rate_limits, WaitWindow::Weekly, &percent(10.0)),
        WaitDecision::Unavailable("no selected rate limit windows returned".to_string())
    );
}

#[test]
fn parses_wait_percentages() {
    assert_eq!(parse_percent("10").unwrap(), 10.0);
    assert_eq!(parse_percent("10%").unwrap(), 10.0);
    assert!(parse_percent("-1").is_err());
    assert!(parse_percent("101").is_err());
}

#[test]
fn check_with_mock_snapshot_exits_zero_when_above_threshold() {
    let args = CheckArgs {
        remaining_percent: percent(10.0),
        window: WaitWindow::Both,
    };
    let rate_limits = available(vec![snapshot(None, Some(20.0), Some(30.0))]);

    let result = check_rate_limits(&rate_limits, &args, true);
    let stdout = stdout(&result);
    let json: Value = serde_json::from_str(&stdout).unwrap();

    assert_eq!(result.exit_code, 0);
    assert_eq!(json["status"], "ok");
    assert_eq!(json["thresholdRemainingPercent"], 10.0);
    assert_eq!(json["windows"].as_array().unwrap().len(), 2);
    assert!(!stdout.contains("email"));
    assert!(!stdout.contains("codexHome"));
    assert!(!stdout.contains("directory"));
    assert!(!stdout.contains("agentsMd"));
    assert!(!stdout.contains("token"));
}

#[test]
fn check_with_mock_snapshot_exits_one_when_threshold_is_reached() {
    let args = CheckArgs {
        remaining_percent: percent(20.0),
        window: WaitWindow::Weekly,
    };
    let rate_limits = available(vec![snapshot(None, Some(20.0), Some(85.0))]);

    let result = check_rate_limits(&rate_limits, &args, false);

    assert_eq!(result.exit_code, 1);
    assert!(stdout(&result)
        .starts_with("rate limit threshold reached: codex weekly limit 15% left <= 20%"));
}

#[test]
fn check_with_mock_unavailable_rate_limits_exits_one() {
    let args = CheckArgs {
        remaining_percent: percent(10.0),
        window: WaitWindow::Both,
    };

    let result = check_rate_limits(&unavailable("chatgpt authentication required"), &args, true);
    let json: Value = serde_json::from_str(&stdout(&result)).unwrap();

    assert_eq!(result.exit_code, 1);
    assert_eq!(json["status"], "unavailable");
    assert_eq!(json["reason"], "chatgpt authentication required");
}

#[test]
fn check_with_anonymous_snapshot_fixture_covers_wire_shape() {
    let rate_limits = available(vec![
        snapshot(Some("codex"), Some(20.0), Some(30.0)),
        snapshot_with_window_minutes(
            Some("example_additional"),
            Some(90.0),
            Some(300),
            None,
            None,
        ),
        snapshot_with_window_minutes(
            Some("zz_example_monthly"),
            Some(27.0),
            Some(43_200),
            None,
            None,
        ),
    ]);
    let args = CheckArgs {
        remaining_percent: percent(15.0),
        window: WaitWindow::FiveHour,
    };

    let result = check_rate_limits(&rate_limits, &args, true);
    let printed = stdout(&result);
    let json: Value = serde_json::from_str(&printed).unwrap();

    assert_eq!(result.exit_code, 1);
    assert_eq!(json["status"], "threshold_reached");
    assert_eq!(json["thresholdRemainingPercent"], 15.0);
    assert_eq!(json["windows"].as_array().unwrap().len(), 1);
    assert_eq!(json["windows"][0]["scope"], "additional_1");
    assert_eq!(json["windows"][0]["window"], "5h");
    assert_eq!(json["windows"][0]["remainingPercent"], 10.0);
    assert!(!printed.contains("example_additional"));
    assert!(!printed.contains("Example additional limit"));
    assert!(!printed.contains("zz_example_monthly"));
    assert!(!printed.contains("email"));
    assert!(!printed.contains("token"));

    let args = CheckArgs {
        remaining_percent: percent(75.0),
        window: WaitWindow::Monthly,
    };
    let result = check_rate_limits(&rate_limits, &args, true);
    let printed = stdout(&result);
    let json: Value = serde_json::from_str(&printed).unwrap();

    assert_eq!(result.exit_code, 1);
    assert_eq!(json["windows"].as_array().unwrap().len(), 1);
    assert_eq!(json["windows"][0]["scope"], "additional_2");
    assert_eq!(json["windows"][0]["window"], "monthly");
    assert_eq!(json["windows"][0]["remainingPercent"], 73.0);
    assert!(!printed.contains("zz_example_monthly"));
}

#[test]
fn window_lengths_agree_with_doubles() {
    for expected in [300_i64, 10_080, 43_200, 0, 1, -300, 7_777_777, i64::MAX, i64::MIN] {
        let double = expected as f64;
        let mut lengths = vec![0, 1, -1, 284, 285, 286, 314, 315, 316, i64::MAX, i64::MIN];
        for bound in [double * 0.95, double * 1.05, double] {
            let near = bound as i64;
            for step in [0_i64, 1, 2, 512, 1024] {
                lengths.push(near.saturating_add(step));
                lengths.push(near.saturating_sub(step));
            }
        }
        for minutes in lengths {
            let real = minutes as f64;
            assert_eq!(
                is_approximate_window(minutes, expected),
                real >= double * 0.95 && real <= double * 1.05,
                "{minutes} against {expected}"
            );
        }
    }
}

#[test]
fn window_kinds_have_five_percent_to_spare() {
    let kind = |minutes: i64| window_kind(Some(minutes));
    assert_eq!(window_kind(None), None);
    assert_eq!(kind(-300), None);
    assert_eq!(kind(0), None);
    assert_eq!(kind(284), None);
    assert_eq!(kind(285), Some(RateLimitWindowKind::FiveHour));
    assert_eq!(kind(315), Some(RateLimitWindowKind::FiveHour));
    assert_eq!(kind(316), None);
    assert_eq!(kind(9_575), None);
    assert_eq!(kind(9_576), Some(RateLimitWindowKind::Weekly));
    assert_eq!(kind(10_584), Some(RateLimitWindowKind::Weekly));
    assert_eq!(kind(10_585), None);
    assert_eq!(kind(41_039), None);
    assert_eq!(kind(41_040), Some(RateLimitWindowKind::Monthly));
    assert_eq!(kind(45_360), Some(RateLimitWindowKind::Monthly));
    assert_eq!(kind(45_361), None);
    assert_eq!(kind(i64::MAX), None);
    assert_eq!(
        fallback_window_kind(WindowFallback::Primary),
        RateLimitWindowKind::FiveHour
    );
    assert_eq!(
        fallback_window_kind(WindowFallback::Secondary),
        RateLimitWindowKind::Weekly
    );
}

#[test]
fn windows_show_what_is_used_what_remains_and_when_they_reset() {
    let output = window_output(&RateLimitWindow {
        used_percent: 12.5_f64.to_bits(),
        window_minutes: Some(300),
        resets_at: Some(ResetMoment {
            seconds: 1_700_000_000,
            local: 1_700_003_600,
            now: 1_700_000_000,
        }),
    });
    assert_eq!(number(&output.used_percent), 12.5);
    assert_eq!(number(&output.remaining_percent), 87.5);
    assert_eq!(output.reset_at.as_deref(), Some("2023-11-14T22:13:20+00:00"));
    assert_eq!(output.reset_display.as_deref(), Some("23:13"));
    assert_eq!(output.window_minutes, Some(300));

    let later = window_output(&RateLimitWindow {
        used_percent: 250.0_f64.to_bits(),
        window_minutes: None,
        resets_at: Some(ResetMoment {
            seconds: 1_700_000_000,
            local: 1_700_007_200,
            now: 1_700_000_000,
        }),
    });
    assert_eq!(number(&later.used_percent), 100.0);
    assert_eq!(number(&later.remaining_percent), 0.0);
    assert_eq!(later.reset_display.as_deref(), Some("00:13 on 15 Nov"));

    let unknown = window_output(&RateLimitWindow {
        used_percent: (-3.0_f64).to_bits(),
        window_minutes: None,
        resets_at: None,
    });
    assert_eq!(number(&unknown.used_percent), 0.0);
    assert_eq!(number(&unknown.remaining_percent), 100.0);
    assert_eq!(unknown.reset_at, None);
    assert_eq!(unknown.reset_display, None);

    let distant = window_output(&RateLimitWindow {
        used_percent: f64::NAN.to_bits(),
        window_minutes: None,
        resets_at: Some(moment(i64::MAX)),
    });
    assert!(number(&distant.used_percent).is_nan());
    assert!(number(&distant.remaining_percent).is_nan());
    assert_eq!(distant.reset_at, None);
    assert_eq!(distant.reset_display, None);
}

#[test]
fn reset_instants_agree_with_the_date_library() {
    let instant = |seconds: i64| {
        window_output(&RateLimitWindow {
            used_percent: 0,
            window_minutes: None,
            resets_at: Some(moment(seconds)),
        })
        .reset_at
        .unwrap()
    };
    assert_eq!(instant(0), "1970-01-01T00:00:00+00:00");
    assert_eq!(instant(951_782_399), "2000-02-28T23:59:59+00:00");
    assert_eq!(instant(253_402_300_799), "9999-12-31T23:59:59+00:00");
    assert_eq!(instant(253_402_300_800), "+10000-01-01T00:00:00+00:00");
    assert_eq!(instant(-62_167_219_200), "0000-01-01T00:00:00+00:00");
    assert_eq!(instant(-62_167_219_201), "-0001-12-31T23:59:59+00:00");

    assert_eq!(
        instant(8_210_266_876_799),
        "+262142-12-31T23:59:59+00:00"
    );
    assert_eq!(
        instant(-8_334_601_228_800),
        "-262143-01-01T00:00:00+00:00"
    );
    for beyond in [8_210_266_876_800, -8_334_601_228_801] {
        let output = window_output(&RateLimitWindow {
            used_percent: 0,
            window_minutes: None,
            resets_at: Some(moment(beyond)),
        });
        assert_eq!(output.reset_at, None);
    }

    let mut seconds = -62_135_596_800_i64 * 4;
    while seconds < 400_000_000_000 {
        let output = window_output(&RateLimitWindow {
            used_percent: 0,
            window_minutes: None,
            resets_at: Some(moment(seconds)),
        });
        let time = chrono::Utc.timestamp_opt(seconds, 0).unwrap();
        assert_eq!(output.reset_at, Some(time.to_rfc3339()));
        assert_eq!(
            output.reset_display,
            Some(time.format("%H:%M on %d %b").to_string())
        );
        seconds += 987_654_321;
    }
}

#[test]
fn a_window_goes_to_the_place_of_its_length() {
    let window = RateLimitWindow {
        used_percent: 50.0_f64.to_bits(),
        window_minutes: Some(10_000),
        resets_at: None,
    };
    let mut output = RateLimitOutput {
        scope: "codex".to_string(),
        plan_type: None,
        five_hour: None,
        weekly: None,
        monthly: None,
    };
    assert!(!limit_has_displayable_window(&output));
    assign_rate_limit_window(&mut output, None, WindowFallback::Primary);
    assert!(!limit_has_displayable_window(&output));
    assign_rate_limit_window(&mut output, Some(&window), WindowFallback::Primary);
    assert!(limit_has_displayable_window(&output));
    assert!(output.five_hour.is_none());
    assert_eq!(number(&output.weekly.as_ref().unwrap().used_percent), 50.0);

    let other = RateLimitWindow {
        used_percent: 60.0_f64.to_bits(),
        window_minutes: Some(77),
        resets_at: None,
    };
    assign_rate_limit_window(&mut output, Some(&other), WindowFallback::Secondary);
    assert_eq!(number(&output.weekly.as_ref().unwrap().used_percent), 60.0);
    assign_rate_limit_window(&mut output, Some(&other), WindowFallback::Primary);
    assert_eq!(number(&output.five_hour.as_ref().unwrap().used_percent), 60.0);
}

#[test]
fn limits_come_once_for_each_identifier_and_in_order() {
    let limits = normalize_rate_limits(vec![
        snapshot(Some("zeta"), Some(1.0), None),
        snapshot(Some("codex"), Some(2.0), None),
        snapshot(Some("alpha"), Some(3.0), None),
        snapshot(None, Some(4.0), None),
        snapshot(Some("zeta"), Some(5.0), None),
        snapshot(Some("alphabet"), None, None),
    ]);
    let scopes: Vec<&str> = limits.iter().map(|limit| limit.scope.as_str()).collect();
    assert_eq!(
        scopes,
        vec!["additional_1", "additional_2", "codex", "additional_3"]
    );
    let used = |index: usize| number(&limits[index].five_hour.as_ref().unwrap().used_percent);
    assert_eq!(used(0), 3.0);
    assert!(limits[1].five_hour.is_none());
    assert_eq!(used(2), 4.0);
    assert_eq!(used(3), 5.0);
    assert_eq!(limits[0].plan_type.as_deref(), Some("plus"));
}

#[test]
fn replies_are_shown_with_fixed_reasons() {
    let reason = |reply: RateLimitsReply| rate_limits_output(reply).reason.unwrap();
    assert_eq!(
        reason(RateLimitsReply::NoAccount),
        "codex account authentication required"
    );
    assert_eq!(
        reason(RateLimitsReply::OtherBackend),
        "chatgpt authentication required"
    );
    assert_eq!(
        reason(RateLimitsReply::NoClient),
        "failed to construct backend client"
    );
    assert_eq!(
        reason(RateLimitsReply::Failed("HTTP 401 for someone".to_string())),
        "authentication failed while reading rate limits"
    );
    assert_eq!(
        reason(RateLimitsReply::Failed("status: Unauthorized".to_string())),
        "authentication failed while reading rate limits"
    );
    assert_eq!(
        reason(RateLimitsReply::Failed("HTTP 400".to_string())),
        "failed to fetch rate limits"
    );
    assert_eq!(
        reason(RateLimitsReply::Reported(vec![])),
        "no rate limit snapshots returned"
    );
    assert_eq!(rate_limit_error_reason(""), "failed to fetch rate limits");

    let output = rate_limits_output(RateLimitsReply::Reported(vec![snapshot(
        None,
        Some(25.0),
        None,
    )]));
    assert_eq!(output.status, RateLimitStatus::Available);
    assert_eq!(output.reason, None);
    assert_eq!(output.limits.len(), 1);
}

#[test]
fn percentages_are_read_with_one_sign_and_from_zero_to_hundred() {
    for raw in [
        "0", "100", " 12.5 % ", "12.5%", "\u{a0}7%", "1e1", "-0", "100.0000000000001", "nan",
        "inf", "", "%", "%%", "10%%", "10 %", "ten",
    ] {
        let source = raw.trim();
        let source = source.strip_suffix('%').unwrap_or(source);
        assert_eq!(percent_source(raw), source);
        match source.parse::<f64>() {
            Ok(value) if (0.0..=100.0).contains(&value) => {
                assert_eq!(parse_percent(raw), Ok(value));
            }
            _ => assert_eq!(
                parse_percent(raw),
                Err("expected a percentage from 0 to 100".to_string())
            ),
        }
    }
}

#[test]
fn selections_watch_their_windows() {
    let rate_limits = available(vec![
        snapshot(None, Some(10.0), Some(20.0)),
        snapshot_with_window_minutes(Some("m"), Some(30.0), Some(43_200), Some(40.0), None),
    ]);
    let names = |selection: WaitWindow| {
        selected_wait_windows(&rate_limits, selection)
            .iter()
            .map(|window| format!("{} {}", window.scope, window.window))
            .collect::<Vec<_>>()
    };
    assert_eq!(names(WaitWindow::FiveHour), vec!["codex 5h"]);
    assert_eq!(
        names(WaitWindow::Weekly),
        vec!["codex weekly", "additional_1 weekly"]
    );
    assert_eq!(names(WaitWindow::Monthly), vec!["additional_1 monthly"]);
    assert_eq!(
        names(WaitWindow::Both),
        vec![
            "codex 5h",
            "codex weekly",
            "additional_1 weekly",
            "additional_1 monthly"
        ]
    );
    assert!(WaitWindow::Both.includes_five_hour());
    assert!(!WaitWindow::Weekly.includes_five_hour());
    assert!(WaitWindow::Weekly.includes_weekly());
    assert!(!WaitWindow::Monthly.includes_weekly());
    assert!(WaitWindow::Monthly.includes_monthly());
    assert!(!WaitWindow::FiveHour.includes_monthly());
}

fn watched(scope: &str, remaining: f64, reset: Option<&str>) -> WaitObservedWindow {
    WaitObservedWindow {
        scope: scope.to_string(),
        window: "5h".to_string(),
        remaining_percent: percent(remaining),
        used_percent: percent(100.0 - remaining),
        reset_at: None,
        reset_display: reset.map(str::to_string),
    }
}

#[test]
fn the_first_of_the_lowest_windows_is_named() {
    let windows = vec![
        watched("a", 40.0, None),
        watched("b", 12.5, Some("19:31")),
        watched("c", 12.5, None),
    ];
    assert_eq!(lowest_remaining_window(&windows).unwrap().scope, "b");
    assert!(lowest_remaining_window(&vec![]).is_none());
    let zeros = vec![watched("plus", 0.0, None), watched("minus", -0.0, None)];
    assert_eq!(lowest_remaining_window(&zeros).unwrap().scope, "minus");

    assert_eq!(
        format_check_ok(&percent(10.0), &windows),
        "rate limit check ok: lowest selected limit is b 5h limit 12% left > 10% (resets 19:31)\n"
    );
    assert_eq!(format_check_ok(&percent(10.0), &vec![]), "");
    assert_eq!(
        format_wait_triggered(&percent(50.0), &windows),
        "rate limit threshold reached: a 5h limit 40% left <= 50%\n\
         rate limit threshold reached: b 5h limit 12% left <= 50% (resets 19:31)\n\
         rate limit threshold reached: c 5h limit 12% left <= 50%\n"
    );
    assert_eq!(
        format_wait_continue(&percent(5.0), &windows, Duration::from_secs(90)),
        "waiting: lowest selected limit is b 5h limit 12% left (threshold 5%, next poll in 90s) \
         (resets 19:31)\n"
    );
    assert_eq!(
        format_wait_continue(&percent(5.0), &vec![], Duration::from_secs(90)),
        ""
    );
    assert_eq!(wait_reset_suffix(&windows[1]), " (resets 19:31)");
    assert_eq!(wait_reset_suffix(&windows[2]), "");
}

#[test]
fn check_texts_tell_the_outcome() {
    let args = CheckArgs {
        remaining_percent: percent(10.0),
        window: WaitWindow::Both,
    };
    let nothing = check_rate_limits(&unavailable("why"), &args, false);
    assert_eq!(nothing.exit_code, 1);
    assert_eq!(stdout(&nothing), "rate limits unavailable: why\n");

    let silent = RateLimitsOutput {
        status: RateLimitStatus::Unavailable,
        reason: None,
        limits: vec![],
    };
    assert_eq!(
        evaluate_wait(&silent, WaitWindow::Both, &percent(10.0)),
        WaitDecision::Unavailable("rate limits unavailable".to_string())
    );

    let fine = check_rate_limits(
        &available(vec![snapshot(None, Some(20.0), Some(30.0))]),
        &args,
        false,
    );
    assert_eq!(fine.exit_code, 0);
    assert_eq!(
        stdout(&fine),
        "rate limit check ok: lowest selected limit is codex weekly limit 70% left > 10% \
         (resets 02:13 on 19 Nov)\n"
    );
}

#[test]
fn a_check_fails_at_the_threshold_and_above_it() {
    let rate_limits = available(vec![snapshot(None, Some(20.0), Some(30.0))]);
    let code = |threshold: f64| {
        let args = CheckArgs {
            remaining_percent: percent(threshold),
            window: WaitWindow::Both,
        };
        check_rate_limits(&rate_limits, &args, true).exit_code
    };
    assert_eq!(code(0.0), 0);
    assert_eq!(code(69.99), 0);
    assert_eq!(code(70.0), 1);
    assert_eq!(code(75.0), 1);
    assert_eq!(code(100.0), 1);
}

#[test]
fn waiting_sleeps_times_out_or_ends_like_a_check() {
    let rate_limits = available(vec![snapshot(None, Some(20.0), None)]);
    let args = |threshold: f64, timeout: Option<u64>| WaitArgs {
        check: CheckArgs {
            remaining_percent: percent(threshold),
            window: WaitWindow::FiveHour,
        },
        interval: Duration::from_secs(60),
        timeout: timeout.map(Duration::from_secs),
    };
    let step = |args: &WaitArgs, seconds: u64, json: bool| {
        let elapsed = Duration::from_secs(seconds);
        wait_step(&rate_limits, args, elapsed, elapsed, json)
    };

    match step(&args(10.0, None), 1_000, false) {
        WaitAction::Sleep(report, span) => {
            assert_eq!(span, Duration::from_secs(60));
            assert_eq!(
                report_text(&report),
                "waiting: lowest selected limit is codex 5h limit 80% left (threshold 10%, \
                 next poll in 1m) (resets 22:13)\n"
            );
        }
        other => panic!("expected a sleep, got {other:?}"),
    }
    match step(&args(10.0, Some(100)), 70, true) {
        WaitAction::Sleep(report, span) => {
            assert_eq!(span, Duration::from_secs(30));
            let json: Value = serde_json::from_str(&report_text(&report)).unwrap();
            assert_eq!(json["status"], "waiting");
            assert_eq!(json["nextPollSeconds"], 30);
        }
        other => panic!("expected a sleep, got {other:?}"),
    }
    match step(&args(10.0, Some(100)), 100, false) {
        WaitAction::Exit(output) => {
            assert_eq!(output.exit_code, 0);
            assert_eq!(stdout(&output), "threshold not reached within 100s\n");
        }
        other => panic!("expected an end, got {other:?}"),
    }
    match step(&args(10.0, Some(100)), 100, true) {
        WaitAction::Exit(output) => {
            assert_eq!(output.exit_code, 0);
            let json: Value = serde_json::from_str(&stdout(&output)).unwrap();
            assert_eq!(json["status"], "timeout");
            assert_eq!(json["windows"].as_array().unwrap().len(), 1);
        }
        other => panic!("expected an end, got {other:?}"),
    }
    for json in [false, true] {
        let wait = args(80.0, Some(100));
        match step(&wait, 1_000, json) {
            WaitAction::Exit(output) => {
                assert_eq!(output, check_rate_limits(&rate_limits, &wait.check, json));
                assert_eq!(output.exit_code, 1);
            }
            other => panic!("expected an end, got {other:?}"),
        }
        match wait_step(
            &unavailable("why"),
            &wait,
            Duration::from_secs(0),
            Duration::from_secs(0),
            json,
        ) {
            WaitAction::Exit(output) => {
                assert_eq!(
                    output,
                    check_rate_limits(&unavailable("why"), &wait.check, json)
                );
            }
            other => panic!("expected an end, got {other:?}"),
        }
    }
    match wait_step(
        &rate_limits,
        &args(10.0, Some(100)),
        Duration::from_secs(99),
        Duration::from_secs(101),
        false,
    ) {
        WaitAction::Sleep(_, span) => assert_eq!(span, Duration::from_secs(60)),
        other => panic!("expected a sleep, got {other:?}"),
    }
}
