//! What is printed for people.

use crate::account;
use crate::account::AuthOutput;
use crate::account::AuthView;
use crate::activity;
use crate::activity::Date;
use crate::codex;
use crate::codex::CodexOutput;
use crate::codex::ShownConfig;
use crate::figures;
use crate::limits;
use crate::limits::RateLimitOutput;
use crate::limits::RateLimitStatus;
use crate::limits::RateLimitWindowOutput;
use crate::limits::RateLimitsOutput;
use crate::limits::ShownLimit;
use crate::limits::ShownLimits;
use crate::limits::ShownWindow;
use crate::percent;
use crate::text;
use crate::usage::ShownUsage;
use crate::usage::UsageOutput;
use crate::usage::UsageStatus;
use vstd::prelude::*;

verus! {

// ---------------------------------------------------------------------------
// Status
// ---------------------------------------------------------------------------

/// Account, rate limits and configuration.
#[derive(Debug, Clone, PartialEq, Eq)]
pub struct StatusOutput {
    pub auth: AuthOutput,
    pub rate_limits: RateLimitsOutput,
    pub codex: CodexOutput,
}

/// Account, rate limits and configuration as a value.
pub struct ShownStatus {
    pub auth: AuthView,
    pub rate_limits: ShownLimits,
    pub codex: ShownConfig,
}

impl View for StatusOutput {
    type V = ShownStatus;

    open spec fn view(&self) -> ShownStatus {
        ShownStatus { auth: self.auth@, rate_limits: self.rate_limits@, codex: self.codex@ }
    }
}

/// A text that may be missing, or another in its place.
pub open spec fn text_or(given: Option<Seq<char>>, other: Seq<char>) -> Seq<char> {
    match given {
        Some(t) => t,
        None => other,
    }
}

/// The line of a window: a bar, what remains, and when it resets.
pub open spec fn window_line(label: Seq<char>, window: ShownWindow) -> Seq<char> {
    "  "@ + text::padded_right(label, 18) + " "@ + percent::percent_bar(window.remaining) + " "@
        + text::padded_left(percent::percent_text(window.remaining), 3) + "% left (resets "@
        + text_or(window.reset_display, "-"@) + ")"@
}

/// The line of a window, if there is one.
pub open spec fn maybe_window_line(label: Seq<char>, window: Option<ShownWindow>) -> Seq<
    Seq<char>,
> {
    match window {
        Some(w) => seq![window_line(label, w)],
        None => Seq::empty(),
    }
}

/// The lines of a limit; only the default limit goes without a name.
pub open spec fn limit_lines(limit: ShownLimit) -> Seq<Seq<char>> {
    (if limit.scope == "codex"@ {
        Seq::empty()
    } else {
        seq!["  "@ + limit.scope + " limit:"@]
    }) + maybe_window_line("5h limit"@, limit.five_hour) + maybe_window_line(
        "Weekly limit"@,
        limit.weekly,
    ) + maybe_window_line("Monthly limit"@, limit.monthly)
}

/// The lines of all limits.
pub open spec fn all_limit_lines(limits: Seq<ShownLimit>) -> Seq<Seq<char>>
    decreases limits.len(),
{
    if limits.len() == 0 {
        Seq::empty()
    } else {
        all_limit_lines(limits.drop_last()) + limit_lines(limits.last())
    }
}

/// Some limit has a window to show.
pub open spec fn is_displayable(limits: Seq<ShownLimit>) -> bool {
    exists|i: int| 0 <= i < limits.len() && limits::has_window(#[trigger] limits[i])
}

/// The lines about rate limits.
pub open spec fn rate_limit_lines(rate_limits: ShownLimits) -> Seq<Seq<char>> {
    if rate_limits.status == RateLimitStatus::Unavailable {
        seq!["  unavailable     "@ + text_or(rate_limits.reason, "unavailable"@)]
    } else if !is_displayable(rate_limits.limits) {
        seq!["  unavailable     no displayable limits"@]
    } else {
        all_limit_lines(rate_limits.limits)
    }
}

/// The status, line by line.
pub open spec fn lines_of_status(status: ShownStatus) -> Seq<Seq<char>> {
    seq![
        "Codex status"@,
        "  Model              "@ + codex::model_text(status.codex),
        "  Directory          "@ + status.codex.directory,
        "  Codex home         "@ + status.codex.codex_home,
        "  Permissions        "@ + status.codex.permissions,
        "  Agents.md          "@ + codex::agents_md_text(status.codex),
        "  Account            "@ + account::auth_label(status.auth),
        "  Collaboration mode "@ + status.codex.collaboration_mode,
        ""@,
        "Rate limits"@,
    ] + rate_limit_lines(status.rate_limits)
}

/// Writes the line of a window behind other lines, if there is one.
pub fn push_limit_window(
    lines: &mut Vec<String>,
    label: &str,
    window: Option<&RateLimitWindowOutput>,
)
    ensures
        text::texts(final(lines)@) == text::texts(old(lines)@) + maybe_window_line(
            label@,
            (match window {
                Some(w) => Some(w@),
                None => None,
            }),
        ),
{
    let ghost before = text::texts(lines@);
    if let Some(window) = window {
        let mut line = "  ".to_string();
        line.append(text::pad_right(label, 18).as_str());
        line.append(" ");
        line.append(window.remaining_percent.bar().as_str());
        line.append(" ");
        line.append(text::pad_left(window.remaining_percent.text().as_str(), 3).as_str());
        line.append("% left (resets ");
        match &window.reset_display {
            Some(reset) => line.append(reset.as_str()),
            None => line.append("-"),
        }
        line.append(")");
        lines.push(line);
        assert(text::texts(lines@) =~= before + seq![window_line(label@, window@)]);
    } else {
        assert(text::texts(lines@) =~= before + Seq::empty());
    }
}

/// Writes the lines of a limit behind other lines.
fn push_limit(lines: &mut Vec<String>, limit: &RateLimitOutput)
    ensures
        text::texts(final(lines)@) == text::texts(old(lines)@) + limit_lines(limit@),
{
    let ghost before = text::texts(lines@);
    if !text::same_text(limit.scope.as_str(), "codex") {
        let mut line = "  ".to_string();
        line.append(limit.scope.as_str());
        line.append(" limit:");
        lines.push(line);
    }
    let ghost named = text::texts(lines@);
    assert(named =~= before + if limit@.scope == "codex"@ {
        Seq::empty()
    } else {
        seq!["  "@ + limit@.scope + " limit:"@]
    });
    push_limit_window(lines, "5h limit", limit.five_hour.as_ref());
    push_limit_window(lines, "Weekly limit", limit.weekly.as_ref());
    push_limit_window(lines, "Monthly limit", limit.monthly.as_ref());
    assert(text::texts(lines@) =~= before + limit_lines(limit@));
}

/// Tells whether some limit has a window to show.
fn any_displayable(limits: &Vec<RateLimitOutput>) -> (yes: bool)
    ensures
        yes == is_displayable(limits::shown(limits@)),
{
    let ghost all = limits::shown(limits@);
    let mut i: usize = 0;
    while i < limits.len()
        invariant
            i <= limits@.len(),
            all == limits::shown(limits@),
            forall|k: int| 0 <= k < i ==> !limits::has_window(#[trigger] all[k]),
        decreases limits@.len() - i,
    {
        assert(all[i as int] == limits@[i as int]@);
        if limits::limit_has_displayable_window(&limits[i]) {
            return true;
        }
        i = i + 1;
    }
    false
}

/// Writes the lines about rate limits behind other lines.
fn push_rate_limits(lines: &mut Vec<String>, rate_limits: &RateLimitsOutput)
    ensures
        text::texts(final(lines)@) == text::texts(old(lines)@) + rate_limit_lines(rate_limits@),
{
    let ghost before = text::texts(lines@);
    if matches!(rate_limits.status, RateLimitStatus::Unavailable) {
        let mut line = "  unavailable     ".to_string();
        match &rate_limits.reason {
            Some(reason) => line.append(reason.as_str()),
            None => line.append("unavailable"),
        }
        lines.push(line);
        assert(text::texts(lines@) =~= before + rate_limit_lines(rate_limits@));
        return;
    }
    if !any_displayable(&rate_limits.limits) {
        lines.push("  unavailable     no displayable limits".to_string());
        assert(text::texts(lines@) =~= before + rate_limit_lines(rate_limits@));
        return;
    }
    let ghost all = rate_limits@.limits;
    let mut i: usize = 0;
    assert(before + all_limit_lines(all.take(0)) =~= before);
    while i < rate_limits.limits.len()
        invariant
            i <= rate_limits.limits@.len(),
            all == limits::shown(rate_limits.limits@),
            text::texts(lines@) == before + all_limit_lines(all.take(i as int)),
        decreases rate_limits.limits@.len() - i,
    {
        push_limit(lines, &rate_limits.limits[i]);
        assert(all.take(i + 1).drop_last() =~= all.take(i as int));
        assert(all.take(i + 1).last() == rate_limits.limits@[i as int]@);
        assert(text::texts(lines@) =~= before + all_limit_lines(all.take(i + 1)));
        i = i + 1;
    }
    assert(all.take(i as int) =~= all);
}

/// A label and a value.
fn entry(label: &str, value: &str) -> (line: String)
    ensures
        line@ == label@ + value@,
{
    let mut line = label.to_string();
    line.append(value);
    line
}

/// The status, line by line.
pub fn status_lines(output: &StatusOutput) -> (lines: Vec<String>)
    ensures
        text::texts(lines@) == lines_of_status(output@),
{
    let codex = &output.codex;
    let mut lines: Vec<String> = Vec::new();
    lines.push("Codex status".to_string());
    lines.push(entry("  Model              ", codex::model_status_label(codex).as_str()));
    lines.push(entry("  Directory          ", codex.directory.as_str()));
    lines.push(entry("  Codex home         ", codex.codex_home.as_str()));
    lines.push(entry("  Permissions        ", codex.permissions.as_str()));
    lines.push(entry("  Agents.md          ", codex::agents_md_status_label(codex).as_str()));
    lines.push(entry("  Account            ", account::auth_status_label(&output.auth).as_str()));
    lines.push(entry("  Collaboration mode ", codex.collaboration_mode.as_str()));
    lines.push("".to_string());
    lines.push("Rate limits".to_string());
    assert(text::texts(lines@) + rate_limit_lines(output@.rate_limits) =~= lines_of_status(output@));
    push_rate_limits(&mut lines, &output.rate_limits);
    lines
}

// ---------------------------------------------------------------------------
// Usage
// ---------------------------------------------------------------------------

/// The lines about token usage, given the lines of the chart.
pub open spec fn usage_lines_with(usage: ShownUsage, chart: Seq<Seq<char>>) -> Seq<Seq<char>> {
    seq!["Token activity   last 12 months"@] + if usage.status == UsageStatus::Unavailable {
        seq!["  unavailable     "@ + text_or(usage.reason, "unavailable"@)]
    } else {
        (match usage.summary {
            Some(summary) => seq!["  "@ + figures::summary_text(summary)],
            None => Seq::empty(),
        }) + match usage.days {
            Some(_) => chart,
            None => seq!["  Token activity history unavailable"@],
        }
    }
}

/// The chart of token usage that ends in the week of a day; none where there are no
/// days to draw.
pub open spec fn usage_chart(usage: ShownUsage, today: int) -> Seq<Seq<char>> {
    match usage.days {
        Some(days) => activity::chart(
            usage.view,
            activity::chart_weeks(today),
            activity::bucket_values(days, today),
        ),
        None => Seq::empty(),
    }
}

/// The chart of token usage, if it is drawn, has days that the date library can hold and
/// sums that fit.
pub open spec fn usage_chart_fits(usage: ShownUsage, today: int) -> bool {
    usage.status == UsageStatus::Available && usage.days is Some ==> activity::chart_fits(today)
        && activity::sums_fit(usage.view, activity::bucket_values(usage.days->0, today))
}

/// Token usage, line by line, with the chart that ends in the week of a day; nothing
/// where the chart cannot be drawn.
pub fn usage_lines(output: &UsageOutput, today: Date) -> (lines: Option<Vec<String>>)
    ensures
        lines is Some <==> usage_chart_fits(output@, today@),
        lines is Some ==> text::texts(lines->0@) == usage_lines_with(
            output@,
            usage_chart(output@, today@),
        ),
{
    let ghost shown = usage_lines_with(output@, usage_chart(output@, today@));
    let mut lines: Vec<String> = Vec::new();
    lines.push("Token activity   last 12 months".to_string());
    if matches!(output.status, UsageStatus::Unavailable) {
        let mut line = "  unavailable     ".to_string();
        match &output.reason {
            Some(reason) => line.append(reason.as_str()),
            None => line.append("unavailable"),
        }
        lines.push(line);
        assert(text::texts(lines@) =~= shown);
        return Some(lines);
    }
    if let Some(summary) = &output.summary {
        lines.push(entry("  ", figures::usage_summary_line(summary).as_str()));
    }
    let ghost before = text::texts(lines@);
    match &output.daily_usage_buckets {
        Some(buckets) => match activity::checked_activity_lines(output.view, buckets, today) {
            Some(mut chart) => {
                let ghost drawn = text::texts(chart@);
                lines.append(&mut chart);
                assert(text::texts(lines@) =~= before + drawn);
                assert(text::texts(lines@) =~= shown);
                Some(lines)
            },
            None => None,
        },
        None => {
            lines.push("  Token activity history unavailable".to_string());
            assert(text::texts(lines@) =~= shown);
            Some(lines)
        },
    }
}

// ---------------------------------------------------------------------------
// Laws
// ---------------------------------------------------------------------------

/// `line` tells a window behind a label: its bar, what remains with at least three places,
/// and when it resets.
pub open spec fn tells_window(line: Seq<char>, label: Seq<char>, window: ShownWindow) -> bool {
    line == label + (percent::percent_bar(window.remaining) + (" "@ + (text::padded_left(
        percent::percent_text(window.remaining),
        3,
    ) + ("% left (resets "@ + ((if window.reset_display is Some {
        window.reset_display->0
    } else {
        seq!['-']
    }) + ")"@)))))
}

proof fn lemma_window_line(window: ShownWindow)
    ensures
        tells_window(window_line("5h limit"@, window), "  5h limit           "@, window),
        tells_window(window_line("Weekly limit"@, window), "  Weekly limit       "@, window),
        tells_window(window_line("Monthly limit"@, window), "  Monthly limit      "@, window),
{
    reveal_strlit("  ");
    reveal_strlit(" ");
    reveal_strlit("-");
    reveal_strlit("5h limit");
    reveal_strlit("Weekly limit");
    reveal_strlit("Monthly limit");
    reveal_strlit("  5h limit           ");
    reveal_strlit("  Weekly limit       ");
    reveal_strlit("  Monthly limit      ");
    text::law_padding("5h limit"@, 18);
    text::law_padding("Weekly limit"@, 18);
    text::law_padding("Monthly limit"@, 18);
    lemma_label("5h limit"@, "  5h limit           "@);
    lemma_label("Weekly limit"@, "  Weekly limit       "@);
    lemma_label("Monthly limit"@, "  Monthly limit      "@);
    assert("-"@ =~= seq!['-']);
    let tail = percent::percent_bar(window.remaining) + (" "@ + (text::padded_left(
        percent::percent_text(window.remaining),
        3,
    ) + ("% left (resets "@ + (text_or(window.reset_display, "-"@) + ")"@))));
    assert(window_line("5h limit"@, window) =~= ("  "@ + text::padded_right("5h limit"@, 18)
        + " "@) + tail);
    assert(window_line("Weekly limit"@, window) =~= ("  "@ + text::padded_right(
        "Weekly limit"@,
        18,
    ) + " "@) + tail);
    assert(window_line("Monthly limit"@, window) =~= ("  "@ + text::padded_right(
        "Monthly limit"@,
        18,
    ) + " "@) + tail);
}

/// A label with the spaces around it.
proof fn lemma_label(label: Seq<char>, written: Seq<char>)
    requires
        label.len() <= 18,
        written.len() == 21,
        written[0] == ' ',
        written[1] == ' ',
        forall|i: int| 0 <= i < label.len() ==> written[2 + i] == #[trigger] label[i],
        forall|i: int| 2 + label.len() <= i < 21 ==> #[trigger] written[i] == ' ',
    ensures
        "  "@ + text::padded_right(label, 18) + " "@ == written,
{
    reveal_strlit("  ");
    reveal_strlit(" ");
    text::law_padding(label, 18);
    let padded = text::padded_right(label, 18);
    let made = "  "@ + padded + " "@;
    assert forall|i: int| 0 <= i < 21 implies made[i] == written[i] by {
        if 2 <= i < 2 + label.len() {
            assert(padded[i - 2] == padded.take(label.len() as int)[i - 2]);
            assert(label[i - 2] == written[i]);
        } else if 2 + label.len() <= i < 20 {
            assert(padded[i - 2] == ' ');
        }
    }
    assert(made =~= written);
}

/// Each limit has a section of lines, in the order of the limits: its name, unless it is the
/// default limit, and a line for each of its windows that is there, the five-hour one
/// first, then the weekly, then the monthly one.
pub proof fn law_each_window_has_a_line(
    status: ShownStatus,
    before: Seq<ShownLimit>,
    limit: ShownLimit,
    after: Seq<ShownLimit>,
) -> (section: Seq<Seq<char>>)
    requires
        status.rate_limits.status == RateLimitStatus::Available,
        status.rate_limits.limits == before + seq![limit] + after,
        limit.five_hour is Some || limit.weekly is Some || limit.monthly is Some,
    ensures
        lines_of_status(status).skip(10) == all_limit_lines(before) + section + all_limit_lines(
            after,
        ),
        ({
            let named: int = if limit.scope == "codex"@ {
                0
            } else {
                1
            };
            let first: int = named + if limit.five_hour is Some {
                1int
            } else {
                0
            };
            let second: int = first + if limit.weekly is Some {
                1int
            } else {
                0
            };
            let third: int = second + if limit.monthly is Some {
                1int
            } else {
                0
            };
            &&& section.len() == third
            &&& named == 1 ==> section[0] == "  "@ + (limit.scope + " limit:"@)
            &&& limit.five_hour is Some ==> tells_window(
                section[named],
                "  5h limit           "@,
                limit.five_hour->0,
            )
            &&& limit.weekly is Some ==> tells_window(
                section[first],
                "  Weekly limit       "@,
                limit.weekly->0,
            )
            &&& limit.monthly is Some ==> tells_window(
                section[second],
                "  Monthly limit      "@,
                limit.monthly->0,
            )
        }),
{
    let limits = status.rate_limits.limits;
    assert(limits[before.len() as int] == limit);
    assert(is_displayable(limits));
    assert(lines_of_status(status).skip(10) =~= rate_limit_lines(status.rate_limits));
    lemma_all_lines(before + seq![limit], after);
    lemma_all_lines(before, seq![limit]);
    let section = limit_lines(limit);
    let alone = seq![limit];
    assert(alone.drop_last() =~= Seq::<ShownLimit>::empty());
    assert(all_limit_lines(Seq::<ShownLimit>::empty()) =~= Seq::<Seq<char>>::empty());
    assert(alone.last() == limit);
    assert(all_limit_lines(alone) =~= section);
    if limit.five_hour is Some {
        lemma_window_line(limit.five_hour->0);
    }
    if limit.weekly is Some {
        lemma_window_line(limit.weekly->0);
    }
    if limit.monthly is Some {
        lemma_window_line(limit.monthly->0);
    }
    assert("  "@ + limit.scope + " limit:"@ =~= "  "@ + (limit.scope + " limit:"@));
    section
}

/// The sections of limits stand one after another.
proof fn lemma_all_lines(first: Seq<ShownLimit>, second: Seq<ShownLimit>)
    ensures
        all_limit_lines(first + second) == all_limit_lines(first) + all_limit_lines(second),
    decreases second.len(),
{
    if second.len() == 0 {
        assert(first + second =~= first);
        assert(all_limit_lines(first) + all_limit_lines(second) =~= all_limit_lines(first));
    } else {
        assert((first + second).drop_last() =~= first + second.drop_last());
        lemma_all_lines(first, second.drop_last());
        assert(all_limit_lines(first + second) =~= all_limit_lines(first) + all_limit_lines(
            second,
        ));
    }
}

/// A limit without windows has at most its name, and no limits have no lines.
pub proof fn law_limits_without_windows(before: Seq<ShownLimit>, limit: ShownLimit)
    requires
        limit.five_hour is None,
        limit.weekly is None,
        limit.monthly is None,
    ensures
        all_limit_lines(Seq::empty()) == Seq::<Seq<char>>::empty(),
        limit.scope == "codex"@ ==> all_limit_lines(before.push(limit)) == all_limit_lines(before),
        limit.scope != "codex"@ ==> all_limit_lines(before.push(limit)) == all_limit_lines(
            before,
        ).push("  "@ + (limit.scope + " limit:"@)),
{
    assert(before.push(limit).drop_last() =~= before);
    assert("  "@ + limit.scope + " limit:"@ =~= "  "@ + (limit.scope + " limit:"@));
    if limit.scope == "codex"@ {
        assert(all_limit_lines(before.push(limit)) =~= all_limit_lines(before));
    } else {
        assert(all_limit_lines(before.push(limit)) =~= all_limit_lines(before).push(
            "  "@ + (limit.scope + " limit:"@),
        ));
    }
}

/// Where rate limits are unavailable, or no limit has a window, one line tells so.
pub proof fn law_missing_limits_are_told(status: ShownStatus)
    ensures
        status.rate_limits.status == RateLimitStatus::Unavailable ==> lines_of_status(status).skip(
            10,
        ) == seq![
            "  unavailable     "@ + if status.rate_limits.reason is Some {
                status.rate_limits.reason->0
            } else {
                "unavailable"@
            },
        ],
        status.rate_limits.status == RateLimitStatus::Available && (forall|i: int|
            0 <= i < status.rate_limits.limits.len() ==> (
            #[trigger] status.rate_limits.limits[i]).five_hour is None
                && status.rate_limits.limits[i].weekly is None
                && status.rate_limits.limits[i].monthly is None) ==> lines_of_status(status).skip(10)
            == seq!["  unavailable     no displayable limits"@],
{
    assert(lines_of_status(status).skip(10) =~= rate_limit_lines(status.rate_limits));
}

/// Above the rate limits, each part of account and configuration has a line of its own.
pub proof fn law_status_begins_with_account_and_configuration(status: ShownStatus)
    ensures
        ({
            let lines = lines_of_status(status);
            &&& lines.len() > 10
            &&& lines[0] == "Codex status"@
            &&& lines[1] == "  Model              "@ + codex::model_text(status.codex)
            &&& lines[2] == "  Directory          "@ + status.codex.directory
            &&& lines[3] == "  Codex home         "@ + status.codex.codex_home
            &&& lines[4] == "  Permissions        "@ + status.codex.permissions
            &&& lines[5] == "  Agents.md          "@ + codex::agents_md_text(status.codex)
            &&& lines[6] == "  Account            "@ + account::auth_label(status.auth)
            &&& lines[7] == "  Collaboration mode "@ + status.codex.collaboration_mode
            &&& lines[8].len() == 0
            &&& lines[9] == "Rate limits"@
        }),
{
    reveal_strlit("");
    let limits = status.rate_limits.limits;
    if status.rate_limits.status == RateLimitStatus::Available && is_displayable(limits) {
        let i = choose|i: int| 0 <= i < limits.len() && limits::has_window(#[trigger] limits[i]);
        let limit = limits[i];
        let (before, after) = (limits.take(i), limits.skip(i + 1));
        assert(limits =~= before + seq![limit] + after);
        let section = law_each_window_has_a_line(status, before, limit, after);
        assert(section.len() > 0);
        assert(lines_of_status(status).skip(10).len() > 0);
    }
}

/// Usage is told below a heading: the reason where it is unavailable; else the summary, if
/// there is one, and the chart that ends in the week of the day, or that there is no history.
pub proof fn law_usage_is_told_below_its_heading(usage: ShownUsage, today: int)
    ensures
        ({
            let lines = usage_lines_with(usage, usage_chart(usage, today));
            let rest: int = if usage.summary is Some {
                2
            } else {
                1
            };
            &&& lines[0] == "Token activity   last 12 months"@
            &&& usage.status == UsageStatus::Unavailable ==> lines.len() == 2 && lines[1]
                == "  unavailable     "@ + if usage.reason is Some {
                usage.reason->0
            } else {
                "unavailable"@
            }
            &&& usage.status == UsageStatus::Available && usage.summary is Some ==> lines[1]
                == "  "@ + figures::summary_text(usage.summary->0)
            &&& usage.status == UsageStatus::Available && usage.days is None ==> lines.skip(rest)
                == seq!["  Token activity history unavailable"@]
            &&& usage.status == UsageStatus::Available ==> (usage.days matches Some(days)
                ==> lines.skip(rest) == activity::chart(
                usage.view,
                activity::chart_weeks(today),
                activity::bucket_values(days, today),
            ))
        }),
{
    let drawn = usage_chart(usage, today);
    let lines = usage_lines_with(usage, drawn);
    let rest: int = if usage.summary is Some {
        2
    } else {
        1
    };
    if usage.status == UsageStatus::Available {
        if usage.days is Some {
            assert(lines.skip(rest) =~= drawn);
        } else {
            assert(lines.skip(rest) =~= seq!["  Token activity history unavailable"@]);
        }
    }
}

/// Usage can be told in lines, unless it has a chart to draw that does not fit.
pub proof fn law_usage_without_a_chart_can_be_told(usage: ShownUsage, today: int)
    ensures
        usage.status == UsageStatus::Unavailable ==> usage_chart_fits(usage, today),
        usage.days is None ==> usage_chart_fits(usage, today),
        usage.status == UsageStatus::Available ==> (usage.days matches Some(days)
            ==> usage_chart_fits(usage, today) == (activity::chart_fits(today)
            && activity::sums_fit(usage.view, activity::bucket_values(days, today)))),
{
}

/// The status is taken with each of its parts.
pub proof fn law_status_is_taken_in_full(output: StatusOutput)
    ensures
        output@.auth == output.auth@,
        output@.rate_limits == output.rate_limits@,
        output@.codex == output.codex@,
{
}

} // verus!
