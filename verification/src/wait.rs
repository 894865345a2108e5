//! Comparing rate limits with a threshold: once, or until it is reached.

use crate::duration;
use crate::duration::Duration;
use crate::limits;
use crate::limits::RateLimitOutput;
use crate::limits::RateLimitStatus;
use crate::limits::RateLimitWindowOutput;
use crate::limits::RateLimitsOutput;
use crate::limits::ShownLimit;
use crate::limits::ShownLimits;
use crate::limits::ShownWindow;
use crate::percent;
use crate::percent::Percent;
use crate::text;
use vstd::prelude::*;

verus! {

// ---------------------------------------------------------------------------
// Arguments
// ---------------------------------------------------------------------------

/// The windows to watch.
#[derive(Debug, Clone, Copy, PartialEq, Eq)]
pub enum WaitWindow {
    FiveHour,
    Weekly,
    Monthly,
    Both,
}

impl WaitWindow {
    /// Five-hour windows are watched.
    pub open spec fn watches_five_hour(self) -> bool {
        self == WaitWindow::FiveHour || self == WaitWindow::Both
    }

    /// Weekly windows are watched.
    pub open spec fn watches_weekly(self) -> bool {
        self == WaitWindow::Weekly || self == WaitWindow::Both
    }

    /// Monthly windows are watched.
    pub open spec fn watches_monthly(self) -> bool {
        self == WaitWindow::Monthly || self == WaitWindow::Both
    }

    /// Tells whether five-hour windows are watched.
    pub fn includes_five_hour(self) -> (yes: bool)
        ensures
            yes == self.watches_five_hour(),
    {
        matches!(self, WaitWindow::FiveHour | WaitWindow::Both)
    }

    /// Tells whether weekly windows are watched.
    pub fn includes_weekly(self) -> (yes: bool)
        ensures
            yes == self.watches_weekly(),
    {
        matches!(self, WaitWindow::Weekly | WaitWindow::Both)
    }

    /// Tells whether monthly windows are watched.
    pub fn includes_monthly(self) -> (yes: bool)
        ensures
            yes == self.watches_monthly(),
    {
        matches!(self, WaitWindow::Monthly | WaitWindow::Both)
    }
}

/// What to compare rate limits with.
#[derive(Debug, Clone, Copy, PartialEq, Eq)]
pub struct CheckArgs {
    /// The check fails where this much remains, or less.
    pub remaining_percent: Percent,
    pub window: WaitWindow,
}

/// How to wait for a threshold.
#[derive(Debug, Clone, Copy, PartialEq, Eq)]
pub struct WaitArgs {
    pub check: CheckArgs,
    /// The span between two polls.
    pub interval: Duration,
    /// The span after which waiting ends.
    pub timeout: Option<Duration>,
}

/// What is read as a number in the text of a percentage: the text without the
/// white space around it, and without one percent sign at its end.
pub open spec fn percent_digits(raw: Seq<char>) -> Seq<char> {
    let value = text::trimmed(raw);
    if value.len() > 0 && value.last() == '%' {
        value.drop_last()
    } else {
        value
    }
}

/// What is to be read as a number in the text of a percentage.
pub fn percent_source(raw: &str) -> (source: String)
    ensures
        source@ == percent_digits(raw@),
{
    let chars = text::chars_of(raw);
    let (from, to) = text::trim_bounds(&chars);
    let end: usize = if from < to && chars[to - 1] == '%' {
        to - 1
    } else {
        to
    };
    proof {
        let value = text::trimmed(raw@);
        if from < to {
            assert(value.last() == chars@[to - 1]);
            assert(raw@.subrange(from as int, to - 1) =~= value.drop_last());
        }
    }
    raw.substring_char(from, end).to_string()
}

/// A percentage as an argument.  `number` is what was read as a number: the bits of
/// a double, or nothing where the text was no number.
pub fn parse_percent_arg(number: Option<u64>) -> (parsed: Result<Percent, String>)
    ensures
        parsed is Ok <==> number is Some && percent::in_percent_range(number->0),
        parsed is Ok ==> parsed->Ok_0@ == number->0,
        parsed is Err ==> parsed->Err_0@ == "expected a percentage from 0 to 100"@,
{
    if let Some(bits) = number {
        if let Some(value) = Percent::in_range(bits) {
            return Ok(value);
        }
    }
    Err("expected a percentage from 0 to 100".to_string())
}

// ---------------------------------------------------------------------------
// Watched windows
// ---------------------------------------------------------------------------

/// A watched window.
#[derive(Debug, Clone, PartialEq, Eq)]
pub struct WaitObservedWindow {
    pub scope: String,
    pub window: String,
    pub remaining_percent: Percent,
    pub used_percent: Percent,
    pub reset_at: Option<String>,
    pub reset_display: Option<String>,
}

/// A watched window as a value.
pub struct Watched {
    pub scope: Seq<char>,
    pub window: Seq<char>,
    pub remaining: u64,
    pub used: u64,
    pub reset_at: Option<Seq<char>>,
    pub reset_display: Option<Seq<char>>,
}

impl View for WaitObservedWindow {
    type V = Watched;

    open spec fn view(&self) -> Watched {
        Watched {
            scope: self.scope@,
            window: self.window@,
            remaining: self.remaining_percent@,
            used: self.used_percent@,
            reset_at: text::maybe_text(self.reset_at),
            reset_display: text::maybe_text(self.reset_display),
        }
    }
}

/// Watched windows as values.
pub open spec fn watched(windows: Seq<WaitObservedWindow>) -> Seq<Watched> {
    Seq::new(windows.len(), |i: int| windows[i]@)
}

/// A window of a limit, watched under the limit's name and a label.
pub open spec fn watched_window(
    scope: Seq<char>,
    label: Seq<char>,
    window: ShownWindow,
) -> Watched {
    Watched {
        scope,
        window: label,
        remaining: window.remaining,
        used: window.used,
        reset_at: window.reset_at,
        reset_display: window.reset_display,
    }
}

/// A window of a limit, if there is one and it is watched.
pub open spec fn watched_if(
    watches: bool,
    scope: Seq<char>,
    label: Seq<char>,
    window: Option<ShownWindow>,
) -> Seq<Watched> {
    match window {
        Some(w) if watches => seq![watched_window(scope, label, w)],
        _ => Seq::empty(),
    }
}

/// The watched windows of a limit, from the shortest to the longest.
pub open spec fn watched_of_limit(limit: ShownLimit, selection: WaitWindow) -> Seq<Watched> {
    watched_if(selection.watches_five_hour(), limit.scope, "5h"@, limit.five_hour) + watched_if(
        selection.watches_weekly(),
        limit.scope,
        "weekly"@,
        limit.weekly,
    ) + watched_if(selection.watches_monthly(), limit.scope, "monthly"@, limit.monthly)
}

/// The watched windows of all limits.
pub open spec fn watched_of(limits: Seq<ShownLimit>, selection: WaitWindow) -> Seq<Watched>
    decreases limits.len(),
{
    if limits.len() == 0 {
        Seq::empty()
    } else {
        watched_of(limits.drop_last(), selection) + watched_of_limit(limits.last(), selection)
    }
}

/// A string that may be missing, copied.
fn copy_text(source: &Option<String>) -> (copy: Option<String>)
    ensures
        text::maybe_text(copy) == text::maybe_text(*source),
{
    match source {
        Some(s) => Some(s.clone()),
        None => None,
    }
}

/// A window of a limit, watched under the limit's name and a label.
pub fn wait_observed_window(
    scope: &str,
    label: &str,
    window: &RateLimitWindowOutput,
) -> (observed: WaitObservedWindow)
    ensures
        observed@ == watched_window(scope@, label@, window@),
{
    WaitObservedWindow {
        scope: scope.to_string(),
        window: label.to_string(),
        remaining_percent: window.remaining_percent,
        used_percent: window.used_percent,
        reset_at: copy_text(&window.reset_at),
        reset_display: copy_text(&window.reset_display),
    }
}

/// A watched window, copied.
fn copy_window(window: &WaitObservedWindow) -> (copy: WaitObservedWindow)
    ensures
        copy@ == window@,
{
    WaitObservedWindow {
        scope: window.scope.clone(),
        window: window.window.clone(),
        remaining_percent: window.remaining_percent,
        used_percent: window.used_percent,
        reset_at: copy_text(&window.reset_at),
        reset_display: copy_text(&window.reset_display),
    }
}

/// The watched windows of a limit.
fn selected_of_limit(limit: &RateLimitOutput, selection: WaitWindow) -> (windows: Vec<
    WaitObservedWindow,
>)
    ensures
        watched(windows@) == watched_of_limit(limit@, selection),
{
    let mut windows: Vec<WaitObservedWindow> = Vec::new();
    if selection.includes_five_hour() {
        if let Some(window) = &limit.five_hour {
            windows.push(wait_observed_window(limit.scope.as_str(), "5h", window));
        }
    }
    if selection.includes_weekly() {
        if let Some(window) = &limit.weekly {
            windows.push(wait_observed_window(limit.scope.as_str(), "weekly", window));
        }
    }
    if selection.includes_monthly() {
        if let Some(window) = &limit.monthly {
            windows.push(wait_observed_window(limit.scope.as_str(), "monthly", window));
        }
    }
    assert(watched(windows@) =~= watched_of_limit(limit@, selection));
    windows
}

/// The watched windows of all limits.
pub fn selected_wait_windows(rate_limits: &RateLimitsOutput, selection: WaitWindow) -> (windows:
    Vec<WaitObservedWindow>)
    ensures
        watched(windows@) == watched_of(rate_limits@.limits, selection),
{
    let ghost all = rate_limits@.limits;
    let mut windows: Vec<WaitObservedWindow> = Vec::new();
    assert(watched(windows@) =~= watched_of(all.take(0), selection));
    let mut i: usize = 0;
    while i < rate_limits.limits.len()
        invariant
            i <= rate_limits.limits@.len(),
            all == limits::shown(rate_limits.limits@),
            watched(windows@) == watched_of(all.take(i as int), selection),
        decreases rate_limits.limits@.len() - i,
    {
        let ghost before = windows@;
        let mut more = selected_of_limit(&rate_limits.limits[i], selection);
        let ghost added = more@;
        windows.append(&mut more);
        assert(watched(windows@) =~= watched(before) + watched(added));
        assert(all.take(i + 1).drop_last() =~= all.take(i as int));
        assert(all.take(i + 1).last() == rate_limits.limits@[i as int]@);
        i = i + 1;
    }
    assert(all.take(i as int) =~= all);
    windows
}

// ---------------------------------------------------------------------------
// The decision
// ---------------------------------------------------------------------------

/// How rate limits stand to a threshold.
#[derive(Debug, Clone, PartialEq, Eq)]
pub enum WaitDecision {
    /// All watched windows are above the threshold.
    Continue(Vec<WaitObservedWindow>),
    /// These watched windows are at or below the threshold.
    Triggered(Vec<WaitObservedWindow>),
    /// There is nothing to compare.
    Unavailable(String),
}

/// A decision as a value.
pub enum Decision {
    Continue(Seq<Watched>),
    Triggered(Seq<Watched>),
    Unavailable(Seq<char>),
}

impl View for WaitDecision {
    type V = Decision;

    open spec fn view(&self) -> Decision {
        match self {
            WaitDecision::Continue(windows) => Decision::Continue(watched(windows@)),
            WaitDecision::Triggered(windows) => Decision::Triggered(watched(windows@)),
            WaitDecision::Unavailable(reason) => Decision::Unavailable(reason@),
        }
    }
}

/// The windows of which no more than the threshold remains.
pub open spec fn at_threshold(windows: Seq<Watched>, threshold: u64) -> Seq<Watched> {
    windows.filter(|window: Watched| percent::at_most(window.remaining, threshold))
}

/// How rate limits stand to a threshold.
pub open spec fn decision(
    rate_limits: ShownLimits,
    selection: WaitWindow,
    threshold: u64,
) -> Decision {
    let windows = watched_of(rate_limits.limits, selection);
    if rate_limits.status == RateLimitStatus::Unavailable {
        Decision::Unavailable(
            match rate_limits.reason {
                Some(reason) => reason,
                None => "rate limits unavailable"@,
            },
        )
    } else if windows.len() == 0 {
        Decision::Unavailable("no selected rate limit windows returned"@)
    } else if at_threshold(windows, threshold).len() == 0 {
        Decision::Continue(windows)
    } else {
        Decision::Triggered(at_threshold(windows, threshold))
    }
}

/// How rate limits stand to a threshold.
pub fn evaluate_wait(
    rate_limits: &RateLimitsOutput,
    window: WaitWindow,
    threshold: &Percent,
) -> (decided: WaitDecision)
    ensures
        decided@ == decision(rate_limits@, window, threshold@),
{
    if matches!(rate_limits.status, RateLimitStatus::Unavailable) {
        return WaitDecision::Unavailable(
            match &rate_limits.reason {
                Some(reason) => reason.clone(),
                None => "rate limits unavailable".to_string(),
            },
        );
    }
    let windows = selected_wait_windows(rate_limits, window);
    if windows.len() == 0 {
        return WaitDecision::Unavailable("no selected rate limit windows returned".to_string());
    }
    let ghost all = watched(windows@);
    let mut triggered: Vec<WaitObservedWindow> = Vec::new();
    proof {
        reveal(Seq::filter);
        assert(watched(triggered@) =~= at_threshold(all.take(0), threshold@));
    }
    let mut i: usize = 0;
    while i < windows.len()
        invariant
            i <= windows@.len(),
            all == watched(windows@),
            watched(triggered@) == at_threshold(all.take(i as int), threshold@),
        decreases windows@.len() - i,
    {
        let ghost before = triggered@;
        proof {
            reveal(Seq::filter);
            assert(all.take(i + 1).drop_last() =~= all.take(i as int));
            assert(all.take(i + 1).last() == windows@[i as int]@);
        }
        if windows[i].remaining_percent.is_at_most(threshold) {
            triggered.push(copy_window(&windows[i]));
            assert(watched(triggered@) =~= watched(before).push(windows@[i as int]@));
        }
        i = i + 1;
    }
    assert(all.take(i as int) =~= all);
    if triggered.len() == 0 {
        WaitDecision::Continue(windows)
    } else {
        WaitDecision::Triggered(triggered)
    }
}

// ---------------------------------------------------------------------------
// Reports
// ---------------------------------------------------------------------------

/// The first of the windows of which the least remains, in the total order of
/// doubles, stands at `index`.
pub open spec fn is_lowest(windows: Seq<Watched>, index: int) -> bool {
    &&& 0 <= index < windows.len()
    &&& forall|i: int|
        0 <= i < windows.len() ==> percent::order_key(windows[index].remaining)
            <= percent::order_key(#[trigger] windows[i].remaining)
    &&& forall|i: int|
        0 <= i < index ==> percent::order_key(windows[index].remaining) < percent::order_key(
            #[trigger] windows[i].remaining,
        )
}

/// The window of which the least remains.
pub open spec fn lowest(windows: Seq<Watched>) -> Watched {
    windows[choose|index: int| is_lowest(windows, index)]
}

/// Only one window is the first of those of which the least remains.
proof fn lemma_lowest(windows: Seq<Watched>, index: int)
    requires
        is_lowest(windows, index),
    ensures
        lowest(windows) == windows[index],
{
    let other = choose|other: int| is_lowest(windows, other);
    assert(is_lowest(windows, other));
    if other < index {
        assert(percent::order_key(windows[other].remaining) <= percent::order_key(
            windows[index].remaining,
        ));
    } else if index < other {
        assert(percent::order_key(windows[index].remaining) <= percent::order_key(
            windows[other].remaining,
        ));
    }
}

/// The window of which the least remains; of several, the first.
pub fn lowest_remaining_window(windows: &Vec<WaitObservedWindow>) -> (found: Option<
    &WaitObservedWindow,
>)
    ensures
        found is None <==> windows@.len() == 0,
        found matches Some(window) ==> window@ == lowest(watched(windows@)) && exists|i: int|
            is_lowest(watched(windows@), i) && *window == windows@[i],
{
    if windows.len() == 0 {
        return None;
    }
    let ghost all = watched(windows@);
    let mut best: usize = 0;
    let mut i: usize = 1;
    while i < windows.len()
        invariant
            best < i <= windows@.len(),
            all == watched(windows@),
            is_lowest(all.take(i as int), best as int),
        decreases windows@.len() - i,
    {
        let ghost part = all.take(i as int);
        let ghost next = all.take(i + 1);
        proof {
            assert forall|k: int| 0 <= k < i implies #[trigger] next[k].remaining
                == part[k].remaining by {}
        }
        if windows[i].remaining_percent.stands_before(&windows[best].remaining_percent) {
            best = i;
        }
        i = i + 1;
    }
    assert(all.take(i as int) =~= all);
    proof {
        lemma_lowest(all, best as int);
    }
    Some(&windows[best])
}

/// When a window resets, in brackets; nothing where that is not known.
pub open spec fn reset_suffix(window: Watched) -> Seq<char> {
    match window.reset_display {
        Some(reset) => " (resets "@ + reset + ")"@,
        None => ""@,
    }
}

/// When a window resets, in brackets.
pub fn wait_reset_suffix(window: &WaitObservedWindow) -> (suffix: String)
    ensures
        suffix@ == reset_suffix(window@),
{
    match &window.reset_display {
        Some(reset) => {
            let mut suffix = " (resets ".to_string();
            suffix.append(reset.as_str());
            suffix.append(")");
            suffix
        },
        None => "".to_string(),
    }
}

/// A window and what remains of it, without decimal places.
pub open spec fn window_text(window: Watched) -> Seq<char> {
    window.scope + " "@ + window.window + " limit "@ + percent::percent_text(window.remaining)
        + "% left"@
}

/// A window and what remains of it.
fn format_window(window: &WaitObservedWindow) -> (out: String)
    ensures
        out@ == window_text(window@),
{
    let mut out = window.scope.clone();
    out.append(" ");
    out.append(window.window.as_str());
    out.append(" limit ");
    out.append(window.remaining_percent.text().as_str());
    out.append("% left");
    out
}

/// The report of a check that passed.
pub open spec fn ok_text(threshold: u64, windows: Seq<Watched>) -> Seq<char> {
    if windows.len() == 0 {
        ""@
    } else {
        "rate limit check ok: lowest selected limit is "@ + window_text(lowest(windows)) + " > "@
            + percent::percent_text(threshold) + "%"@ + reset_suffix(lowest(windows)) + "\n"@
    }
}

/// The report of a check that passed.
pub fn format_check_ok(threshold: &Percent, windows: &Vec<WaitObservedWindow>) -> (out: String)
    ensures
        out@ == ok_text(threshold@, watched(windows@)),
{
    match lowest_remaining_window(windows) {
        Some(window) => {
            let mut out = "rate limit check ok: lowest selected limit is ".to_string();
            out.append(format_window(window).as_str());
            out.append(" > ");
            out.append(threshold.text().as_str());
            out.append("%");
            out.append(wait_reset_suffix(window).as_str());
            out.append("\n");
            out
        },
        None => "".to_string(),
    }
}

/// The line about a window at or below the threshold.
pub open spec fn reached_line(threshold: u64, window: Watched) -> Seq<char> {
    "rate limit threshold reached: "@ + window_text(window) + " <= "@ + percent::percent_text(
        threshold,
    ) + "%"@ + reset_suffix(window) + "\n"@
}

/// The report on windows at or below the threshold: a line for each.
pub open spec fn reached_text(threshold: u64, windows: Seq<Watched>) -> Seq<char>
    decreases windows.len(),
{
    if windows.len() == 0 {
        ""@
    } else {
        reached_text(threshold, windows.drop_last()) + reached_line(threshold, windows.last())
    }
}

/// The report on windows at or below the threshold.
pub fn format_wait_triggered(threshold: &Percent, windows: &Vec<WaitObservedWindow>) -> (out:
    String)
    ensures
        out@ == reached_text(threshold@, watched(windows@)),
{
    let ghost all = watched(windows@);
    let mut out = "".to_string();
    assert(all.take(0) =~= Seq::empty());
    let mut i: usize = 0;
    while i < windows.len()
        invariant
            i <= windows@.len(),
            all == watched(windows@),
            out@ == reached_text(threshold@, all.take(i as int)),
        decreases windows@.len() - i,
    {
        let mut line = "rate limit threshold reached: ".to_string();
        line.append(format_window(&windows[i]).as_str());
        line.append(" <= ");
        line.append(threshold.text().as_str());
        line.append("%");
        line.append(wait_reset_suffix(&windows[i]).as_str());
        line.append("\n");
        out.append(line.as_str());
        assert(all.take(i + 1).drop_last() =~= all.take(i as int));
        i = i + 1;
    }
    assert(all.take(i as int) =~= all);
    out
}

/// The report before a sleep of some nanoseconds.
pub open spec fn waiting_text(threshold: u64, windows: Seq<Watched>, sleep: nat) -> Seq<char> {
    if windows.len() == 0 {
        ""@
    } else {
        "waiting: lowest selected limit is "@ + window_text(lowest(windows)) + " (threshold "@
            + percent::percent_text(threshold) + "%, next poll in "@ + duration::duration_text(
            sleep,
        ) + ")"@ + reset_suffix(lowest(windows)) + "\n"@
    }
}

/// The report before a sleep.
pub fn format_wait_continue(
    threshold: &Percent,
    windows: &Vec<WaitObservedWindow>,
    sleep_for: Duration,
) -> (out: String)
    ensures
        out@ == waiting_text(threshold@, watched(windows@), sleep_for@),
{
    match lowest_remaining_window(windows) {
        Some(window) => {
            let mut out = "waiting: lowest selected limit is ".to_string();
            out.append(format_window(window).as_str());
            out.append(" (threshold ");
            out.append(threshold.text().as_str());
            out.append("%, next poll in ");
            out.append(duration::format_duration(sleep_for).as_str());
            out.append(")");
            out.append(wait_reset_suffix(window).as_str());
            out.append("\n");
            out
        },
        None => "".to_string(),
    }
}

/// A report for programs.
#[derive(Debug, Clone, PartialEq, Eq)]
pub struct WaitEventOutput {
    pub status: String,
    pub threshold_remaining_percent: Percent,
    pub windows: Vec<WaitObservedWindow>,
    pub reason: Option<String>,
    pub next_poll_seconds: Option<u64>,
}

/// A report: text for people, or an event for programs.
#[derive(Debug, Clone, PartialEq, Eq)]
pub enum Report {
    Text(String),
    Event(WaitEventOutput),
}

/// A report as a value.
pub enum ReportView {
    Text(Seq<char>),
    Event {
        status: Seq<char>,
        threshold: u64,
        windows: Seq<Watched>,
        reason: Option<Seq<char>>,
        next_poll_seconds: Option<u64>,
    },
}

impl View for WaitEventOutput {
    type V = ReportView;

    open spec fn view(&self) -> ReportView {
        ReportView::Event {
            status: self.status@,
            threshold: self.threshold_remaining_percent@,
            windows: watched(self.windows@),
            reason: text::maybe_text(self.reason),
            next_poll_seconds: self.next_poll_seconds,
        }
    }
}

impl View for Report {
    type V = ReportView;

    open spec fn view(&self) -> ReportView {
        match self {
            Report::Text(out) => ReportView::Text(out@),
            Report::Event(event) => event@,
        }
    }
}

/// A report for programs.
pub fn wait_event(
    status: &str,
    threshold: Percent,
    windows: Vec<WaitObservedWindow>,
    reason: Option<String>,
    next_poll_seconds: Option<u64>,
) -> (event: WaitEventOutput)
    ensures
        event@ == (ReportView::Event {
            status: status@,
            threshold: threshold@,
            windows: watched(windows@),
            reason: text::maybe_text(reason),
            next_poll_seconds,
        }),
{
    WaitEventOutput {
        status: status.to_string(),
        threshold_remaining_percent: threshold,
        windows,
        reason,
        next_poll_seconds,
    }
}

// ---------------------------------------------------------------------------
// Check once
// ---------------------------------------------------------------------------

/// How a command ends.
#[derive(Debug, Clone, PartialEq, Eq)]
pub struct CommandOutput {
    pub exit_code: u8,
    pub stdout: Report,
}

/// The end of a command as a value.
pub struct Ending {
    pub exit_code: u8,
    pub report: ReportView,
}

impl View for CommandOutput {
    type V = Ending;

    open spec fn view(&self) -> Ending {
        Ending { exit_code: self.exit_code, report: self.stdout@ }
    }
}

/// The report on a threshold that was reached.
pub open spec fn reached_report(threshold: u64, windows: Seq<Watched>, json: bool) -> ReportView {
    if json {
        ReportView::Event {
            status: "threshold_reached"@,
            threshold,
            windows,
            reason: None,
            next_poll_seconds: None,
        }
    } else {
        ReportView::Text(reached_text(threshold, windows))
    }
}

/// The report where there was nothing to compare.
pub open spec fn unavailable_report(threshold: u64, reason: Seq<char>, json: bool) -> ReportView {
    if json {
        ReportView::Event {
            status: "unavailable"@,
            threshold,
            windows: Seq::empty(),
            reason: Some(reason),
            next_poll_seconds: None,
        }
    } else {
        ReportView::Text("rate limits unavailable: "@ + reason + "\n"@)
    }
}

/// The report of a check that passed.
pub open spec fn ok_report(threshold: u64, windows: Seq<Watched>, json: bool) -> ReportView {
    if json {
        ReportView::Event {
            status: "ok"@,
            threshold,
            windows,
            reason: None,
            next_poll_seconds: None,
        }
    } else {
        ReportView::Text(ok_text(threshold, windows))
    }
}

/// How a check ends.
pub open spec fn check_ending(
    rate_limits: ShownLimits,
    selection: WaitWindow,
    threshold: u64,
    json: bool,
) -> Ending {
    match decision(rate_limits, selection, threshold) {
        Decision::Triggered(windows) => Ending {
            exit_code: 1,
            report: reached_report(threshold, windows, json),
        },
        Decision::Unavailable(reason) => Ending {
            exit_code: 1,
            report: unavailable_report(threshold, reason, json),
        },
        Decision::Continue(windows) => Ending {
            exit_code: 0,
            report: ok_report(threshold, windows, json),
        },
    }
}

/// Reports a threshold that was reached.
fn report_reached(threshold: Percent, windows: Vec<WaitObservedWindow>, json: bool) -> (report:
    Report)
    ensures
        report@ == reached_report(threshold@, watched(windows@), json),
{
    if json {
        Report::Event(wait_event("threshold_reached", threshold, windows, None, None))
    } else {
        Report::Text(format_wait_triggered(&threshold, &windows))
    }
}

/// Reports that there was nothing to compare.
fn report_unavailable(threshold: Percent, reason: String, json: bool) -> (report: Report)
    ensures
        report@ == unavailable_report(threshold@, reason@, json),
{
    if json {
        let windows: Vec<WaitObservedWindow> = Vec::new();
        assert(watched(windows@) =~= Seq::empty());
        Report::Event(wait_event("unavailable", threshold, windows, Some(reason), None))
    } else {
        let mut out = "rate limits unavailable: ".to_string();
        out.append(reason.as_str());
        out.append("\n");
        Report::Text(out)
    }
}

/// Compares rate limits with a threshold once.
pub fn check_rate_limits(rate_limits: &RateLimitsOutput, args: &CheckArgs, json: bool) -> (output:
    CommandOutput)
    ensures
        output@ == check_ending(rate_limits@, args.window, args.remaining_percent@, json),
{
    let threshold = args.remaining_percent;
    match evaluate_wait(rate_limits, args.window, &threshold) {
        WaitDecision::Triggered(windows) => CommandOutput {
            exit_code: 1,
            stdout: report_reached(threshold, windows, json),
        },
        WaitDecision::Unavailable(reason) => CommandOutput {
            exit_code: 1,
            stdout: report_unavailable(threshold, reason, json),
        },
        WaitDecision::Continue(windows) => CommandOutput {
            exit_code: 0,
            stdout: if json {
                Report::Event(wait_event("ok", threshold, windows, None, None))
            } else {
                Report::Text(format_check_ok(&threshold, &windows))
            },
        },
    }
}

// ---------------------------------------------------------------------------
// Wait
// ---------------------------------------------------------------------------

/// What to do after a poll.
#[derive(Debug, Clone, PartialEq, Eq)]
pub enum WaitAction {
    /// Report, and end.
    Exit(CommandOutput),
    /// Report, sleep, and poll again.
    Sleep(Report, Duration),
}

/// What to do after a poll, as a value.
pub enum Action {
    Exit(Ending),
    Sleep(ReportView, nat),
}

impl View for WaitAction {
    type V = Action;

    open spec fn view(&self) -> Action {
        match self {
            WaitAction::Exit(output) => Action::Exit(output@),
            WaitAction::Sleep(report, span) => Action::Sleep(report@, span@),
        }
    }
}

/// The report on a timeout.
pub open spec fn timeout_report(
    threshold: u64,
    windows: Seq<Watched>,
    timeout: nat,
    json: bool,
) -> ReportView {
    if json {
        ReportView::Event {
            status: "timeout"@,
            threshold,
            windows,
            reason: None,
            next_poll_seconds: None,
        }
    } else {
        ReportView::Text(
            "threshold not reached within "@ + duration::duration_text(timeout) + "\n"@,
        )
    }
}

/// The report before a sleep.
pub open spec fn waiting_report(
    threshold: u64,
    windows: Seq<Watched>,
    sleep: nat,
    json: bool,
) -> ReportView {
    if json {
        ReportView::Event {
            status: "waiting"@,
            threshold,
            windows,
            reason: None,
            next_poll_seconds: Some((sleep / 1_000_000_000) as u64),
        }
    } else {
        ReportView::Text(waiting_text(threshold, windows, sleep))
    }
}

/// What to do after a poll.  Of the spans since waiting began, one is read to see
/// whether time is up, the next to see how long to sleep.
pub open spec fn wait_action(
    rate_limits: ShownLimits,
    args: WaitArgs,
    elapsed: nat,
    elapsed_at_sleep: nat,
    json: bool,
) -> Action {
    let threshold = args.check.remaining_percent@;
    match decision(rate_limits, args.check.window, threshold) {
        Decision::Continue(windows) => match duration::maybe_span(args.timeout) {
            Some(timeout) if elapsed >= timeout => Action::Exit(
                Ending { exit_code: 0, report: timeout_report(threshold, windows, timeout, json) },
            ),
            limit => {
                let sleep = duration::sleep_span(args.interval@, limit, elapsed_at_sleep);
                Action::Sleep(waiting_report(threshold, windows, sleep, json), sleep)
            },
        },
        _ => Action::Exit(check_ending(rate_limits, args.check.window, threshold, json)),
    }
}

/// What to do after a poll.
pub fn wait_step(
    rate_limits: &RateLimitsOutput,
    args: &WaitArgs,
    elapsed: Duration,
    elapsed_at_sleep: Duration,
    json: bool,
) -> (action: WaitAction)
    ensures
        action@ == wait_action(rate_limits@, *args, elapsed@, elapsed_at_sleep@, json),
{
    let threshold = args.check.remaining_percent;
    match evaluate_wait(rate_limits, args.check.window, &threshold) {
        WaitDecision::Triggered(windows) => WaitAction::Exit(
            CommandOutput { exit_code: 1, stdout: report_reached(threshold, windows, json) },
        ),
        WaitDecision::Unavailable(reason) => WaitAction::Exit(
            CommandOutput { exit_code: 1, stdout: report_unavailable(threshold, reason, json) },
        ),
        WaitDecision::Continue(windows) => {
            if let Some(timeout) = args.timeout {
                if elapsed.is_at_least(&timeout) {
                    let stdout = if json {
                        Report::Event(wait_event("timeout", threshold, windows, None, None))
                    } else {
                        let mut out = "threshold not reached within ".to_string();
                        out.append(duration::format_duration(timeout).as_str());
                        out.append("\n");
                        Report::Text(out)
                    };
                    return WaitAction::Exit(CommandOutput { exit_code: 0, stdout });
                }
            }
            let sleep_for = duration::next_sleep(args.interval, args.timeout, elapsed_at_sleep);
            let report = if json {
                Report::Event(
                    wait_event("waiting", threshold, windows, None, Some(sleep_for.as_secs())),
                )
            } else {
                Report::Text(format_wait_continue(&threshold, &windows, sleep_for))
            };
            WaitAction::Sleep(report, sleep_for)
        },
    }
}

// ---------------------------------------------------------------------------
// Laws
// ---------------------------------------------------------------------------

/// A window is at or below the threshold.
pub open spec fn reaches(window: Watched, threshold: u64) -> bool {
    percent::at_most(window.remaining, threshold)
}

/// The windows at the threshold are the watched ones that reach it.
pub proof fn law_windows_at_threshold(windows: Seq<Watched>, threshold: u64)
    ensures
        forall|window: Watched|
            #[trigger] at_threshold(windows, threshold).contains(window) <==> windows.contains(
                window,
            ) && reaches(window, threshold),
    decreases windows.len(),
{
    reveal(Seq::filter);
    let found = at_threshold(windows, threshold);
    if windows.len() > 0 {
        let rest = windows.drop_last();
        law_windows_at_threshold(rest, threshold);
        let before = at_threshold(rest, threshold);
        assert forall|window: Watched|
            #[trigger] found.contains(window) <==> windows.contains(window) && reaches(
                window,
                threshold,
            ) by {
            if found.contains(window) {
                let i = choose|i: int| 0 <= i < found.len() && found[i] == window;
                if i < before.len() {
                    assert(before.contains(window));
                    let k = choose|k: int| 0 <= k < rest.len() && rest[k] == window;
                    assert(windows[k] == window);
                } else {
                    assert(windows[windows.len() - 1] == window);
                }
            }
            if windows.contains(window) && reaches(window, threshold) {
                let k = choose|k: int| 0 <= k < windows.len() && windows[k] == window;
                if k < rest.len() {
                    assert(rest[k] == window);
                    assert(before.contains(window));
                    let i = choose|i: int| 0 <= i < before.len() && before[i] == window;
                    assert(found[i] == window);
                } else {
                    assert(found[before.len() as int] == window);
                }
            }
        }
    }
}

/// A check exits with 0 just where rate limits are available, some window is
/// watched, and no watched window is at or below the threshold; else with 1.
pub proof fn law_check_exit_code(
    rate_limits: ShownLimits,
    selection: WaitWindow,
    threshold: u64,
    json: bool,
)
    ensures
        check_ending(rate_limits, selection, threshold, json).exit_code == if rate_limits.status
            == RateLimitStatus::Available && watched_of(rate_limits.limits, selection).len() > 0
            && (forall|i: int|
            0 <= i < watched_of(rate_limits.limits, selection).len() ==> !reaches(
                #[trigger] watched_of(rate_limits.limits, selection)[i],
                threshold,
            )) {
            0u8
        } else {
            1u8
        },
{
    let windows = watched_of(rate_limits.limits, selection);
    let found = at_threshold(windows, threshold);
    law_windows_at_threshold(windows, threshold);
    if found.len() > 0 {
        assert(found.contains(found[0]));
        let k = choose|k: int| 0 <= k < windows.len() && windows[k] == found[0];
        assert(reaches(windows[k], threshold));
    } else {
        assert forall|i: int| 0 <= i < windows.len() implies !reaches(
            #[trigger] windows[i],
            threshold,
        ) by {
            if reaches(windows[i], threshold) {
                assert(windows.contains(windows[i]));
                assert(found.contains(windows[i]));
            }
        }
    }
}

/// Waiting ends with 1 just where a check would, and with the check's report.
pub proof fn law_wait_ends_where_a_check_fails(
    rate_limits: ShownLimits,
    args: WaitArgs,
    elapsed: nat,
    elapsed_at_sleep: nat,
    json: bool,
)
    ensures
        check_ending(
            rate_limits,
            args.check.window,
            args.check.remaining_percent@,
            json,
        ).exit_code == 1 ==> wait_action(rate_limits, args, elapsed, elapsed_at_sleep, json)
            == Action::Exit(
            check_ending(rate_limits, args.check.window, args.check.remaining_percent@, json),
        ),
        check_ending(
            rate_limits,
            args.check.window,
            args.check.remaining_percent@,
            json,
        ).exit_code == 0 ==> match wait_action(rate_limits, args, elapsed, elapsed_at_sleep, json) {
            Action::Exit(ending) => ending.exit_code == 0,
            Action::Sleep(..) => true,
        },
{
}

/// Above the threshold, waiting ends just where a timeout is set and has passed;
/// it then ends with 0.
pub proof fn law_wait_times_out(
    rate_limits: ShownLimits,
    args: WaitArgs,
    elapsed: nat,
    elapsed_at_sleep: nat,
    json: bool,
)
    requires
        check_ending(
            rate_limits,
            args.check.window,
            args.check.remaining_percent@,
            json,
        ).exit_code == 0,
    ensures
        match wait_action(rate_limits, args, elapsed, elapsed_at_sleep, json) {
            Action::Exit(ending) => ending.exit_code == 0 && args.timeout is Some && elapsed
                >= args.timeout->0@,
            Action::Sleep(_, span) => (args.timeout is Some ==> elapsed < args.timeout->0@) && span
                <= args.interval@,
        },
{
}

/// The threshold, the reason and the next poll that a report for programs tells.
pub open spec fn is_event_with(
    report: ReportView,
    threshold: u64,
    has_reason: bool,
    next_poll_seconds: Option<u64>,
) -> bool {
    match report {
        ReportView::Event { threshold: told, reason, next_poll_seconds: next, .. } => told
            == threshold && (reason is Some <==> has_reason) && next == next_poll_seconds,
        ReportView::Text(_) => false,
    }
}

/// Every report for programs tells the threshold; just where there is nothing to compare
/// it tells a reason, and just before a sleep it tells the seconds to the next poll.
pub proof fn law_events_tell_what_applies(
    rate_limits: ShownLimits,
    args: WaitArgs,
    elapsed: nat,
    elapsed_at_sleep: nat,
)
    ensures
        ({
            let threshold = args.check.remaining_percent@;
            let nothing = decision(rate_limits, args.check.window, threshold) is Unavailable;
            &&& is_event_with(
                check_ending(rate_limits, args.check.window, threshold, true).report,
                threshold,
                nothing,
                None,
            )
            &&& match wait_action(rate_limits, args, elapsed, elapsed_at_sleep, true) {
                Action::Exit(ending) => is_event_with(ending.report, threshold, nothing, None),
                Action::Sleep(report, span) => is_event_with(
                    report,
                    threshold,
                    false,
                    Some((span / 1_000_000_000) as u64),
                ),
            }
        }),
{
}

/// Where a check fails, it fails with a higher threshold too.
pub proof fn law_raising_the_threshold_keeps_failing(
    rate_limits: ShownLimits,
    selection: WaitWindow,
    threshold: u64,
    higher: u64,
    json: bool,
)
    requires
        percent::at_most(threshold, higher),
        check_ending(rate_limits, selection, threshold, json).exit_code == 1,
    ensures
        check_ending(rate_limits, selection, higher, json).exit_code == 1,
{
    law_check_exit_code(rate_limits, selection, threshold, json);
    law_check_exit_code(rate_limits, selection, higher, json);
    let windows = watched_of(rate_limits.limits, selection);
    if rate_limits.status == RateLimitStatus::Available && windows.len() > 0 {
        let i = choose|i: int|
            0 <= i < windows.len() && reaches(#[trigger] windows[i], threshold);
        assert(reaches(windows[i], higher));
    }
}

/// The widest selection watches just what the three others watch.
pub proof fn law_both_watches_every_window(limits: Seq<ShownLimit>)
    ensures
        watched_of(limits, WaitWindow::Both).len() == watched_of(limits, WaitWindow::FiveHour).len()
            + watched_of(limits, WaitWindow::Weekly).len() + watched_of(
            limits,
            WaitWindow::Monthly,
        ).len(),
        forall|window: Watched|
            #[trigger] watched_of(limits, WaitWindow::Both).contains(window) <==> watched_of(
                limits,
                WaitWindow::FiveHour,
            ).contains(window) || watched_of(limits, WaitWindow::Weekly).contains(window)
                || watched_of(limits, WaitWindow::Monthly).contains(window),
    decreases limits.len(),
{
    if limits.len() > 0 {
        let rest = limits.drop_last();
        let limit = limits.last();
        law_both_watches_every_window(rest);
        assert forall|window: Watched|
            #[trigger] watched_of(limits, WaitWindow::Both).contains(window) <==> watched_of(
                limits,
                WaitWindow::FiveHour,
            ).contains(window) || watched_of(limits, WaitWindow::Weekly).contains(window)
                || watched_of(limits, WaitWindow::Monthly).contains(window) by {
            lemma_watched_split(limits, WaitWindow::Both, window);
            lemma_watched_split(limits, WaitWindow::FiveHour, window);
            lemma_watched_split(limits, WaitWindow::Weekly, window);
            lemma_watched_split(limits, WaitWindow::Monthly, window);
            lemma_watched_in_limit(limit, WaitWindow::Both, window);
            lemma_watched_in_limit(limit, WaitWindow::FiveHour, window);
            lemma_watched_in_limit(limit, WaitWindow::Weekly, window);
            lemma_watched_in_limit(limit, WaitWindow::Monthly, window);
        }
    }
}

proof fn lemma_contains_in_sum(a: Seq<Watched>, b: Seq<Watched>, window: Watched)
    ensures
        (a + b).contains(window) <==> a.contains(window) || b.contains(window),
{
    if a.contains(window) {
        let i = choose|i: int| 0 <= i < a.len() && a[i] == window;
        assert((a + b)[i] == window);
    }
    if b.contains(window) {
        let i = choose|i: int| 0 <= i < b.len() && b[i] == window;
        assert((a + b)[a.len() + i] == window);
    }
    if (a + b).contains(window) {
        let i = choose|i: int| 0 <= i < (a + b).len() && (a + b)[i] == window;
        if i < a.len() {
            assert(a[i] == window);
        } else {
            assert(b[i - a.len()] == window);
        }
    }
}

proof fn lemma_watched_split(limits: Seq<ShownLimit>, selection: WaitWindow, window: Watched)
    requires
        limits.len() > 0,
    ensures
        watched_of(limits, selection).contains(window) <==> watched_of(
            limits.drop_last(),
            selection,
        ).contains(window) || watched_of_limit(limits.last(), selection).contains(window),
{
    lemma_contains_in_sum(
        watched_of(limits.drop_last(), selection),
        watched_of_limit(limits.last(), selection),
        window,
    );
}

proof fn lemma_watched_if(
    watches: bool,
    scope: Seq<char>,
    label: Seq<char>,
    shown: Option<ShownWindow>,
    window: Watched,
)
    ensures
        watched_if(watches, scope, label, shown).contains(window) <==> watches && shown is Some
            && window == watched_window(scope, label, shown->0),
{
    if watches && shown is Some {
        assert(watched_if(watches, scope, label, shown)[0] == watched_window(
            scope,
            label,
            shown->0,
        ));
    }
}

proof fn lemma_watched_in_limit(limit: ShownLimit, selection: WaitWindow, window: Watched)
    ensures
        watched_of_limit(limit, selection).contains(window) <==> {
            ||| selection.watches_five_hour() && limit.five_hour is Some && window == watched_window(
                limit.scope,
                "5h"@,
                limit.five_hour->0,
            )
            ||| selection.watches_weekly() && limit.weekly is Some && window == watched_window(
                limit.scope,
                "weekly"@,
                limit.weekly->0,
            )
            ||| selection.watches_monthly() && limit.monthly is Some && window == watched_window(
                limit.scope,
                "monthly"@,
                limit.monthly->0,
            )
        },
{
    let first = watched_if(
        selection.watches_five_hour(),
        limit.scope,
        "5h"@,
        limit.five_hour,
    );
    let second = watched_if(selection.watches_weekly(), limit.scope, "weekly"@, limit.weekly);
    let third = watched_if(selection.watches_monthly(), limit.scope, "monthly"@, limit.monthly);
    lemma_contains_in_sum(first + second, third, window);
    lemma_contains_in_sum(first, second, window);
    lemma_watched_if(selection.watches_five_hour(), limit.scope, "5h"@, limit.five_hour, window);
    lemma_watched_if(selection.watches_weekly(), limit.scope, "weekly"@, limit.weekly, window);
    lemma_watched_if(selection.watches_monthly(), limit.scope, "monthly"@, limit.monthly, window);
}

/// Where anything is watched, there is a window of which the least remains; it is
/// watched, and of no watched window less remains.
pub proof fn law_lowest_window(windows: Seq<Watched>)
    requires
        windows.len() > 0,
        forall|i: int|
            0 <= i < windows.len() ==> percent::in_percent_range(#[trigger] windows[i].remaining),
    ensures
        windows.contains(lowest(windows)),
        forall|i: int|
            0 <= i < windows.len() ==> percent::at_most(
                lowest(windows).remaining,
                #[trigger] windows[i].remaining,
            ),
{
    let index = lemma_some_is_lowest(windows);
    lemma_lowest(windows, index);
    assert forall|i: int| 0 <= i < windows.len() implies percent::at_most(
        lowest(windows).remaining,
        #[trigger] windows[i].remaining,
    ) by {
        assert(percent::in_percent_range(windows[index].remaining));
        percent::law_order_agrees_with_value(windows[index].remaining, windows[i].remaining);
    }
}

proof fn lemma_some_is_lowest(windows: Seq<Watched>) -> (index: int)
    requires
        windows.len() > 0,
    ensures
        is_lowest(windows, index),
    decreases windows.len(),
{
    if windows.len() == 1 {
        0
    } else {
        let rest = windows.drop_last();
        let before = lemma_some_is_lowest(rest);
        assert forall|k: int| 0 <= k < rest.len() implies #[trigger] windows[k].remaining
            == rest[k].remaining by {}
        if percent::order_key(windows.last().remaining) < percent::order_key(
            rest[before].remaining,
        ) {
            windows.len() - 1
        } else {
            before
        }
    }
}

/// A sleep lasts as long as the interval, unless a timeout lies ahead by less than that: then
/// it lasts as long as what is left until the timeout.
pub proof fn law_sleeps_last_the_interval(
    rate_limits: ShownLimits,
    args: WaitArgs,
    elapsed: nat,
    elapsed_at_sleep: nat,
    json: bool,
)
    ensures
        wait_action(rate_limits, args, elapsed, elapsed_at_sleep, json) matches Action::Sleep(
            _,
            span,
        ) ==> {
            &&& args.timeout is None ==> span == args.interval@
            &&& args.timeout matches Some(timeout) ==> {
                &&& elapsed_at_sleep + args.interval@ <= timeout@ ==> span == args.interval@
                &&& elapsed_at_sleep <= timeout@ < elapsed_at_sleep + args.interval@ ==> span
                    == timeout@ - elapsed_at_sleep
                &&& timeout@ < elapsed_at_sleep ==> span == args.interval@
            }
        },
{
}

/// How waiting goes on does not depend on the clock but for the timeout: without one, every
/// poll above the threshold leads to the same sleep and the same report.
pub proof fn law_without_timeout_every_poll_is_alike(
    rate_limits: ShownLimits,
    args: WaitArgs,
    elapsed: nat,
    elapsed_at_sleep: nat,
    later: nat,
    later_at_sleep: nat,
    json: bool,
)
    requires
        args.timeout is None,
    ensures
        wait_action(rate_limits, args, elapsed, elapsed_at_sleep, json) == wait_action(
            rate_limits,
            args,
            later,
            later_at_sleep,
            json,
        ),
        wait_action(rate_limits, args, elapsed, elapsed_at_sleep, json) is Sleep <==> check_ending(
            rate_limits,
            args.check.window,
            args.check.remaining_percent@,
            json,
        ).exit_code == 0,
{
}

/// What is decided: where limits are unavailable, or nothing is watched, just that; where
/// some watched window is at or below the threshold, all such windows, in the order in which
/// they are watched; else all watched windows.
pub proof fn law_decision_names_every_window_at_the_threshold(
    rate_limits: ShownLimits,
    selection: WaitWindow,
    threshold: u64,
)
    ensures
        ({
            let windows = watched_of(rate_limits.limits, selection);
            match decision(rate_limits, selection, threshold) {
                Decision::Unavailable(reason) => {
                    ||| rate_limits.status == RateLimitStatus::Unavailable && reason == (
                    match rate_limits.reason {
                        Some(given) => given,
                        None => "rate limits unavailable"@,
                    })
                    ||| rate_limits.status == RateLimitStatus::Available && windows.len() == 0
                        && reason == "no selected rate limit windows returned"@
                },
                Decision::Triggered(reached) => {
                    &&& rate_limits.status == RateLimitStatus::Available
                    &&& reached.len() > 0
                    &&& reached == windows.filter(
                        |window: Watched| percent::at_most(window.remaining, threshold),
                    )
                    &&& forall|window: Watched| #[trigger]
                        reached.contains(window) <==> windows.contains(window) && percent::at_most(
                            window.remaining,
                            threshold,
                        )
                },
                Decision::Continue(all) => {
                    &&& rate_limits.status == RateLimitStatus::Available
                    &&& all == windows
                    &&& all.len() > 0
                    &&& forall|i: int|
                        0 <= i < all.len() ==> !percent::at_most(
                            (#[trigger] all[i]).remaining,
                            threshold,
                        )
                },
            }
        }),
{
    let windows = watched_of(rate_limits.limits, selection);
    let found = at_threshold(windows, threshold);
    law_windows_at_threshold(windows, threshold);
    if found.len() == 0 {
        assert forall|i: int| 0 <= i < windows.len() implies !percent::at_most(
            (#[trigger] windows[i]).remaining,
            threshold,
        ) by {
            if reaches(windows[i], threshold) {
                assert(windows.contains(windows[i]));
                assert(found.contains(windows[i]));
            }
        }
    } else {
        assert forall|window: Watched| #[trigger]
            found.contains(window) <==> windows.contains(window) && percent::at_most(
                window.remaining,
                threshold,
            ) by {
            assert(found.contains(window) <==> windows.contains(window) && reaches(
                window,
                threshold,
            ));
        }
    }
}

/// Every watched window at or below the threshold is reported by a failed check, for
/// programs in the list of windows, and no other is.
pub proof fn law_failed_check_reports_every_window(
    rate_limits: ShownLimits,
    selection: WaitWindow,
    threshold: u64,
    index: int,
)
    requires
        rate_limits.status == RateLimitStatus::Available,
        0 <= index < watched_of(rate_limits.limits, selection).len(),
        percent::at_most(watched_of(rate_limits.limits, selection)[index].remaining, threshold),
    ensures
        check_ending(rate_limits, selection, threshold, true).exit_code == 1,
        check_ending(rate_limits, selection, threshold, true).report matches ReportView::Event {
            status,
            windows,
            ..
        } && status == "threshold_reached"@ && windows.contains(
            watched_of(rate_limits.limits, selection)[index],
        ) && forall|i: int|
            0 <= i < windows.len() ==> percent::at_most(
                (#[trigger] windows[i]).remaining,
                threshold,
            ),
{
    let all = watched_of(rate_limits.limits, selection);
    let found = at_threshold(all, threshold);
    law_windows_at_threshold(all, threshold);
    assert(all.contains(all[index]));
    assert(reaches(all[index], threshold));
    assert(found.contains(all[index]));
    assert forall|i: int| 0 <= i < found.len() implies percent::at_most(
        (#[trigger] found[i]).remaining,
        threshold,
    ) by {
        assert(found.contains(found[i]));
        assert(reaches(found[i], threshold));
    }
}

/// A window of a limit as it is to be watched.
pub open spec fn stands_for(
    watched: Watched,
    limit: ShownLimit,
    label: Seq<char>,
    window: Option<ShownWindow>,
) -> bool {
    &&& window is Some
    &&& watched.scope == limit.scope
    &&& watched.window == label
    &&& watched.remaining == window->0.remaining
    &&& watched.used == window->0.used
    &&& watched.reset_at == window->0.reset_at
    &&& watched.reset_display == window->0.reset_display
}

/// Each window of a limit that is there and selected is watched once, under the limit's name
/// and its own, and in the order five-hour, weekly, monthly; limits come in their order.
pub proof fn law_selected_windows_are_watched(
    before: Seq<ShownLimit>,
    limit: ShownLimit,
    selection: WaitWindow,
) -> (added: Seq<Watched>)
    ensures
        watched_of(Seq::empty(), selection) == Seq::<Watched>::empty(),
        watched_of(before.push(limit), selection) == watched_of(before, selection) + added,
        selection == WaitWindow::FiveHour ==> added.len() == (if limit.five_hour is Some {
            1nat
        } else {
            0
        }) && (added.len() == 1 ==> stands_for(added[0], limit, "5h"@, limit.five_hour)),
        selection == WaitWindow::Weekly ==> added.len() == (if limit.weekly is Some {
            1nat
        } else {
            0
        }) && (added.len() == 1 ==> stands_for(added[0], limit, "weekly"@, limit.weekly)),
        selection == WaitWindow::Monthly ==> added.len() == (if limit.monthly is Some {
            1nat
        } else {
            0
        }) && (added.len() == 1 ==> stands_for(added[0], limit, "monthly"@, limit.monthly)),
        selection == WaitWindow::Both ==> {
            let first: int = if limit.five_hour is Some {
                1
            } else {
                0
            };
            let second: int = first + if limit.weekly is Some {
                1int
            } else {
                0
            };
            let third: int = second + if limit.monthly is Some {
                1int
            } else {
                0
            };
            &&& added.len() == third
            &&& limit.five_hour is Some ==> stands_for(added[0], limit, "5h"@, limit.five_hour)
            &&& limit.weekly is Some ==> stands_for(added[first], limit, "weekly"@, limit.weekly)
            &&& limit.monthly is Some ==> stands_for(
                added[second],
                limit,
                "monthly"@,
                limit.monthly,
            )
        },
{
    assert(before.push(limit).drop_last() =~= before);
    watched_of_limit(limit, selection)
}

/// The lowest window is the first of those of which the least remains, in the total order of
/// doubles.
pub proof fn law_lowest_window_is_the_first(windows: Seq<Watched>) -> (index: int)
    requires
        windows.len() > 0,
    ensures
        0 <= index < windows.len(),
        lowest(windows) == windows[index],
        forall|i: int|
            0 <= i < windows.len() ==> percent::order_key(windows[index].remaining)
                <= percent::order_key((#[trigger] windows[i]).remaining),
        forall|i: int|
            0 <= i < index ==> percent::order_key(windows[index].remaining) < percent::order_key(
                (#[trigger] windows[i]).remaining,
            ),
{
    let index = lemma_some_is_lowest(windows);
    lemma_lowest(windows, index);
    index
}

/// The name of a window and what remains of it, as people read it.
pub open spec fn told(window: Watched) -> Seq<char> {
    window.scope + " "@ + (window.window + (" limit "@ + (percent::percent_text(window.remaining)
        + "% left"@)))
}

/// When a window resets, as people read it: behind a space and in brackets, if it is known.
pub open spec fn told_reset(window: Watched) -> Seq<char> {
    if window.reset_display is Some {
        " (resets "@ + (window.reset_display->0 + ")"@)
    } else {
        Seq::empty()
    }
}

proof fn lemma_told(window: Watched)
    ensures
        window_text(window) == told(window),
        reset_suffix(window) == told_reset(window),
{
    reveal_strlit("");
    assert(window_text(window) =~= told(window));
    assert(reset_suffix(window) =~= told_reset(window));
}

/// Reports for people: a failed check tells a line for each window at the threshold, in
/// order, with what remains and with the threshold.
pub proof fn law_lines_of_a_failed_check(threshold: u64, windows: Seq<Watched>, window: Watched)
    ensures
        reached_text(threshold, Seq::empty()) == Seq::<char>::empty(),
        reached_text(threshold, windows.push(window)) == reached_text(threshold, windows) + (
        "rate limit threshold reached: "@ + told(window) + (" <= "@ + (percent::percent_text(
            threshold,
        ) + "%"@)) + told_reset(window)).push('\n'),
{
    reveal_strlit("");
    reveal_strlit("\n");
    lemma_told(window);
    assert(windows.push(window).drop_last() =~= windows);
    assert(reached_text(threshold, Seq::empty()) =~= Seq::<char>::empty());
    let line = ("rate limit threshold reached: "@ + told(window) + (" <= "@ + (
    percent::percent_text(threshold) + "%"@)) + told_reset(window)).push('\n');
    assert(reached_line(threshold, window) =~= line);
}

/// Reports for people, as what is decided: a passed check and a poll before a sleep name the
/// lowest window, what remains of it and the threshold, and the latter the sleep; a failed
/// check names the windows at the threshold, or why there is nothing to compare; a timeout
/// names the span that has passed.
pub proof fn law_reports_for_people(
    rate_limits: ShownLimits,
    args: WaitArgs,
    elapsed: nat,
    elapsed_at_sleep: nat,
)
    ensures
        ({
            let threshold = args.check.remaining_percent@;
            let limit = percent::percent_text(threshold);
            let check = check_ending(rate_limits, args.check.window, threshold, false).report;
            match decision(rate_limits, args.check.window, threshold) {
                Decision::Unavailable(reason) => check == ReportView::Text(
                    ("rate limits unavailable: "@ + reason).push('\n'),
                ),
                Decision::Triggered(windows) => check == ReportView::Text(
                    reached_text(threshold, windows),
                ),
                Decision::Continue(windows) => {
                    let window = lowest(windows);
                    &&& check == ReportView::Text(
                        ("rate limit check ok: lowest selected limit is "@ + told(window) + (" > "@
                            + (limit + "%"@)) + told_reset(window)).push('\n'),
                    )
                    &&& match wait_action(rate_limits, args, elapsed, elapsed_at_sleep, false) {
                        Action::Exit(ending) => ending.report == ReportView::Text(
                            ("threshold not reached within "@ + duration::duration_text(
                                args.timeout->0@,
                            )).push('\n'),
                        ),
                        Action::Sleep(report, span) => report == ReportView::Text(
                            ("waiting: lowest selected limit is "@ + told(window) + (
                            " (threshold "@ + (limit + ("%, next poll in "@ + (
                            duration::duration_text(span) + ")"@)))) + told_reset(window)).push(
                                '\n',
                            ),
                        ),
                    }
                },
            }
        }),
{
    let threshold = args.check.remaining_percent@;
    let limit = percent::percent_text(threshold);
    reveal_strlit("\n");
    match decision(rate_limits, args.check.window, threshold) {
        Decision::Unavailable(reason) => {
            assert("rate limits unavailable: "@ + reason + "\n"@ =~= (
            "rate limits unavailable: "@ + reason).push('\n'));
        },
        Decision::Triggered(windows) => {},
        Decision::Continue(windows) => {
            let window = lowest(windows);
            lemma_told(window);
            assert(ok_text(threshold, windows) =~= (
            "rate limit check ok: lowest selected limit is "@ + told(window) + (" > "@ + (limit
                + "%"@)) + told_reset(window)).push('\n'));
            match wait_action(rate_limits, args, elapsed, elapsed_at_sleep, false) {
                Action::Exit(ending) => {
                    let span = duration::duration_text(args.timeout->0@);
                    assert("threshold not reached within "@ + span + "\n"@ =~= (
                    "threshold not reached within "@ + span).push('\n'));
                },
                Action::Sleep(report, span) => {
                    assert(waiting_text(threshold, windows, span) =~= (
                    "waiting: lowest selected limit is "@ + told(window) + (" (threshold "@ + (limit
                        + ("%, next poll in "@ + (duration::duration_text(span) + ")"@))))
                        + told_reset(window)).push('\n'));
                },
            }
        },
    }
}

/// Reports for programs, as what is decided: the status is told in a word, with the windows
/// at the threshold where it was reached, all watched windows where it was not, and none
/// where there is nothing to compare.
pub proof fn law_reports_for_programs(
    rate_limits: ShownLimits,
    args: WaitArgs,
    elapsed: nat,
    elapsed_at_sleep: nat,
)
    ensures
        ({
            let threshold = args.check.remaining_percent@;
            let check = check_ending(rate_limits, args.check.window, threshold, true).report;
            let all = watched_of(rate_limits.limits, args.check.window);
            match decision(rate_limits, args.check.window, threshold) {
                Decision::Unavailable(given) => check matches ReportView::Event {
                    status,
                    windows,
                    reason,
                    ..
                } && status == "unavailable"@ && windows.len() == 0 && reason == Some(given),
                Decision::Triggered(reached) => check matches ReportView::Event {
                    status,
                    windows,
                    ..
                } && status == "threshold_reached"@ && windows == reached,
                Decision::Continue(_) => {
                    &&& check matches ReportView::Event { status, windows, .. } && status == "ok"@
                        && windows == all
                    &&& match wait_action(rate_limits, args, elapsed, elapsed_at_sleep, true) {
                        Action::Exit(ending) => ending.report matches ReportView::Event {
                            status,
                            windows,
                            ..
                        } && status == "timeout"@ && windows == all,
                        Action::Sleep(report, _) => report matches ReportView::Event {
                            status,
                            windows,
                            ..
                        } && status == "waiting"@ && windows == all,
                    }
                },
            }
        }),
{
}

/// What is read as a number is the argument without the white space around it and without
/// one percent sign at the end of the rest; the rest itself has no white space at its ends.
pub proof fn law_one_percent_sign_is_left_out(
    before: Seq<char>,
    value: Seq<char>,
    after: Seq<char>,
)
    requires
        text::all_white_space(before),
        text::all_white_space(after),
        value.len() > 0,
        !text::is_white_space(value[0]),
        !text::is_white_space(value.last()),
    ensures
        value.last() != '%' ==> percent_digits(before + value + after) == value,
        value.last() == '%' ==> percent_digits(before + value + after) == value.drop_last(),
        percent_digits(before) == Seq::<char>::empty(),
{
    text::law_trimmed(before, value, after);
    text::law_trimmed_space(before);
}

/// Watched windows are taken with each of their figures, and none is left out.
pub proof fn law_watched_windows_are_taken_in_full(windows: Seq<WaitObservedWindow>, index: int)
    ensures
        watched(windows).len() == windows.len(),
        0 <= index < windows.len() ==> ({
            let (given, taken) = (windows[index], watched(windows)[index]);
            &&& taken.scope == given.scope@
            &&& taken.window == given.window@
            &&& taken.remaining == given.remaining_percent@
            &&& taken.used == given.used_percent@
            &&& taken.reset_at is Some <==> given.reset_at is Some
            &&& given.reset_at is Some ==> taken.reset_at->0 == given.reset_at->0@
            &&& taken.reset_display is Some <==> given.reset_display is Some
            &&& given.reset_display is Some ==> taken.reset_display->0 == given.reset_display->0@
        }),
{
}

/// Decisions, reports and actions are taken as they are.
pub proof fn law_outcomes_are_taken_in_full(
    decided: WaitDecision,
    event: WaitEventOutput,
    output: CommandOutput,
    action: WaitAction,
)
    ensures
        match decided {
            WaitDecision::Continue(windows) => decided@ == Decision::Continue(watched(windows@)),
            WaitDecision::Triggered(windows) => decided@ == Decision::Triggered(watched(windows@)),
            WaitDecision::Unavailable(reason) => decided@ == Decision::Unavailable(reason@),
        },
        event@ matches ReportView::Event {
            status,
            threshold,
            windows,
            reason,
            next_poll_seconds,
        } && status == event.status@ && threshold == event.threshold_remaining_percent@ && windows
            == watched(event.windows@) && (reason is Some <==> event.reason is Some) && (
        event.reason is Some ==> reason->0 == event.reason->0@) && next_poll_seconds
            == event.next_poll_seconds,
        output@.exit_code == output.exit_code,
        match output.stdout {
            Report::Text(out) => output@.report == ReportView::Text(out@),
            Report::Event(told) => output@.report == told@,
        },
        match action {
            WaitAction::Exit(ending) => action@ == Action::Exit(ending@),
            WaitAction::Sleep(report, span) => action@ == Action::Sleep(report@, span@),
        },
{
}

} // verus!
