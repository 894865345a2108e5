//! Rate limits: from what the backend reports to what is shown.

use crate::account;
use crate::account::PlanType;
use crate::calendar;
use crate::calendar::ResetMoment;
use crate::double;
use crate::percent;
use crate::percent::Percent;
use crate::sorted;
use crate::text;
use vstd::arithmetic::power2::*;
use vstd::prelude::*;

verus! {

// ---------------------------------------------------------------------------
// What the backend reports
// ---------------------------------------------------------------------------

/// A window of a rate limit, as reported.
#[derive(Debug, Clone, PartialEq, Eq)]
pub struct RateLimitWindow {
    /// The used share in percent: the bits of a double.
    pub used_percent: u64,
    /// The length of the window.
    pub window_minutes: Option<i64>,
    /// When the window resets.
    pub resets_at: Option<ResetMoment>,
}

/// A rate limit, as reported.
#[derive(Debug, Clone, PartialEq, Eq)]
pub struct RateLimitSnapshot {
    pub limit_id: Option<String>,
    pub primary: Option<RateLimitWindow>,
    pub secondary: Option<RateLimitWindow>,
    pub plan_type: Option<PlanType>,
}

/// A reported window as a value.
pub struct ReportedWindow {
    pub used: u64,
    pub window_minutes: Option<i64>,
    pub resets_at: Option<ResetMoment>,
}

/// A reported rate limit as a value.
pub struct ReportedLimit {
    pub limit_id: Option<Seq<char>>,
    pub primary: Option<ReportedWindow>,
    pub secondary: Option<ReportedWindow>,
    pub plan_type: Option<PlanType>,
}

impl View for RateLimitWindow {
    type V = ReportedWindow;

    open spec fn view(&self) -> ReportedWindow {
        ReportedWindow {
            used: self.used_percent,
            window_minutes: self.window_minutes,
            resets_at: self.resets_at,
        }
    }
}

/// A reported window that may be missing, as a value.
pub open spec fn maybe_reported(window: Option<RateLimitWindow>) -> Option<ReportedWindow> {
    match window {
        Some(w) => Some(w@),
        None => None,
    }
}

impl View for RateLimitSnapshot {
    type V = ReportedLimit;

    open spec fn view(&self) -> ReportedLimit {
        ReportedLimit {
            limit_id: text::maybe_text(self.limit_id),
            primary: maybe_reported(self.primary),
            secondary: maybe_reported(self.secondary),
            plan_type: self.plan_type,
        }
    }
}

/// Reported rate limits as values.
pub open spec fn reported(snapshots: Seq<RateLimitSnapshot>) -> Seq<ReportedLimit> {
    Seq::new(snapshots.len(), |i: int| snapshots[i]@)
}

// ---------------------------------------------------------------------------
// What is shown
// ---------------------------------------------------------------------------

/// A window of a rate limit, as shown.
#[derive(Debug, Clone, PartialEq, Eq)]
pub struct RateLimitWindowOutput {
    pub remaining_percent: Percent,
    pub used_percent: Percent,
    pub reset_at: Option<String>,
    pub reset_display: Option<String>,
    pub window_minutes: Option<i64>,
}

/// A rate limit, as shown.
#[derive(Debug, Clone, PartialEq, Eq)]
pub struct RateLimitOutput {
    pub scope: String,
    pub plan_type: Option<String>,
    pub five_hour: Option<RateLimitWindowOutput>,
    pub weekly: Option<RateLimitWindowOutput>,
    pub monthly: Option<RateLimitWindowOutput>,
}

/// Whether rate limits could be read.
#[derive(Debug, Clone, Copy, PartialEq, Eq)]
pub enum RateLimitStatus {
    Available,
    Unavailable,
}

/// All rate limits, as shown, or why there are none.
#[derive(Debug, Clone, PartialEq, Eq)]
pub struct RateLimitsOutput {
    pub status: RateLimitStatus,
    pub reason: Option<String>,
    pub limits: Vec<RateLimitOutput>,
}

/// A shown window as a value.
pub struct ShownWindow {
    pub remaining: u64,
    pub used: u64,
    pub reset_at: Option<Seq<char>>,
    pub reset_display: Option<Seq<char>>,
    pub window_minutes: Option<i64>,
}

/// A shown rate limit as a value.
pub struct ShownLimit {
    pub scope: Seq<char>,
    pub plan_type: Option<Seq<char>>,
    pub five_hour: Option<ShownWindow>,
    pub weekly: Option<ShownWindow>,
    pub monthly: Option<ShownWindow>,
}

/// All shown rate limits as a value.
pub struct ShownLimits {
    pub status: RateLimitStatus,
    pub reason: Option<Seq<char>>,
    pub limits: Seq<ShownLimit>,
}

impl View for RateLimitWindowOutput {
    type V = ShownWindow;

    open spec fn view(&self) -> ShownWindow {
        ShownWindow {
            remaining: self.remaining_percent@,
            used: self.used_percent@,
            reset_at: text::maybe_text(self.reset_at),
            reset_display: text::maybe_text(self.reset_display),
            window_minutes: self.window_minutes,
        }
    }
}

/// A shown window that may be missing, as a value.
pub open spec fn maybe_shown(window: Option<RateLimitWindowOutput>) -> Option<ShownWindow> {
    match window {
        Some(w) => Some(w@),
        None => None,
    }
}

impl View for RateLimitOutput {
    type V = ShownLimit;

    open spec fn view(&self) -> ShownLimit {
        ShownLimit {
            scope: self.scope@,
            plan_type: text::maybe_text(self.plan_type),
            five_hour: maybe_shown(self.five_hour),
            weekly: maybe_shown(self.weekly),
            monthly: maybe_shown(self.monthly),
        }
    }
}

/// Shown rate limits as values.
pub open spec fn shown(limits: Seq<RateLimitOutput>) -> Seq<ShownLimit> {
    Seq::new(limits.len(), |i: int| limits[i]@)
}

impl View for RateLimitsOutput {
    type V = ShownLimits;

    open spec fn view(&self) -> ShownLimits {
        ShownLimits {
            status: self.status,
            reason: text::maybe_text(self.reason),
            limits: shown(self.limits@),
        }
    }
}

// ---------------------------------------------------------------------------
// Kinds of windows
// ---------------------------------------------------------------------------

/// The windows that are told apart.
#[derive(Debug, Clone, Copy, PartialEq, Eq)]
pub enum RateLimitWindowKind {
    FiveHour,
    Weekly,
    Monthly,
}

/// Which of its two windows a limit reports.
#[derive(Debug, Clone, Copy, PartialEq, Eq)]
pub enum WindowFallback {
    Primary,
    Secondary,
}

/// A whole number as a double.
pub open spec fn as_double(n: int) -> int {
    if n < 0 {
        -(double::nearest((-n) as nat, 1) as int)
    } else {
        double::nearest(n as nat, 1) as int
    }
}

/// A double that is a whole number, times `factor` parts in 2 to the power of 52;
/// the result is a double, counted in such parts.
pub open spec fn times_parts(n: int, factor: nat) -> int {
    if n < 0 {
        -(double::nearest((-n) as nat * factor, 1) as int)
    } else {
        double::nearest(n as nat * factor, 1) as int
    }
}

/// `minutes` lies between 0.95 and 1.05 times `expected`, both calculated with
/// doubles: the double next to 0.95 has 4278419646001971 parts in 2 to the power of
/// 52, and that next to 1.05 has 4728779608739021.
pub open spec fn approximates(minutes: int, expected: int) -> bool {
    let actual = as_double(minutes) * 0x10_0000_0000_0000;
    &&& actual >= times_parts(as_double(expected), 4278419646001971)
    &&& actual <= times_parts(as_double(expected), 4728779608739021)
}

/// The window that a length in minutes stands for: five hours, seven days or
/// thirty days, each with five percent to spare on both sides.
pub open spec fn kind_of_minutes(window_minutes: Option<i64>) -> Option<RateLimitWindowKind> {
    match window_minutes {
        Some(minutes) => if 285 <= minutes <= 315 {
            Some(RateLimitWindowKind::FiveHour)
        } else if 9_576 <= minutes <= 10_584 {
            Some(RateLimitWindowKind::Weekly)
        } else if 41_040 <= minutes <= 45_360 {
            Some(RateLimitWindowKind::Monthly)
        } else {
            None
        },
        None => None,
    }
}

/// The window that a limit's own report takes for granted.
pub open spec fn kind_of_place(fallback: WindowFallback) -> RateLimitWindowKind {
    match fallback {
        WindowFallback::Primary => RateLimitWindowKind::FiveHour,
        WindowFallback::Secondary => RateLimitWindowKind::Weekly,
    }
}

/// The window that a report stands for: by its length, else by its place.
pub open spec fn kind_of(window: ReportedWindow, fallback: WindowFallback) -> RateLimitWindowKind {
    match kind_of_minutes(window.window_minutes) {
        Some(kind) => kind,
        None => kind_of_place(fallback),
    }
}

/// Rounds a whole number to a double.
fn to_double(n: i64) -> (rounded: i128)
    ensures
        rounded == as_double(n as int),
        -0x8000_0000_0000_0000 <= rounded <= 0x8000_0000_0000_0000,
{
    proof {
        lemma2_to64();
        lemma2_to64_rest();
    }
    if n < 0 {
        let size: u128 = (-(n as i128)) as u128;
        proof {
            double::lemma_nearest_below_power(size as nat, 1, 63);
        }
        -(double::nearest_integer(size) as i128)
    } else {
        proof {
            double::lemma_nearest_below_power(n as nat, 1, 63);
        }
        double::nearest_integer(n as u128) as i128
    }
}

/// Multiplies a double that is a whole number by parts in 2 to the power of 52.
fn multiply_parts(n: i128, factor: u64) -> (product: i128)
    requires
        -0x8000_0000_0000_0000 <= n <= 0x8000_0000_0000_0000,
        factor <= 0x20_0000_0000_0000,
    ensures
        product == times_parts(n as int, factor as nat),
{
    let size: u128 = if n < 0 {
        (-n) as u128
    } else {
        n as u128
    };
    assert(size * factor <= 0x8000_0000_0000_0000 * 0x20_0000_0000_0000) by (nonlinear_arith)
        requires
            size <= 0x8000_0000_0000_0000,
            factor <= 0x20_0000_0000_0000,
    ;
    let product: u128 = double::nearest_integer(size * factor as u128);
    if n < 0 {
        -(product as i128)
    } else {
        product as i128
    }
}

/// Tells whether a length in minutes is about the expected one.
pub fn is_approximate_window(minutes: i64, expected_minutes: i64) -> (yes: bool)
    ensures
        yes == approximates(minutes as int, expected_minutes as int),
{
    let actual: i128 = to_double(minutes) * 0x10_0000_0000_0000;
    let expected: i128 = to_double(expected_minutes);
    actual >= multiply_parts(expected, 4278419646001971) && actual <= multiply_parts(
        expected,
        4728779608739021,
    )
}

/// The product of a double and parts, where the spacing at the product is known.
proof fn lemma_product(n: nat, factor: nat, exponent: nat, whole: nat)
    requires
        pow2(exponent) * 0x10_0000_0000_0000 <= n * factor < pow2(exponent) * 0x20_0000_0000_0000,
        double::half_even(n * factor, pow2(exponent)) * pow2(exponent) == whole
            * 0x10_0000_0000_0000,
    ensures
        times_parts(n as int, factor) == whole * 0x10_0000_0000_0000,
{
    assert(1 * pow2(exponent) == pow2(exponent));
    double::lemma_spacing(n * factor, 1, exponent);
}

/// The three lengths with five percent to spare.
pub proof fn lemma_window_bounds(minutes: int)
    requires
        0 <= minutes <= i64::MAX,
    ensures
        approximates(minutes, 300) <==> 285 <= minutes <= 315,
        approximates(minutes, 10_080) <==> 9_576 <= minutes <= 10_584,
        approximates(minutes, 43_200) <==> 41_040 <= minutes <= 45_360,
{
    lemma2_to64();
    double::lemma_small_powers();
    double::lemma_short_is_exact(300, 0);
    double::lemma_short_is_exact(10_080, 0);
    double::lemma_short_is_exact(43_200, 0);
    assert(as_double(300) == 300 && as_double(10_080) == 10_080 && as_double(43_200) == 43_200);
    lemma_product(300, 4278419646001971, 8, 285);
    lemma_product(300, 4728779608739021, 8, 315);
    lemma_product(10_080, 4278419646001971, 13, 9_576);
    lemma_product(10_080, 4728779608739021, 13, 10_584);
    lemma_product(43_200, 4278419646001971, 15, 41_040);
    lemma_product(43_200, 4728779608739021, 15, 45_360);
    if minutes < 0x20_0000_0000_0000 {
        double::lemma_short_is_exact(minutes as nat, 0);
        assert(minutes * pow2(0) == minutes) by (nonlinear_arith)
            requires
                pow2(0) == 1,
        ;
    } else {
        let e = double::lemma_spacing_shape(minutes as nat, 1);
        lemma_pow2_pos(e);
        if e == 0 {
            assert(false);
        }
        lemma_pow2_unfold(e);
        lemma_pow2_pos((e - 1) as nat);
        assert(1 * pow2(e) == pow2(e));
        assert(minutes <= minutes * pow2(e)) by (nonlinear_arith)
            requires
                minutes >= 0,
                pow2(e) >= 1,
        ;
        double::lemma_half_even_bounds(
            minutes as nat,
            pow2(e),
            0x10_0000_0000_0000,
            minutes as nat,
        );
        let h = double::half_even(minutes as nat, pow2(e));
        assert(h * pow2(e) >= 0x20_0000_0000_0000) by (nonlinear_arith)
            requires
                h >= 0x10_0000_0000_0000,
                pow2(e) >= 2,
        ;
    }
}

/// The window that a length in minutes stands for.
pub fn window_kind(window_minutes: Option<i64>) -> (kind: Option<RateLimitWindowKind>)
    ensures
        kind == kind_of_minutes(window_minutes),
{
    match window_minutes {
        None => None,
        Some(given) => {
            let minutes: i64 = if given > 0 {
                given
            } else {
                0
            };
            proof {
                lemma_window_bounds(minutes as int);
            }
            if is_approximate_window(minutes, 5 * 60) {
                Some(RateLimitWindowKind::FiveHour)
            } else if is_approximate_window(minutes, 7 * 24 * 60) {
                Some(RateLimitWindowKind::Weekly)
            } else if is_approximate_window(minutes, 30 * 24 * 60) {
                Some(RateLimitWindowKind::Monthly)
            } else {
                None
            }
        },
    }
}

/// The window that a place in a report takes for granted.
pub fn fallback_window_kind(fallback: WindowFallback) -> (kind: RateLimitWindowKind)
    ensures
        kind == kind_of_place(fallback),
{
    match fallback {
        WindowFallback::Primary => RateLimitWindowKind::FiveHour,
        WindowFallback::Secondary => RateLimitWindowKind::Weekly,
    }
}

// ---------------------------------------------------------------------------
// Windows
// ---------------------------------------------------------------------------

/// The instant of a reset as text; nothing where the date library cannot hold it.
pub open spec fn reset_instant(resets_at: Option<ResetMoment>) -> Option<Seq<char>> {
    match resets_at {
        Some(reset) if calendar::is_supported(reset.seconds as int) => Some(
            calendar::rfc3339_text(reset.seconds as int),
        ),
        _ => None,
    }
}

/// The local reading of a reset as text; nothing where there is none.
pub open spec fn reset_reading(resets_at: Option<ResetMoment>) -> Option<Seq<char>> {
    match resets_at {
        Some(reset) => calendar::reset_display(reset),
        None => None,
    }
}

/// `output` shows the reported `window`: the used share brought into the range from
/// 0 to 100, and what remains of 100.
pub open spec fn shows_window(output: ShownWindow, window: ReportedWindow) -> bool {
    &&& output.used == percent::clamped_bits(window.used)
    &&& percent::is_remaining(output.used, output.remaining)
    &&& output.reset_at == reset_instant(window.resets_at)
    &&& output.reset_display == reset_reading(window.resets_at)
    &&& output.window_minutes == window.window_minutes
}

/// What is shown of a reported window.
pub fn window_output(window: &RateLimitWindow) -> (output: RateLimitWindowOutput)
    ensures
        shows_window(output@, window@),
{
    let used_percent = Percent::clamped(window.used_percent);
    RateLimitWindowOutput {
        remaining_percent: used_percent.remaining(),
        used_percent,
        reset_at: match &window.resets_at {
            Some(reset) => calendar::rfc3339(reset.seconds),
            None => None,
        },
        reset_display: match &window.resets_at {
            Some(reset) => calendar::local_reset_display(reset),
            None => None,
        },
        window_minutes: window.window_minutes,
    }
}

/// The place of a kind of window in a shown limit.
pub open spec fn slot(limit: ShownLimit, kind: RateLimitWindowKind) -> Option<ShownWindow> {
    match kind {
        RateLimitWindowKind::FiveHour => limit.five_hour,
        RateLimitWindowKind::Weekly => limit.weekly,
        RateLimitWindowKind::Monthly => limit.monthly,
    }
}

/// Puts a reported window, if there is one, into its place; a window that is there
/// already is replaced.
pub fn assign_rate_limit_window(
    output: &mut RateLimitOutput,
    window: Option<&RateLimitWindow>,
    fallback: WindowFallback,
)
    ensures
        final(output)@.scope == old(output)@.scope,
        final(output)@.plan_type == old(output)@.plan_type,
        window is None ==> final(output)@ == old(output)@,
        window matches Some(w) ==> slot(final(output)@, kind_of(w@, fallback)) is Some
            && shows_window(slot(final(output)@, kind_of(w@, fallback))->0, w@),
        window matches Some(w) ==> forall|kind: RateLimitWindowKind|
            kind != kind_of(w@, fallback) ==> #[trigger] slot(final(output)@, kind) == slot(
                old(output)@,
                kind,
            ),
{
    let window = match window {
        Some(window) => window,
        None => return,
    };
    let value = window_output(window);
    let kind = match window_kind(window.window_minutes) {
        Some(kind) => kind,
        None => fallback_window_kind(fallback),
    };
    match kind {
        RateLimitWindowKind::FiveHour => output.five_hour = Some(value),
        RateLimitWindowKind::Weekly => output.weekly = Some(value),
        RateLimitWindowKind::Monthly => output.monthly = Some(value),
    }
}

// ---------------------------------------------------------------------------
// Limits
// ---------------------------------------------------------------------------

/// The identifier of a reported limit; a limit without one is the default limit.
pub open spec fn id_of(limit: ReportedLimit) -> Seq<char> {
    match limit.limit_id {
        Some(id) => id,
        None => "codex"@,
    }
}

/// The identifiers of reported limits, in order, each once.
pub open spec fn distinct_ids(limits: Seq<ReportedLimit>) -> Seq<Seq<char>>
    decreases limits.len(),
{
    if limits.len() == 0 {
        Seq::empty()
    } else {
        sorted::with_text(distinct_ids(limits.drop_last()), id_of(limits.last()))
    }
}

/// The last reported limit with an identifier.
pub open spec fn latest(limits: Seq<ReportedLimit>, id: Seq<char>) -> ReportedLimit
    recommends
        exists|i: int| 0 <= i < limits.len() && id_of(#[trigger] limits[i]) == id,
    decreases limits.len(),
{
    if limits.len() <= 1 || id_of(limits.last()) == id {
        limits.last()
    } else {
        latest(limits.drop_last(), id)
    }
}

/// How many of the first `count` identifiers are not that of the default limit.
pub open spec fn additional_count(ids: Seq<Seq<char>>, count: nat) -> nat
    decreases count,
{
    if count == 0 {
        0
    } else {
        additional_count(ids, (count - 1) as nat) + if ids[count - 1] == "codex"@ {
            0nat
        } else {
            1nat
        }
    }
}

/// The name under which the limit with the `index`-th identifier is shown.
pub open spec fn scope_of(ids: Seq<Seq<char>>, index: int) -> Seq<char> {
    if ids[index] == "codex"@ {
        "codex"@
    } else {
        "additional_"@ + text::decimal(additional_count(ids, (index + 1) as nat))
    }
}

/// A reported window, if there is one, is of this kind.
pub open spec fn reports(
    window: Option<ReportedWindow>,
    fallback: WindowFallback,
    kind: RateLimitWindowKind,
) -> bool {
    window is Some && kind_of(window->0, fallback) == kind
}

/// `shown` is what a reported limit says of one kind of window: its secondary
/// window where that is of the kind, else its primary window where that is.
pub open spec fn shows_kind(
    shown: Option<ShownWindow>,
    limit: ReportedLimit,
    kind: RateLimitWindowKind,
) -> bool {
    if reports(limit.secondary, WindowFallback::Secondary, kind) {
        shown is Some && shows_window(shown->0, limit.secondary->0)
    } else if reports(limit.primary, WindowFallback::Primary, kind) {
        shown is Some && shows_window(shown->0, limit.primary->0)
    } else {
        shown is None
    }
}

/// The name of a plan, if there is one.
pub open spec fn maybe_plan(plan_type: Option<PlanType>) -> Option<Seq<char>> {
    match plan_type {
        Some(plan) => Some(account::plan_label(plan)),
        None => None,
    }
}

/// `output` shows a reported limit under a name.
pub open spec fn shows_limit(output: ShownLimit, scope: Seq<char>, limit: ReportedLimit) -> bool {
    &&& output.scope == scope
    &&& output.plan_type == maybe_plan(limit.plan_type)
    &&& forall|kind: RateLimitWindowKind|
        shows_kind(#[trigger] slot(output, kind), limit, kind)
}

/// `output` shows reported limits: one for each identifier, in the order of the
/// identifiers; of reports with the same identifier the last counts.
pub open spec fn shows_limits(output: Seq<ShownLimit>, limits: Seq<ReportedLimit>) -> bool {
    let ids = distinct_ids(limits);
    &&& output.len() == ids.len()
    &&& forall|i: int|
        0 <= i < output.len() ==> shows_limit(
            #[trigger] output[i],
            scope_of(ids, i),
            latest(limits, ids[i]),
        )
}

/// The last report with an identifier, when one more report comes.
proof fn lemma_latest_push(limits: Seq<ReportedLimit>, limit: ReportedLimit, id: Seq<char>)
    ensures
        id_of(limit) == id ==> latest(limits.push(limit), id) == limit,
        id_of(limit) != id && limits.len() > 0 ==> latest(limits.push(limit), id) == latest(
            limits,
            id,
        ),
{
    assert(limits.push(limit).drop_last() =~= limits);
}

/// Identifiers that come each once and in order, with the place of the last report
/// of each.
struct LimitIndex {
    ids: Vec<String>,
    places: Vec<usize>,
}

/// Finds the identifiers of reported limits, and for each its last report.
fn index_limits(snapshots: &Vec<RateLimitSnapshot>) -> (index: LimitIndex)
    ensures
        text::texts(index.ids@) == distinct_ids(reported(snapshots@)),
        index.places@.len() == index.ids@.len(),
        forall|i: int|
            0 <= i < index.places@.len() ==> #[trigger] index.places@[i] < snapshots@.len()
                && snapshots@[index.places@[i] as int]@ == latest(
                reported(snapshots@),
                index.ids@[i]@,
            ),
{
    let mut ids: Vec<String> = Vec::new();
    let mut places: Vec<usize> = Vec::new();
    let mut next: usize = 0;
    assert(text::texts(ids@) =~= Seq::empty());
    while next < snapshots.len()
        invariant
            next <= snapshots@.len(),
            text::texts(ids@) == distinct_ids(reported(snapshots@.take(next as int))),
            sorted::in_order(text::texts(ids@)),
            places@.len() == ids@.len(),
            forall|i: int|
                0 <= i < places@.len() ==> #[trigger] places@[i] < next
                    && snapshots@[places@[i] as int]@ == latest(
                    reported(snapshots@.take(next as int)),
                    ids@[i]@,
                ),
        decreases snapshots@.len() - next,
    {
        let id: String = match &snapshots[next].limit_id {
            Some(id) => id.clone(),
            None => "codex".to_string(),
        };
        let ghost before = reported(snapshots@.take(next as int));
        let ghost limit = snapshots@[next as int]@;
        assert(reported(snapshots@.take(next + 1)) =~= before.push(limit));
        assert(before.push(limit).drop_last() =~= before);
        assert(id@ == id_of(limit));
        let ghost known = text::texts(ids@);
        let (place, present) = sorted::place_of(&ids, id.as_str());
        let ghost old_places = places@;
        proof {
            sorted::lemma_with_text_keeps_order(known, id@);
            text::lemma_order_irreflexive(id@);
            assert forall|k: int| 0 <= k < place - 1 implies #[trigger] known[k] != id@ by {
                assert(text::comes_before(known[k], known[place - 1]));
                if known[place - 1] != id@ {
                    text::lemma_order_transitive(known[k], known[place - 1], id@);
                }
            }
        }
        if present {
            places.set(place - 1, next);
        } else {
            ids.insert(place, id);
            places.insert(place, next);
            assert(text::texts(ids@) =~= known.insert(place as int, id@));
        }
        proof {
            assert forall|i: int| 0 <= i < places@.len() implies #[trigger] places@[i] < next + 1
                && snapshots@[places@[i] as int]@ == latest(before.push(limit), ids@[i]@) by {
                lemma_latest_push(before, limit, ids@[i]@);
                if i < place {
                    assert(ids@[i]@ == known[i]);
                } else if ids@.len() == known.len() {
                    assert(ids@[i]@ == known[i]);
                } else if i > place {
                    assert(ids@[i]@ == known[i - 1]);
                    assert(places@[i] == old_places[i - 1]);
                }
            }
        }
        next = next + 1;
    }
    assert(snapshots@.take(next as int) =~= snapshots@);
    LimitIndex { ids, places }
}

/// What is shown of a reported limit.
fn limit_output(scope: String, snapshot: &RateLimitSnapshot) -> (output: RateLimitOutput)
    ensures
        shows_limit(output@, scope@, snapshot@),
{
    let mut output = RateLimitOutput {
        scope,
        plan_type: match &snapshot.plan_type {
            Some(plan_type) => Some(account::plan_type_label(plan_type)),
            None => None,
        },
        five_hour: None,
        weekly: None,
        monthly: None,
    };
    let ghost empty = output@;
    assign_rate_limit_window(&mut output, snapshot.primary.as_ref(), WindowFallback::Primary);
    let ghost half = output@;
    assign_rate_limit_window(&mut output, snapshot.secondary.as_ref(), WindowFallback::Secondary);
    proof {
        let limit = snapshot@;
        assert forall|kind: RateLimitWindowKind|
            shows_kind(#[trigger] slot(output@, kind), limit, kind) by {
            assert(slot(empty, kind) is None);
            assert(slot(half, kind) == slot(half, kind));
        }
    }
    output
}

/// What is shown of reported limits.
pub fn normalize_rate_limits(snapshots: Vec<RateLimitSnapshot>) -> (output: Vec<RateLimitOutput>)
    ensures
        shows_limits(shown(output@), reported(snapshots@)),
{
    let index = index_limits(&snapshots);
    let ghost ids = distinct_ids(reported(snapshots@));
    let mut output: Vec<RateLimitOutput> = Vec::new();
    let mut additional: usize = 0;
    let mut i: usize = 0;
    while i < index.ids.len()
        invariant
            i <= index.ids@.len(),
            ids == distinct_ids(reported(snapshots@)),
            text::texts(index.ids@) == ids,
            index.places@.len() == index.ids@.len(),
            forall|k: int|
                0 <= k < index.places@.len() ==> #[trigger] index.places@[k] < snapshots@.len()
                    && snapshots@[index.places@[k] as int]@ == latest(
                    reported(snapshots@),
                    index.ids@[k]@,
                ),
            additional <= i,
            additional == additional_count(ids, i as nat),
            output@.len() == i,
            forall|k: int|
                0 <= k < i ==> shows_limit(
                    (#[trigger] output@[k])@,
                    scope_of(ids, k),
                    latest(reported(snapshots@), ids[k]),
                ),
        decreases index.ids@.len() - i,
    {
        assert(ids[i as int] == index.ids@[i as int]@);
        let scope: String = if text::same_text(index.ids[i].as_str(), "codex") {
            "codex".to_string()
        } else {
            additional = additional + 1;
            let mut scope = "additional_".to_string();
            scope.append(text::decimal_text(additional as u128).as_str());
            scope
        };
        assert(scope@ == scope_of(ids, i as int));
        assert(index.places@[i as int] < snapshots@.len());
        let limit = limit_output(scope, &snapshots[index.places[i]]);
        output.push(limit);
        i = i + 1;
    }
    output
}

/// A window of some kind is there to be shown.
pub open spec fn has_window(limit: ShownLimit) -> bool {
    limit.five_hour is Some || limit.weekly is Some || limit.monthly is Some
}

/// Tells whether a limit has a window to show.
pub fn limit_has_displayable_window(limit: &RateLimitOutput) -> (yes: bool)
    ensures
        yes == has_window(limit@),
{
    limit.five_hour.is_some() || limit.weekly.is_some() || limit.monthly.is_some()
}

// ---------------------------------------------------------------------------
// Replies
// ---------------------------------------------------------------------------

/// What came of asking the backend for rate limits.
#[derive(Debug, Clone, PartialEq, Eq)]
pub enum RateLimitsReply {
    /// Nobody is signed in.
    NoAccount,
    /// The account does not use this backend.
    OtherBackend,
    /// A client for the backend could not be made.
    NoClient,
    /// The request failed, with this message.
    Failed(String),
    /// The backend reported these limits.
    Reported(Vec<RateLimitSnapshot>),
}

/// No rate limits, for a reason.
pub open spec fn no_limits(reason: Seq<char>) -> ShownLimits {
    ShownLimits {
        status: RateLimitStatus::Unavailable,
        reason: Some(reason),
        limits: Seq::empty(),
    }
}

/// No rate limits, for a reason.
pub fn unavailable(reason: &str) -> (output: RateLimitsOutput)
    ensures
        output@ == no_limits(reason@),
{
    let output = RateLimitsOutput {
        status: RateLimitStatus::Unavailable,
        reason: Some(reason.to_string()),
        limits: Vec::new(),
    };
    assert(output@.limits =~= Seq::empty());
    output
}

/// The message of a request that was refused for want of authentication.
pub open spec fn is_unauthorized(message: Seq<char>) -> bool {
    text::has_part(message, "401"@) || text::has_part(message, "Unauthorized"@)
}

/// Why rate limits could not be read, told without the failed request's message.
pub open spec fn limits_failure(message: Seq<char>) -> Seq<char> {
    if is_unauthorized(message) {
        "authentication failed while reading rate limits"@
    } else {
        "failed to fetch rate limits"@
    }
}

/// Why rate limits could not be read, given the failed request's message.
pub fn rate_limit_error_reason(message: &str) -> (reason: &'static str)
    ensures
        reason@ == limits_failure(message@),
{
    if text::contains(message, "401") || text::contains(message, "Unauthorized") {
        "authentication failed while reading rate limits"
    } else {
        "failed to fetch rate limits"
    }
}

/// `output` shows what came of asking for rate limits.
pub open spec fn shows_reply(output: ShownLimits, reply: RateLimitsReply) -> bool {
    match reply {
        RateLimitsReply::NoAccount => output == no_limits(
            "codex account authentication required"@,
        ),
        RateLimitsReply::OtherBackend => output == no_limits("chatgpt authentication required"@),
        RateLimitsReply::NoClient => output == no_limits("failed to construct backend client"@),
        RateLimitsReply::Failed(message) => output == no_limits(limits_failure(message@)),
        RateLimitsReply::Reported(snapshots) => if snapshots@.len() == 0 {
            output == no_limits("no rate limit snapshots returned"@)
        } else {
            &&& output.status == RateLimitStatus::Available
            &&& output.reason is None
            &&& shows_limits(output.limits, reported(snapshots@))
        },
    }
}

/// What is shown of a reply.
pub fn rate_limits_output(reply: RateLimitsReply) -> (output: RateLimitsOutput)
    ensures
        shows_reply(output@, reply),
{
    match reply {
        RateLimitsReply::NoAccount => unavailable("codex account authentication required"),
        RateLimitsReply::OtherBackend => unavailable("chatgpt authentication required"),
        RateLimitsReply::NoClient => unavailable("failed to construct backend client"),
        RateLimitsReply::Failed(message) => unavailable(rate_limit_error_reason(message.as_str())),
        RateLimitsReply::Reported(snapshots) => {
            if snapshots.len() == 0 {
                return unavailable("no rate limit snapshots returned");
            }
            RateLimitsOutput {
                status: RateLimitStatus::Available,
                reason: None,
                limits: normalize_rate_limits(snapshots),
            }
        },
    }
}

// ---------------------------------------------------------------------------
// Laws
// ---------------------------------------------------------------------------

/// The identifiers of shown limits are those that were reported, each once and in
/// ascending order.
pub proof fn law_each_identifier_counts_once(limits: Seq<ReportedLimit>)
    ensures
        sorted::in_order(distinct_ids(limits)),
        forall|id: Seq<char>|
            #[trigger] distinct_ids(limits).contains(id) <==> exists|i: int|
                0 <= i < limits.len() && id_of(#[trigger] limits[i]) == id,
    decreases limits.len(),
{
    if limits.len() > 0 {
        let rest = limits.drop_last();
        law_each_identifier_counts_once(rest);
        sorted::lemma_with_text_keeps_order(distinct_ids(rest), id_of(limits.last()));
        assert forall|id: Seq<char>|
            #[trigger] distinct_ids(limits).contains(id) <==> exists|i: int|
                0 <= i < limits.len() && id_of(#[trigger] limits[i]) == id by {
            if distinct_ids(rest).contains(id) {
                let i = choose|i: int| 0 <= i < rest.len() && id_of(#[trigger] rest[i]) == id;
                assert(limits[i] == rest[i]);
            }
            if id == id_of(limits.last()) {
                assert(limits[limits.len() - 1] == limits.last());
            }
            if exists|i: int| 0 <= i < limits.len() && id_of(#[trigger] limits[i]) == id {
                let i = choose|i: int| 0 <= i < limits.len() && id_of(#[trigger] limits[i]) == id;
                if i < rest.len() {
                    assert(rest[i] == limits[i]);
                }
                assert(distinct_ids(rest).contains(id) || id == id_of(limits.last()));
            }
        }
    }
}

/// Of several reports with one identifier the last is shown.
pub proof fn law_last_report_counts(limits: Seq<ReportedLimit>, index: int)
    requires
        0 <= index < limits.len(),
        forall|later: int|
            index < later < limits.len() ==> id_of(#[trigger] limits[later]) != id_of(
                limits[index],
            ),
    ensures
        latest(limits, id_of(limits[index])) == limits[index],
    decreases limits.len(),
{
    if index < limits.len() - 1 {
        let rest = limits.drop_last();
        assert(limits[limits.len() - 1] == limits.last());
        assert forall|later: int| index < later < rest.len() implies id_of(#[trigger] rest[later])
            != id_of(rest[index]) by {
            assert(rest[later] == limits[later]);
        }
        law_last_report_counts(rest, index);
    }
}

/// The count of additional limits grows by one at each.
proof fn lemma_additional_count(ids: Seq<Seq<char>>, from: nat, to: nat)
    requires
        from <= to <= ids.len(),
    ensures
        additional_count(ids, from) <= additional_count(ids, to) <= to,
    decreases to,
{
    if to > 0 {
        lemma_additional_count(ids, if from < to { from } else { (to - 1) as nat }, (to - 1) as nat);
    }
}

/// A limit is shown as the default one, or under its number among the additional
/// ones.
pub proof fn law_scopes_are_neutral(limits: Seq<ReportedLimit>, index: int)
    requires
        0 <= index < distinct_ids(limits).len(),
    ensures
        scope_of(distinct_ids(limits), index) == "codex"@ || exists|n: nat|
            1 <= n <= distinct_ids(limits).len() && scope_of(distinct_ids(limits), index)
                == "additional_"@ + #[trigger] text::decimal(n),
{
    let ids = distinct_ids(limits);
    if ids[index] != "codex"@ {
        let n = additional_count(ids, (index + 1) as nat);
        lemma_additional_count(ids, (index + 1) as nat, ids.len());
        assert(scope_of(ids, index) == "additional_"@ + text::decimal(n));
    }
}

/// No identifier but that of the default limit shows in a name: identifiers with
/// the default one at the same places give the same names.
pub proof fn law_scopes_hide_identifiers(ids: Seq<Seq<char>>, others: Seq<Seq<char>>, index: int)
    requires
        ids.len() == others.len(),
        forall|i: int|
            0 <= i < ids.len() ==> (#[trigger] ids[i] == "codex"@ <==> others[i] == "codex"@),
        0 <= index < ids.len(),
    ensures
        scope_of(ids, index) == scope_of(others, index),
{
    lemma_same_count(ids, others, (index + 1) as nat);
}

proof fn lemma_same_count(ids: Seq<Seq<char>>, others: Seq<Seq<char>>, count: nat)
    requires
        ids.len() == others.len(),
        forall|i: int|
            0 <= i < ids.len() ==> (#[trigger] ids[i] == "codex"@ <==> others[i] == "codex"@),
        count <= ids.len(),
    ensures
        additional_count(ids, count) == additional_count(others, count),
    decreases count,
{
    if count > 0 {
        assert((ids[count - 1] == "codex"@) == (others[count - 1] == "codex"@));
        lemma_same_count(ids, others, (count - 1) as nat);
    }
}

/// Two lists of reports differ in identifiers alone: these are the default one at the same
/// places, are the same at the same places, and stand in the same order.
pub open spec fn differ_in_identifiers(
    limits: Seq<ReportedLimit>,
    others: Seq<ReportedLimit>,
) -> bool {
    &&& limits.len() == others.len()
    &&& forall|i: int|
        #![trigger limits[i]]
        #![trigger others[i]]
        0 <= i < limits.len() ==> limits[i].primary == others[i].primary && limits[i].secondary
            == others[i].secondary && limits[i].plan_type == others[i].plan_type && (id_of(
            limits[i],
        ) == "codex"@ <==> id_of(others[i]) == "codex"@)
    &&& forall|i: int, j: int|
        #![trigger limits[i], limits[j]]
        #![trigger others[i], others[j]]
        0 <= i < limits.len() && 0 <= j < limits.len() ==> (id_of(limits[i]) == id_of(limits[j])
            <==> id_of(others[i]) == id_of(others[j])) && text::comes_before(
            id_of(limits[i]),
            id_of(limits[j]),
        ) == text::comes_before(id_of(others[i]), id_of(others[j]))
}

/// Places of reports, in the order of their identifiers, with one more in its place.
spec fn with_place(limits: Seq<ReportedLimit>, places: Seq<int>, place: int) -> Seq<int>
    decreases places.len(),
{
    if places.len() == 0 {
        seq![place]
    } else if id_of(limits[places.last()]) == id_of(limits[place]) {
        places
    } else if text::comes_before(id_of(limits[places.last()]), id_of(limits[place])) {
        places.push(place)
    } else {
        with_place(limits, places.drop_last(), place).push(places.last())
    }
}

/// Places of the first reports, one for each identifier, in the order of these.
spec fn places_of(limits: Seq<ReportedLimit>, count: nat) -> Seq<int>
    decreases count,
{
    if count == 0 {
        Seq::empty()
    } else {
        with_place(limits, places_of(limits, (count - 1) as nat), count - 1)
    }
}

/// The identifiers at places.
spec fn ids_at(limits: Seq<ReportedLimit>, places: Seq<int>) -> Seq<Seq<char>> {
    Seq::new(places.len(), |i: int| id_of(limits[places[i]]))
}

/// All places are among the first `count`.
spec fn are_places(places: Seq<int>, count: int) -> bool {
    forall|i: int| 0 <= i < places.len() ==> 0 <= #[trigger] places[i] < count
}

proof fn lemma_with_place(limits: Seq<ReportedLimit>, places: Seq<int>, place: int)
    ensures
        ids_at(limits, with_place(limits, places, place)) == sorted::with_text(
            ids_at(limits, places),
            id_of(limits[place]),
        ),
        place >= 0 && are_places(places, place) ==> are_places(
            with_place(limits, places, place),
            place + 1,
        ),
    decreases places.len(),
{
    let ids = ids_at(limits, places);
    let all = with_place(limits, places, place);
    if places.len() == 0 {
        assert(ids_at(limits, all) =~= seq![id_of(limits[place])]);
    } else {
        let rest = places.drop_last();
        lemma_with_place(limits, rest, place);
        assert(ids.drop_last() =~= ids_at(limits, rest));
        if id_of(limits[places.last()]) != id_of(limits[place]) {
            if text::comes_before(id_of(limits[places.last()]), id_of(limits[place])) {
                assert(ids_at(limits, all) =~= ids.push(id_of(limits[place])));
            } else {
                assert(ids_at(limits, all) =~= ids_at(
                    limits,
                    with_place(limits, rest, place),
                ).push(ids.last()));
            }
        }
        if are_places(places, place) {
            assert(are_places(rest, place)) by {
                assert forall|i: int| 0 <= i < rest.len() implies 0 <= #[trigger] rest[i]
                    < place by {
                    assert(rest[i] == places[i]);
                }
            }
            assert(places.last() == places[places.len() - 1]);
        }
    }
}

proof fn lemma_places_give_ids(limits: Seq<ReportedLimit>, count: nat)
    requires
        count <= limits.len(),
    ensures
        distinct_ids(limits.take(count as int)) == ids_at(limits, places_of(limits, count)),
        are_places(places_of(limits, count), count as int),
    decreases count,
{
    if count == 0 {
        assert(ids_at(limits, places_of(limits, 0)) =~= Seq::empty());
    } else {
        lemma_places_give_ids(limits, (count - 1) as nat);
        lemma_with_place(limits, places_of(limits, (count - 1) as nat), count - 1);
        assert(limits.take(count as int).drop_last() =~= limits.take(count - 1));
    }
}

proof fn lemma_same_place(
    limits: Seq<ReportedLimit>,
    others: Seq<ReportedLimit>,
    places: Seq<int>,
    place: int,
)
    requires
        differ_in_identifiers(limits, others),
        are_places(places, place),
        0 <= place < limits.len(),
    ensures
        with_place(limits, places, place) == with_place(others, places, place),
    decreases places.len(),
{
    if places.len() > 0 {
        let last = places[places.len() - 1];
        assert(0 <= last < place);
        assert(limits[last] == limits[last] && limits[place] == limits[place]);
        let rest = places.drop_last();
        assert forall|i: int| 0 <= i < rest.len() implies 0 <= #[trigger] rest[i] < place by {
            assert(rest[i] == places[i]);
        }
        lemma_same_place(limits, others, rest, place);
    }
}

proof fn lemma_same_places(limits: Seq<ReportedLimit>, others: Seq<ReportedLimit>, count: nat)
    requires
        differ_in_identifiers(limits, others),
        count <= limits.len(),
    ensures
        places_of(limits, count) == places_of(others, count),
    decreases count,
{
    if count > 0 {
        lemma_same_places(limits, others, (count - 1) as nat);
        lemma_places_give_ids(limits, (count - 1) as nat);
        lemma_same_place(limits, others, places_of(limits, (count - 1) as nat), count - 1);
    }
}

proof fn lemma_same_latest(
    limits: Seq<ReportedLimit>,
    others: Seq<ReportedLimit>,
    place: int,
    count: nat,
)
    requires
        differ_in_identifiers(limits, others),
        0 <= place < limits.len(),
        0 < count <= limits.len(),
    ensures
        exists|i: int|
            0 <= i < count && latest(limits.take(count as int), id_of(limits[place]))
                == #[trigger] limits[i] && latest(others.take(count as int), id_of(others[place]))
                == others[i],
    decreases count,
{
    let (some, more) = (limits.take(count as int), others.take(count as int));
    let last = count - 1;
    assert(some.last() == limits[last] && more.last() == others[last]);
    assert((id_of(limits[last]) == id_of(limits[place])) == (id_of(others[last]) == id_of(
        others[place],
    )));
    if count > 1 && id_of(limits[last]) != id_of(limits[place]) {
        lemma_same_latest(limits, others, place, (count - 1) as nat);
        assert(some.drop_last() =~= limits.take(count - 1));
        assert(more.drop_last() =~= others.take(count - 1));
    }
}

/// What is shown of reports does not depend on their identifiers but for which are the
/// default one, which are the same, and in what order they stand.
pub proof fn law_identifiers_do_not_show(
    output: Seq<ShownLimit>,
    limits: Seq<ReportedLimit>,
    others: Seq<ReportedLimit>,
)
    requires
        differ_in_identifiers(limits, others),
        shows_limits(output, limits),
    ensures
        shows_limits(output, others),
{
    let count = limits.len();
    let places = places_of(limits, count);
    lemma_same_places(limits, others, count);
    lemma_places_give_ids(limits, count);
    lemma_places_give_ids(others, count);
    assert(limits.take(count as int) =~= limits);
    assert(others.take(count as int) =~= others);
    let (ids, names) = (distinct_ids(limits), distinct_ids(others));
    assert forall|i: int| 0 <= i < ids.len() implies (#[trigger] ids[i] == "codex"@ <==> names[i]
        == "codex"@) by {
        assert(0 <= places[i] < count);
        assert(limits[places[i]] == limits[places[i]]);
    }
    assert forall|i: int| 0 <= i < output.len() implies shows_limit(
        #[trigger] output[i],
        scope_of(names, i),
        latest(others, names[i]),
    ) by {
        law_scopes_hide_identifiers(ids, names, i);
        assert(0 <= places[i] < count);
        lemma_same_latest(limits, others, places[i], count);
        let shown = latest(limits, ids[i]);
        let other = latest(others, names[i]);
        assert(shows_limit(output[i], scope_of(ids, i), shown));
        assert(shown.primary == other.primary && shown.secondary == other.secondary
            && shown.plan_type == other.plan_type);
        assert forall|kind: RateLimitWindowKind|
            shows_kind(#[trigger] slot(output[i], kind), other, kind) by {
            assert(shows_kind(slot(output[i], kind), shown, kind));
        }
    }
}

/// No two limits are shown under one name.
pub proof fn law_scopes_differ(limits: Seq<ReportedLimit>, first: int, second: int)
    requires
        0 <= first < second < distinct_ids(limits).len(),
    ensures
        scope_of(distinct_ids(limits), first) != scope_of(distinct_ids(limits), second),
{
    let ids = distinct_ids(limits);
    law_each_identifier_counts_once(limits);
    text::lemma_order_irreflexive(ids[first]);
    let (n, m) = (
        additional_count(ids, (first + 1) as nat),
        additional_count(ids, (second + 1) as nat),
    );
    lemma_additional_count(ids, (first + 1) as nat, second as nat);
    let (a, b) = (scope_of(ids, first), scope_of(ids, second));
    reveal_strlit("codex");
    reveal_strlit("additional_");
    if ids[first] == "codex"@ || ids[second] == "codex"@ {
        assert(a[0] != b[0]);
    } else {
        assert(n < m);
        let prefix = "additional_"@;
        text::lemma_decimal_reads_back(n);
        text::lemma_decimal_reads_back(m);
        if a == b {
            assert((prefix + text::decimal(n)).skip(prefix.len() as int) =~= text::decimal(n));
            assert((prefix + text::decimal(m)).skip(prefix.len() as int) =~= text::decimal(m));
        }
    }
}

/// A report that failed, for whatever reason, shows no limits and one of the fixed
/// reasons; the message of a failed request does not show.
pub proof fn law_failures_show_fixed_reasons(output: ShownLimits, reply: RateLimitsReply)
    requires
        shows_reply(output, reply),
        output.status == RateLimitStatus::Unavailable,
    ensures
        output.limits.len() == 0,
        output.reason == Some("codex account authentication required"@) || output.reason == Some(
            "chatgpt authentication required"@,
        ) || output.reason == Some("failed to construct backend client"@) || output.reason == Some(
            "authentication failed while reading rate limits"@,
        ) || output.reason == Some("failed to fetch rate limits"@) || output.reason == Some(
            "no rate limit snapshots returned"@,
        ),
{
}

/// Each reported window is shown, unless both windows of a limit are of one kind:
/// then the secondary one is.
pub proof fn law_reported_windows_are_shown(
    output: ShownLimit,
    scope: Seq<char>,
    limit: ReportedLimit,
)
    requires
        shows_limit(output, scope, limit),
    ensures
        limit.secondary matches Some(window) ==> slot(
            output,
            kind_of(window, WindowFallback::Secondary),
        ) is Some,
        limit.primary matches Some(window) ==> slot(
            output,
            kind_of(window, WindowFallback::Primary),
        ) is Some,
        has_window(output) <==> limit.primary is Some || limit.secondary is Some,
{
    if limit.secondary is Some {
        let kind = kind_of(limit.secondary->0, WindowFallback::Secondary);
        assert(shows_kind(slot(output, kind), limit, kind));
    }
    if limit.primary is Some {
        let kind = kind_of(limit.primary->0, WindowFallback::Primary);
        assert(shows_kind(slot(output, kind), limit, kind));
    }
    assert(shows_kind(slot(output, RateLimitWindowKind::FiveHour), limit, RateLimitWindowKind::FiveHour));
    assert(shows_kind(slot(output, RateLimitWindowKind::Weekly), limit, RateLimitWindowKind::Weekly));
    assert(shows_kind(slot(output, RateLimitWindowKind::Monthly), limit, RateLimitWindowKind::Monthly));
}

/// The length of a window, if it is known, lies between two numbers of minutes.
pub open spec fn lasts(window: ReportedWindow, least: int, most: int) -> bool {
    match window.window_minutes {
        Some(minutes) => least <= minutes <= most,
        None => false,
    }
}

/// A window lasts about five hours, a week, or thirty days.
pub open spec fn has_known_length(window: ReportedWindow) -> bool {
    lasts(window, 285, 315) || lasts(window, 9_576, 10_584) || lasts(window, 41_040, 45_360)
}

/// The length of a window tells its kind, wherever in a report it stands; only a window with
/// another length, or with none, is taken for what its place promises.
pub proof fn law_length_tells_the_kind(window: ReportedWindow, fallback: WindowFallback)
    ensures
        lasts(window, 285, 315) ==> kind_of(window, fallback) == RateLimitWindowKind::FiveHour,
        lasts(window, 9_576, 10_584) ==> kind_of(window, fallback) == RateLimitWindowKind::Weekly,
        lasts(window, 41_040, 45_360) ==> kind_of(window, fallback) == RateLimitWindowKind::Monthly,
        !has_known_length(window) ==> kind_of(window, WindowFallback::Primary)
            == RateLimitWindowKind::FiveHour && kind_of(window, WindowFallback::Secondary)
            == RateLimitWindowKind::Weekly,
{
}

/// A place shows a reported window.
pub open spec fn place_shows(place: Option<ShownWindow>, window: ReportedWindow) -> bool {
    place is Some && shows_window(place->0, window)
}

/// The windows of a report are shown in the places of their lengths: a secondary window of
/// about five hours in the five-hour place, of about a week in the weekly one, of about
/// thirty days in the monthly one, and of any other length in the weekly one.  So is a
/// primary window, but one of any other length in the five-hour place, unless the secondary
/// window is shown there.  No other place shows anything.
pub proof fn law_windows_are_shown_by_their_length(
    output: ShownLimit,
    scope: Seq<char>,
    limit: ReportedLimit,
)
    requires
        shows_limit(output, scope, limit),
    ensures
        limit.secondary matches Some(window) ==> {
            &&& lasts(window, 285, 315) ==> place_shows(output.five_hour, window)
            &&& lasts(window, 9_576, 10_584) ==> place_shows(output.weekly, window)
            &&& lasts(window, 41_040, 45_360) ==> place_shows(output.monthly, window)
            &&& !has_known_length(window) ==> place_shows(output.weekly, window)
        },
        limit.primary matches Some(window) ==> {
            let other = limit.secondary;
            &&& lasts(window, 285, 315) ==> place_shows(output.five_hour, window) || (other is Some
                && lasts(other->0, 285, 315))
            &&& lasts(window, 9_576, 10_584) ==> place_shows(output.weekly, window) || (
            other is Some && (lasts(other->0, 9_576, 10_584) || !has_known_length(other->0)))
            &&& lasts(window, 41_040, 45_360) ==> place_shows(output.monthly, window) || (
            other is Some && lasts(other->0, 41_040, 45_360))
            &&& !has_known_length(window) ==> place_shows(output.five_hour, window) || (
            other is Some && lasts(other->0, 285, 315))
        },
        output.five_hour is Some ==> (limit.primary is Some && (lasts(limit.primary->0, 285, 315)
            || !has_known_length(limit.primary->0))) || (limit.secondary is Some && lasts(
            limit.secondary->0,
            285,
            315,
        )),
        output.weekly is Some ==> (limit.primary is Some && lasts(limit.primary->0, 9_576, 10_584))
            || (limit.secondary is Some && (lasts(limit.secondary->0, 9_576, 10_584)
            || !has_known_length(limit.secondary->0))),
        output.monthly is Some ==> (limit.primary is Some && lasts(
            limit.primary->0,
            41_040,
            45_360,
        )) || (limit.secondary is Some && lasts(limit.secondary->0, 41_040, 45_360)),
{
    let (short, week, month) = (
        RateLimitWindowKind::FiveHour,
        RateLimitWindowKind::Weekly,
        RateLimitWindowKind::Monthly,
    );
    assert(shows_kind(slot(output, short), limit, short));
    assert(shows_kind(slot(output, week), limit, week));
    assert(shows_kind(slot(output, month), limit, month));
    if limit.primary is Some {
        law_length_tells_the_kind(limit.primary->0, WindowFallback::Primary);
    }
    if limit.secondary is Some {
        law_length_tells_the_kind(limit.secondary->0, WindowFallback::Secondary);
    }
}

/// A limit is shown with the name that it was given and with its plan, if that is known.
pub proof fn law_limits_show_name_and_plan(
    output: ShownLimit,
    scope: Seq<char>,
    limit: ReportedLimit,
)
    requires
        shows_limit(output, scope, limit),
    ensures
        output.scope == scope,
        limit.plan_type is None ==> output.plan_type is None,
        limit.plan_type matches Some(plan) ==> output.plan_type == Some(account::plan_label(plan)),
{
}

/// A shown window tells what was reported: its length, a used share from 0 to 100 as it is,
/// and one beyond as the nearer end of that range; used and remaining shares add up to 100,
/// but for less than 2 to the power of -46.
pub proof fn law_windows_tell_what_was_reported(output: ShownWindow, window: ReportedWindow)
    requires
        shows_window(output, window),
    ensures
        output.window_minutes == window.window_minutes,
        percent::in_percent_range(window.used) ==> output.used == window.used,
        !percent::is_nan(window.used) && percent::value(window.used) < 0 ==> percent::value(
            output.used,
        ) == 0,
        !percent::is_nan(window.used) && percent::value(window.used) > 100 * double::one()
            ==> percent::value(output.used) == 100 * double::one(),
        !percent::is_nan(window.used) ==> -pow2(1028) < percent::value(output.used)
            + percent::value(output.remaining) - 100 * double::one() < pow2(1028),
{
    percent::law_shares_stay_in_range(window.used, output.remaining);
    percent::lemma_hundred();
    if !percent::is_nan(window.used) {
        percent::law_shares_add_up(output.used, output.remaining);
    }
}

/// A window tells the instant of its reset, and the local reading of it, just where the
/// report has one that the date library can hold.
pub proof fn law_windows_tell_their_reset(output: ShownWindow, window: ReportedWindow)
    requires
        shows_window(output, window),
    ensures
        window.resets_at is None ==> output.reset_at is None && output.reset_display is None,
        window.resets_at matches Some(reset) ==> {
            &&& output.reset_at is Some <==> calendar::is_supported(reset.seconds as int)
            &&& output.reset_at is Some ==> output.reset_at->0 == calendar::rfc3339_text(
                reset.seconds as int,
            )
            &&& output.reset_display is Some <==> calendar::is_supported(reset.seconds as int)
                && calendar::is_supported(reset.local as int)
            &&& output.reset_display == calendar::reset_display(reset)
        },
{
}

/// The default limit has its own name; the others are numbered from 1 on in the order of
/// their identifiers, and the default limit is left out in counting.
pub proof fn law_scopes_are_numbered(ids: Seq<Seq<char>>, index: int)
    requires
        sorted::in_order(ids),
        0 <= index < ids.len(),
    ensures
        ids[index] == "codex"@ ==> scope_of(ids, index) == "codex"@,
        ids[index] != "codex"@ && !text::comes_before("codex"@, ids[index]) ==> scope_of(ids, index)
            == "additional_"@ + text::decimal((index + 1) as nat),
        ids[index] != "codex"@ && text::comes_before("codex"@, ids[index]) && ids.contains(
            "codex"@,
        ) ==> scope_of(ids, index) == "additional_"@ + text::decimal(index as nat),
        ids[index] != "codex"@ && !ids.contains("codex"@) ==> scope_of(ids, index)
            == "additional_"@ + text::decimal((index + 1) as nat),
{
    let codex = "codex"@;
    if ids[index] != codex {
        if ids.contains(codex) && text::comes_before(codex, ids[index]) {
            let place = choose|place: int| 0 <= place < ids.len() && ids[place] == codex;
            if place > index {
                text::lemma_order_transitive(codex, ids[index], codex);
                text::lemma_order_irreflexive(codex);
            }
            assert forall|i: int| 0 <= i < ids.len() && i != place implies #[trigger] ids[i]
                != codex by {
                text::lemma_order_irreflexive(codex);
            }
            lemma_count_without(ids, place, place as nat);
            lemma_count_past(ids, place, (index + 1) as nat);
        } else {
            assert forall|i: int| 0 <= i <= index implies #[trigger] ids[i] != codex by {
                if ids[i] == codex {
                    assert(ids.contains(codex));
                    assert(text::comes_before(ids[i], ids[index]));
                }
            }
            lemma_count_without(ids, index + 1, (index + 1) as nat);
        }
    }
}

/// Before the default limit every limit counts.
proof fn lemma_count_without(ids: Seq<Seq<char>>, end: int, count: nat)
    requires
        count <= end <= ids.len(),
        forall|i: int| 0 <= i < end ==> #[trigger] ids[i] != "codex"@,
    ensures
        additional_count(ids, count) == count,
    decreases count,
{
    if count > 0 {
        assert(ids[count - 1] != "codex"@);
        lemma_count_without(ids, end, (count - 1) as nat);
    }
}

/// Past the default limit it is left out of the count.
proof fn lemma_count_past(ids: Seq<Seq<char>>, place: int, count: nat)
    requires
        0 <= place < count <= ids.len(),
        ids[place] == "codex"@,
        forall|i: int| 0 <= i < ids.len() && i != place ==> #[trigger] ids[i] != "codex"@,
    ensures
        additional_count(ids, count) == count - 1,
    decreases count,
{
    if count - 1 == place {
        lemma_count_without(ids, place, place as nat);
    } else {
        assert(ids[count - 1] != "codex"@);
        lemma_count_past(ids, place, (count - 1) as nat);
    }
}

/// Every identifier that was reported has one limit that is shown: what its last report
/// says, under a name that is the default one just for the default identifier.
pub proof fn law_every_report_is_shown(
    output: Seq<ShownLimit>,
    limits: Seq<ReportedLimit>,
    index: int,
) -> (place: int)
    requires
        shows_limits(output, limits),
        0 <= index < limits.len(),
        forall|later: int|
            index < later < limits.len() ==> id_of(#[trigger] limits[later]) != id_of(
                limits[index],
            ),
    ensures
        0 <= place < output.len(),
        shows_limit(output[place], output[place].scope, limits[index]),
        output[place].scope == "codex"@ <==> id_of(limits[index]) == "codex"@,
        distinct_ids(limits)[place] == id_of(limits[index]),
{
    let ids = distinct_ids(limits);
    let id = id_of(limits[index]);
    law_each_identifier_counts_once(limits);
    law_last_report_counts(limits, index);
    assert(ids.contains(id));
    let place = choose|place: int| 0 <= place < ids.len() && ids[place] == id;
    assert(shows_limit(output[place], scope_of(ids, place), latest(limits, ids[place])));
    reveal_strlit("codex");
    reveal_strlit("additional_");
    if ids[place] != "codex"@ {
        assert(scope_of(ids, place)[0] == 'a');
    }
    place
}

/// Every limit that is shown is the last report of its identifier; there is one for each
/// identifier, they come in the order of the identifiers, and go by the names that the
/// order gives them.
pub proof fn law_every_shown_limit_was_reported(
    output: Seq<ShownLimit>,
    limits: Seq<ReportedLimit>,
    place: int,
) -> (index: int)
    requires
        shows_limits(output, limits),
        0 <= place < output.len(),
    ensures
        output.len() == distinct_ids(limits).len(),
        0 <= index < limits.len(),
        id_of(limits[index]) == distinct_ids(limits)[place],
        forall|later: int|
            index < later < limits.len() ==> id_of(#[trigger] limits[later]) != id_of(
                limits[index],
            ),
        shows_limit(output[place], scope_of(distinct_ids(limits), place), limits[index]),
{
    let ids = distinct_ids(limits);
    law_each_identifier_counts_once(limits);
    assert(ids.contains(ids[place]));
    let some = choose|i: int| 0 <= i < limits.len() && id_of(#[trigger] limits[i]) == ids[place];
    let index = lemma_last_with_id(limits, some);
    law_last_report_counts(limits, index);
    assert(shows_limit(output[place], scope_of(ids, place), latest(limits, ids[place])));
    index
}

/// Of the reports with one identifier there is a last one.
proof fn lemma_last_with_id(limits: Seq<ReportedLimit>, some: int) -> (index: int)
    requires
        0 <= some < limits.len(),
    ensures
        some <= index < limits.len(),
        id_of(limits[index]) == id_of(limits[some]),
        forall|later: int|
            index < later < limits.len() ==> id_of(#[trigger] limits[later]) != id_of(
                limits[index],
            ),
    decreases limits.len() - some,
{
    if exists|later: int|
        some < later < limits.len() && id_of(#[trigger] limits[later]) == id_of(limits[some]) {
        let later = choose|later: int|
            some < later < limits.len() && id_of(#[trigger] limits[later]) == id_of(limits[some]);
        lemma_last_with_id(limits, later)
    } else {
        some
    }
}

/// A failed request is told to be one of authentication just where its message holds
/// "401" or "Unauthorized"; limits are available just where the backend reported some, and
/// then no reason is told.
pub proof fn law_replies_are_told_apart(output: ShownLimits, reply: RateLimitsReply)
    requires
        shows_reply(output, reply),
    ensures
        output.status == RateLimitStatus::Available <==> reply is Reported && reply->Reported_0@.len()
            > 0,
        output.status == RateLimitStatus::Available ==> output.reason is None && shows_limits(
            output.limits,
            reported(reply->Reported_0@),
        ),
        reply matches RateLimitsReply::Failed(message) ==> (output.reason == Some(
            "authentication failed while reading rate limits"@,
        ) <==> (exists|at: int|
            0 <= at <= message@.len() - 3 && #[trigger] message@.subrange(at, at + 3) == seq![
                '4',
                '0',
                '1',
            ]) || text::has_part(message@, "Unauthorized"@)),
        reply matches RateLimitsReply::Failed(message) ==> output.reason == Some(
            "authentication failed while reading rate limits"@,
        ) || output.reason == Some("failed to fetch rate limits"@),
        reply is NoAccount ==> output.reason == Some("codex account authentication required"@),
        reply is OtherBackend ==> output.reason == Some("chatgpt authentication required"@),
        reply is NoClient ==> output.reason == Some("failed to construct backend client"@),
        reply is Reported && output.status == RateLimitStatus::Unavailable ==> output.reason
            == Some("no rate limit snapshots returned"@),
{
    reveal_strlit("authentication failed while reading rate limits");
    reveal_strlit("failed to fetch rate limits");
    reveal_strlit("401");
    assert("authentication failed while reading rate limits"@.len()
        != "failed to fetch rate limits"@.len());
    assert("401"@ =~= seq!['4', '0', '1']);
    if let RateLimitsReply::Failed(message) = reply {
        let m = message@;
        if text::has_part(m, "401"@) {
            let at = choose|at: int|
                0 <= at && at + "401"@.len() <= m.len() && #[trigger] m.subrange(
                    at,
                    at + "401"@.len(),
                ) == "401"@;
            assert(m.subrange(at, at + 3) == seq!['4', '0', '1']);
        }
        if exists|at: int|
            0 <= at <= m.len() - 3 && #[trigger] m.subrange(at, at + 3) == seq!['4', '0', '1'] {
            let at = choose|at: int|
                0 <= at <= m.len() - 3 && #[trigger] m.subrange(at, at + 3) == seq!['4', '0', '1'];
            assert(m.subrange(at, at + "401"@.len()) == "401"@);
        }
    }
}

/// A length close to the expected one is taken for it, and one that is not is not: within four
/// percent it always is, and beyond six percent it never is.
pub proof fn law_lengths_are_compared_with_five_percent_to_spare(minutes: int, expected: int)
    requires
        0 <= minutes <= 0x20_0000_0000_0000,
        0 < expected <= 0x20_0000_0000_0000,
    ensures
        96 * expected <= 100 * minutes <= 104 * expected ==> approximates(minutes, expected),
        approximates(minutes, expected) ==> 94 * expected <= 100 * minutes <= 106 * expected,
{
    lemma2_to64();
    double::lemma_short_is_exact(minutes as nat, 0);
    double::lemma_short_is_exact(expected as nat, 0);
    assert(minutes * 1 == minutes && expected * 1 == expected);
    lemma_product_is_close(expected as nat, 4278419646001971);
    lemma_product_is_close(expected as nat, 4728779608739021);
}

/// A product that is rounded to a double is off by less than a thousandth.
proof fn lemma_product_is_close(n: nat, factor: nat)
    requires
        n > 0,
        factor > 2000,
    ensures
        999 * (n * factor) <= 1000 * times_parts(n as int, factor) <= 1001 * (n * factor),
{
    let product = n * factor;
    assert(product > 2000) by (nonlinear_arith)
        requires
            product == n * factor,
            n >= 1,
            factor > 2000,
    ;
    double::lemma_nearest_error(product);
    let e = double::lemma_spacing_shape(product, 1);
    lemma2_to64();
    if e > 0 {
        assert(1 * pow2(e) * 0x10_0000_0000_0000 <= product);
    } else {
        assert(pow2(e) == 1);
    }
}

/// What the backend reports is taken as it is.
pub proof fn law_reports_are_taken_as_they_are(snapshots: Seq<RateLimitSnapshot>, index: int)
    requires
        0 <= index < snapshots.len(),
    ensures
        reported(snapshots).len() == snapshots.len(),
        ({
            let (given, taken) = (snapshots[index], reported(snapshots)[index]);
            &&& taken.limit_id is Some <==> given.limit_id is Some
            &&& given.limit_id is Some ==> taken.limit_id->0 == given.limit_id->0@
            &&& taken.plan_type == given.plan_type
            &&& taken.primary is Some <==> given.primary is Some
            &&& given.primary is Some ==> taken.primary->0.used == given.primary->0.used_percent
                && taken.primary->0.window_minutes == given.primary->0.window_minutes
                && taken.primary->0.resets_at == given.primary->0.resets_at
            &&& taken.secondary is Some <==> given.secondary is Some
            &&& given.secondary is Some ==> taken.secondary->0.used
                == given.secondary->0.used_percent && taken.secondary->0.window_minutes
                == given.secondary->0.window_minutes && taken.secondary->0.resets_at
                == given.secondary->0.resets_at
        }),
        snapshots[index].limit_id is None ==> id_of(reported(snapshots)[index]) == "codex"@,
        snapshots[index].limit_id is Some ==> id_of(reported(snapshots)[index])
            == snapshots[index].limit_id->0@,
{
}

/// What is shown is taken with all its limits, and with all windows of each.
pub proof fn law_shown_limits_are_taken_in_full(output: RateLimitsOutput, index: int)
    ensures
        output@.status == output.status,
        output@.reason is Some <==> output.reason is Some,
        output.reason is Some ==> output@.reason->0 == output.reason->0@,
        output@.limits.len() == output.limits@.len(),
        0 <= index < output.limits@.len() ==> ({
            let (given, taken) = (output.limits@[index], output@.limits[index]);
            &&& taken.scope == given.scope@
            &&& taken.plan_type is Some <==> given.plan_type is Some
            &&& given.plan_type is Some ==> taken.plan_type->0 == given.plan_type->0@
            &&& taken.five_hour is Some <==> given.five_hour is Some
            &&& given.five_hour is Some ==> taken.five_hour->0 == given.five_hour->0@
            &&& taken.weekly is Some <==> given.weekly is Some
            &&& given.weekly is Some ==> taken.weekly->0 == given.weekly->0@
            &&& taken.monthly is Some <==> given.monthly is Some
            &&& given.monthly is Some ==> taken.monthly->0 == given.monthly->0@
        }),
        shown(output.limits@) == output@.limits,
{
}

/// A shown window is taken with each of its figures.
pub proof fn law_shown_windows_are_taken_in_full(window: RateLimitWindowOutput)
    ensures
        window@.remaining == window.remaining_percent@,
        window@.used == window.used_percent@,
        window@.window_minutes == window.window_minutes,
        window@.reset_at is Some <==> window.reset_at is Some,
        window.reset_at is Some ==> window@.reset_at->0 == window.reset_at->0@,
        window@.reset_display is Some <==> window.reset_display is Some,
        window.reset_display is Some ==> window@.reset_display->0 == window.reset_display->0@,
{
}

} // verus!
