//! Token usage: from what the backend reports to what is shown.

use crate::limits;
use crate::text;
use vstd::prelude::*;

verus! {

// ---------------------------------------------------------------------------
// What the backend reports
// ---------------------------------------------------------------------------

/// The tokens of a day, as reported.
#[derive(Debug, Clone, PartialEq, Eq)]
pub struct TokenUsageProfileDailyBucket {
    pub start_date: String,
    pub tokens: i64,
}

/// The figures of a profile.
#[derive(Debug, Clone, PartialEq, Eq)]
pub struct TokenUsageProfileStats {
    pub lifetime_tokens: Option<i64>,
    pub peak_daily_tokens: Option<i64>,
    pub longest_running_turn_sec: Option<i64>,
    pub current_streak_days: Option<i64>,
    pub longest_streak_days: Option<i64>,
    pub daily_usage_buckets: Option<Vec<TokenUsageProfileDailyBucket>>,
}

/// The usage of an account, as reported.
#[derive(Debug, Clone, PartialEq, Eq)]
pub struct TokenUsageProfile {
    pub stats: TokenUsageProfileStats,
}

/// The tokens of a day as a value.
pub struct Bucket {
    pub date: Seq<char>,
    pub tokens: i64,
}

impl View for TokenUsageProfileDailyBucket {
    type V = Bucket;

    open spec fn view(&self) -> Bucket {
        Bucket { date: self.start_date@, tokens: self.tokens }
    }
}

/// Reported days as values.
pub open spec fn reported_days(buckets: Seq<TokenUsageProfileDailyBucket>) -> Seq<Bucket> {
    Seq::new(buckets.len(), |i: int| buckets[i]@)
}

// ---------------------------------------------------------------------------
// What is shown
// ---------------------------------------------------------------------------

/// How token activity is drawn.
#[derive(Debug, Clone, Copy, PartialEq, Eq)]
pub enum UsageView {
    Daily,
    Weekly,
    Cumulative,
}

/// Whether token usage could be read.
#[derive(Debug, Clone, Copy, PartialEq, Eq)]
pub enum UsageStatus {
    Available,
    Unavailable,
}

/// The figures of a profile, as shown.
#[derive(Debug, Clone, Copy, PartialEq, Eq)]
pub struct UsageSummaryOutput {
    pub lifetime_tokens: Option<i64>,
    pub peak_daily_tokens: Option<i64>,
    pub longest_running_turn_sec: Option<i64>,
    pub current_streak_days: Option<i64>,
    pub longest_streak_days: Option<i64>,
}

/// The tokens of a day, as shown.
#[derive(Debug, Clone, PartialEq, Eq)]
pub struct UsageDailyBucketOutput {
    pub start_date: String,
    pub tokens: i64,
}

/// Token usage, as shown, or why there is none.
#[derive(Debug, Clone, PartialEq, Eq)]
pub struct UsageOutput {
    pub status: UsageStatus,
    pub reason: Option<String>,
    pub view: UsageView,
    pub summary: Option<UsageSummaryOutput>,
    pub daily_usage_buckets: Option<Vec<UsageDailyBucketOutput>>,
}

/// Token usage, as shown, as a value.
pub struct ShownUsage {
    pub status: UsageStatus,
    pub reason: Option<Seq<char>>,
    pub view: UsageView,
    pub summary: Option<UsageSummaryOutput>,
    pub days: Option<Seq<Bucket>>,
}

impl View for UsageDailyBucketOutput {
    type V = Bucket;

    open spec fn view(&self) -> Bucket {
        Bucket { date: self.start_date@, tokens: self.tokens }
    }
}

/// Shown days as values.
pub open spec fn shown_days(buckets: Seq<UsageDailyBucketOutput>) -> Seq<Bucket> {
    Seq::new(buckets.len(), |i: int| buckets[i]@)
}

impl View for UsageOutput {
    type V = ShownUsage;

    open spec fn view(&self) -> ShownUsage {
        ShownUsage {
            status: self.status,
            reason: text::maybe_text(self.reason),
            view: self.view,
            summary: self.summary,
            days: match self.daily_usage_buckets {
                Some(buckets) => Some(shown_days(buckets@)),
                None => None,
            },
        }
    }
}

// ---------------------------------------------------------------------------
// Days in order
// ---------------------------------------------------------------------------

/// Days with one more in its place: behind all that do not come after it.
pub open spec fn with_day(days: Seq<Bucket>, day: Bucket) -> Seq<Bucket>
    decreases days.len(),
{
    if days.len() == 0 || !text::comes_before(day.date, days.last().date) {
        days.push(day)
    } else {
        with_day(days.drop_last(), day).push(days.last())
    }
}

/// Days in the order of their dates; those of one date stay in the order given.
pub open spec fn in_date_order(days: Seq<Bucket>) -> Seq<Bucket>
    decreases days.len(),
{
    if days.len() == 0 {
        Seq::empty()
    } else {
        with_day(in_date_order(days.drop_last()), days.last())
    }
}

/// Where a day goes, given how it stands to those at the end.
proof fn lemma_with_day(days: Seq<Bucket>, day: Bucket, place: int)
    requires
        0 <= place <= days.len(),
        forall|k: int|
            place <= k < days.len() ==> text::comes_before(day.date, #[trigger] days[k].date),
        place > 0 ==> !text::comes_before(day.date, days[place - 1].date),
    ensures
        with_day(days, day) == days.insert(place, day),
    decreases days.len(),
{
    if place < days.len() {
        let rest = days.drop_last();
        assert(text::comes_before(day.date, days[days.len() - 1].date));
        assert forall|k: int| place <= k < rest.len() implies text::comes_before(
            day.date,
            #[trigger] rest[k].date,
        ) by {
            assert(rest[k] == days[k]);
        }
        lemma_with_day(rest, day, place);
        assert(rest.insert(place, day).push(days.last()) =~= days.insert(place, day));
    } else {
        assert(days.push(day) =~= days.insert(place, day));
    }
}

/// What is shown of reported days: they come in the order of their dates.
pub fn normalize_usage_daily_buckets(buckets: Vec<TokenUsageProfileDailyBucket>) -> (output: Vec<
    UsageDailyBucketOutput,
>)
    ensures
        shown_days(output@) == in_date_order(reported_days(buckets@)),
{
    let ghost all = reported_days(buckets@);
    let mut output: Vec<UsageDailyBucketOutput> = Vec::new();
    assert(shown_days(output@) =~= in_date_order(all.take(0)));
    let mut next: usize = 0;
    while next < buckets.len()
        invariant
            next <= buckets@.len(),
            all == reported_days(buckets@),
            shown_days(output@) == in_date_order(all.take(next as int)),
        decreases buckets@.len() - next,
    {
        let ghost known = shown_days(output@);
        let ghost day = all[next as int];
        let mut place: usize = output.len();
        while place > 0 && text::precedes(
            buckets[next].start_date.as_str(),
            output[place - 1].start_date.as_str(),
        )
            invariant
                next < buckets@.len(),
                day == buckets@[next as int]@,
                place <= output@.len(),
                known == shown_days(output@),
                forall|k: int|
                    place <= k < known.len() ==> text::comes_before(
                        day.date,
                        #[trigger] known[k].date,
                    ),
            decreases place,
        {
            assert(known[place - 1] == output@[place - 1]@);
            place = place - 1;
        }
        proof {
            if place > 0 {
                assert(known[place - 1] == output@[place - 1]@);
            }
            lemma_with_day(known, day, place as int);
            assert(all.take(next + 1).drop_last() =~= all.take(next as int));
        }
        let bucket = UsageDailyBucketOutput {
            start_date: buckets[next].start_date.clone(),
            tokens: buckets[next].tokens,
        };
        output.insert(place, bucket);
        assert(shown_days(output@) =~= known.insert(place as int, day));
        next = next + 1;
    }
    assert(all.take(next as int) =~= all);
    output
}

// ---------------------------------------------------------------------------
// Replies
// ---------------------------------------------------------------------------

/// The figures of a profile, as shown.
pub open spec fn summary_of(stats: TokenUsageProfileStats) -> UsageSummaryOutput {
    UsageSummaryOutput {
        lifetime_tokens: stats.lifetime_tokens,
        peak_daily_tokens: stats.peak_daily_tokens,
        longest_running_turn_sec: stats.longest_running_turn_sec,
        current_streak_days: stats.current_streak_days,
        longest_streak_days: stats.longest_streak_days,
    }
}

/// The figures of a profile, as shown.
pub fn usage_summary_output(stats: &TokenUsageProfileStats) -> (summary: UsageSummaryOutput)
    ensures
        summary == summary_of(*stats),
{
    UsageSummaryOutput {
        lifetime_tokens: stats.lifetime_tokens,
        peak_daily_tokens: stats.peak_daily_tokens,
        longest_running_turn_sec: stats.longest_running_turn_sec,
        current_streak_days: stats.current_streak_days,
        longest_streak_days: stats.longest_streak_days,
    }
}

/// What is shown of a profile.
pub open spec fn usage_of(profile: TokenUsageProfile, view: UsageView) -> ShownUsage {
    ShownUsage {
        status: UsageStatus::Available,
        reason: None,
        view,
        summary: Some(summary_of(profile.stats)),
        days: match profile.stats.daily_usage_buckets {
            Some(buckets) => Some(in_date_order(reported_days(buckets@))),
            None => None,
        },
    }
}

/// What is shown of a profile.
pub fn normalize_token_usage(profile: TokenUsageProfile, view: UsageView) -> (output: UsageOutput)
    ensures
        output@ == usage_of(profile, view),
{
    let stats = profile.stats;
    let summary = usage_summary_output(&stats);
    UsageOutput {
        status: UsageStatus::Available,
        reason: None,
        view,
        summary: Some(summary),
        daily_usage_buckets: match stats.daily_usage_buckets {
            Some(buckets) => Some(normalize_usage_daily_buckets(buckets)),
            None => None,
        },
    }
}

/// No token usage, for a reason.
pub open spec fn no_usage(view: UsageView, reason: Seq<char>) -> ShownUsage {
    ShownUsage {
        status: UsageStatus::Unavailable,
        reason: Some(reason),
        view,
        summary: None,
        days: None,
    }
}

/// No token usage, for a reason.
pub fn usage_unavailable(view: UsageView, reason: &str) -> (output: UsageOutput)
    ensures
        output@ == no_usage(view, reason@),
{
    UsageOutput {
        status: UsageStatus::Unavailable,
        reason: Some(reason.to_string()),
        view,
        summary: None,
        daily_usage_buckets: None,
    }
}

/// Why token usage could not be read, told without the failed request's message.
pub open spec fn usage_failure(message: Seq<char>) -> Seq<char> {
    if limits::is_unauthorized(message) {
        "authentication failed while reading token usage"@
    } else {
        "failed to fetch token usage"@
    }
}

/// Why token usage could not be read, given the failed request's message.
pub fn token_usage_error_reason(message: &str) -> (reason: &'static str)
    ensures
        reason@ == usage_failure(message@),
{
    if text::contains(message, "401") || text::contains(message, "Unauthorized") {
        "authentication failed while reading token usage"
    } else {
        "failed to fetch token usage"
    }
}

/// What came of asking the backend for token usage.
#[derive(Debug, Clone, PartialEq, Eq)]
pub enum UsageReply {
    /// Nobody is signed in.
    NoAccount,
    /// The account does not use this backend.
    OtherBackend,
    /// A client for the backend could not be made.
    NoClient,
    /// The request failed, with this message.
    Failed(String),
    /// The backend reported this profile.
    Reported(TokenUsageProfile),
}

/// What is shown of a reply.
pub open spec fn usage_of_reply(reply: UsageReply, view: UsageView) -> ShownUsage {
    match reply {
        UsageReply::NoAccount => no_usage(
            view,
            "codex account authentication required to read token usage"@,
        ),
        UsageReply::OtherBackend => no_usage(
            view,
            "chatgpt authentication required to read token usage"@,
        ),
        UsageReply::NoClient => no_usage(view, "failed to construct backend client"@),
        UsageReply::Failed(message) => no_usage(view, usage_failure(message@)),
        UsageReply::Reported(profile) => usage_of(profile, view),
    }
}

/// What is shown of a reply.
pub fn usage_output(reply: UsageReply, view: UsageView) -> (output: UsageOutput)
    ensures
        output@ == usage_of_reply(reply, view),
{
    match reply {
        UsageReply::NoAccount => usage_unavailable(
            view,
            "codex account authentication required to read token usage",
        ),
        UsageReply::OtherBackend => usage_unavailable(
            view,
            "chatgpt authentication required to read token usage",
        ),
        UsageReply::NoClient => usage_unavailable(view, "failed to construct backend client"),
        UsageReply::Failed(message) => usage_unavailable(
            view,
            token_usage_error_reason(message.as_str()),
        ),
        UsageReply::Reported(profile) => normalize_token_usage(profile, view),
    }
}

// ---------------------------------------------------------------------------
// Laws
// ---------------------------------------------------------------------------

/// No day comes before an earlier one in the list.
pub open spec fn ascending(days: Seq<Bucket>) -> bool {
    forall|i: int, j: int|
        0 <= i < j < days.len() ==> !text::comes_before(
            (#[trigger] days[j]).date,
            (#[trigger] days[i]).date,
        )
}

/// The days of one date.
pub open spec fn of_date(days: Seq<Bucket>, date: Seq<char>) -> Seq<Bucket> {
    days.filter(|day: Bucket| day.date == date)
}

proof fn lemma_with_day_ascends(days: Seq<Bucket>, day: Bucket)
    requires
        ascending(days),
    ensures
        ascending(with_day(days, day)),
        with_day(days, day).to_multiset() == days.to_multiset().insert(day),
        forall|i: int|
            0 <= i < with_day(days, day).len() ==> days.contains(#[trigger] with_day(days, day)[i])
                || with_day(days, day)[i] == day,
    decreases days.len(),
{
    broadcast use vstd::seq_lib::group_to_multiset_ensures;

    let all = with_day(days, day);
    if days.len() == 0 || !text::comes_before(day.date, days.last().date) {
        assert forall|i: int, j: int| 0 <= i < j < all.len() implies !text::comes_before(
            (#[trigger] all[j]).date,
            (#[trigger] all[i]).date,
        ) by {
            if j == days.len() && i < days.len() - 1 {
                assert(!text::comes_before(days.last().date, days[i].date));
                if text::comes_before(day.date, days[i].date) {
                    text::lemma_order_total(days[i].date, days.last().date);
                    if days[i].date != days.last().date {
                        text::lemma_order_transitive(day.date, days[i].date, days.last().date);
                    }
                }
            }
        }
        assert forall|i: int| 0 <= i < all.len() implies days.contains(#[trigger] all[i]) || all[i]
            == day by {
            if i < days.len() {
                assert(all[i] == days[i]);
            }
        }
    } else {
        let rest = days.drop_last();
        let part = with_day(rest, day);
        assert forall|i: int, j: int| 0 <= i < j < rest.len() implies !text::comes_before(
            (#[trigger] rest[j]).date,
            (#[trigger] rest[i]).date,
        ) by {
            assert(rest[i] == days[i] && rest[j] == days[j]);
        }
        lemma_with_day_ascends(rest, day);
        assert forall|i: int| 0 <= i < all.len() implies days.contains(#[trigger] all[i]) || all[i]
            == day by {
            if i < part.len() {
                assert(all[i] == part[i]);
                if rest.contains(part[i]) {
                    let k = choose|k: int| 0 <= k < rest.len() && rest[k] == part[i];
                    assert(days[k] == all[i]);
                }
            } else {
                assert(days[days.len() - 1] == all[i]);
            }
        }
        assert forall|i: int, j: int| 0 <= i < j < all.len() implies !text::comes_before(
            (#[trigger] all[j]).date,
            (#[trigger] all[i]).date,
        ) by {
            if j == part.len() {
                assert(all[i] == part[i]);
                assert(all[j] == days.last());
                if rest.contains(part[i]) {
                    let k = choose|k: int| 0 <= k < rest.len() && rest[k] == part[i];
                    assert(days[k] == all[i]);
                    assert(days[days.len() - 1] == all[j]);
                } else if text::comes_before(all[j].date, day.date) {
                    text::lemma_order_transitive(day.date, days.last().date, day.date);
                    text::lemma_order_irreflexive(day.date);
                }
            } else {
                assert(all[i] == part[i] && all[j] == part[j]);
            }
        }
        assert(rest.push(days.last()) =~= days);
        assert(all.to_multiset() =~= days.to_multiset().insert(day));
    }
}

proof fn lemma_of_date_push(days: Seq<Bucket>, day: Bucket, date: Seq<char>)
    ensures
        of_date(days.push(day), date) == if day.date == date {
            of_date(days, date).push(day)
        } else {
            of_date(days, date)
        },
{
    reveal(Seq::filter);
    assert(days.push(day).drop_last() =~= days);
}

proof fn lemma_with_day_is_stable(days: Seq<Bucket>, day: Bucket, date: Seq<char>)
    ensures
        of_date(with_day(days, day), date) == of_date(days.push(day), date),
    decreases days.len(),
{
    if days.len() > 0 && text::comes_before(day.date, days.last().date) {
        let rest = days.drop_last();
        let last = days.last();
        lemma_with_day_is_stable(rest, day, date);
        assert(rest.push(last) =~= days);
        lemma_of_date_push(with_day(rest, day), last, date);
        lemma_of_date_push(rest, day, date);
        lemma_of_date_push(rest, last, date);
        lemma_of_date_push(days, day, date);
        text::lemma_order_irreflexive(date);
    }
}

/// Sorting days loses none and adds none, puts them in the order of their dates, and
/// keeps the order of the days of one date.
pub proof fn law_days_are_sorted(days: Seq<Bucket>)
    ensures
        ascending(in_date_order(days)),
        in_date_order(days).to_multiset() == days.to_multiset(),
        forall|date: Seq<char>| #[trigger]
            of_date(in_date_order(days), date) == of_date(days, date),
    decreases days.len(),
{
    broadcast use vstd::seq_lib::group_to_multiset_ensures;

    reveal(Seq::filter);
    if days.len() == 0 {
        assert(days =~= in_date_order(days));
    } else {
        let rest = days.drop_last();
        let day = days.last();
        let sorted = in_date_order(rest);
        law_days_are_sorted(rest);
        lemma_with_day_ascends(sorted, day);
        assert(rest.push(day) =~= days);
        assert forall|date: Seq<char>| #[trigger]
            of_date(in_date_order(days), date) == of_date(days, date) by {
            lemma_with_day_is_stable(sorted, day, date);
            lemma_of_date_push(sorted, day, date);
            lemma_of_date_push(rest, day, date);
            assert(of_date(sorted, date) == of_date(rest, date));
        }
    }
}

/// Days that are in order stay as they are.
pub proof fn law_sorting_sorted_days_changes_nothing(days: Seq<Bucket>)
    requires
        ascending(days),
    ensures
        in_date_order(days) == days,
    decreases days.len(),
{
    if days.len() == 0 {
        assert(in_date_order(days) =~= days);
    } else {
        let rest = days.drop_last();
        assert forall|i: int, j: int| 0 <= i < j < rest.len() implies !text::comes_before(
            (#[trigger] rest[j]).date,
            (#[trigger] rest[i]).date,
        ) by {
            assert(rest[i] == days[i] && rest[j] == days[j]);
        }
        law_sorting_sorted_days_changes_nothing(rest);
        if rest.len() > 0 {
            assert(days[rest.len() - 1] == rest.last());
            assert(days[days.len() - 1] == days.last());
        }
        assert(rest.push(days.last()) =~= days);
    }
}

/// A report that failed, for whatever reason, shows no figures and no days, and one of
/// the fixed reasons; the message of a failed request does not show.
pub proof fn law_failures_show_fixed_reasons(reply: UsageReply, view: UsageView)
    requires
        usage_of_reply(reply, view).status == UsageStatus::Unavailable,
    ensures
        usage_of_reply(reply, view).summary is None,
        usage_of_reply(reply, view).days is None,
        ({
            let reason = usage_of_reply(reply, view).reason;
            ||| reason == Some("codex account authentication required to read token usage"@)
            ||| reason == Some("chatgpt authentication required to read token usage"@)
            ||| reason == Some("failed to construct backend client"@)
            ||| reason == Some("authentication failed while reading token usage"@)
            ||| reason == Some("failed to fetch token usage"@)
        }),
{
}

/// A profile is shown with each of its figures, with all its days, and in the view asked for.
pub proof fn law_profiles_are_shown_in_full(profile: TokenUsageProfile, view: UsageView)
    ensures
        ({
            let shown = usage_of_reply(UsageReply::Reported(profile), view);
            let stats = profile.stats;
            &&& shown.status == UsageStatus::Available
            &&& shown.reason is None
            &&& shown.view == view
            &&& shown.summary matches Some(summary) && summary.lifetime_tokens
                == stats.lifetime_tokens && summary.peak_daily_tokens == stats.peak_daily_tokens
                && summary.longest_running_turn_sec == stats.longest_running_turn_sec
                && summary.current_streak_days == stats.current_streak_days
                && summary.longest_streak_days == stats.longest_streak_days
            &&& stats.daily_usage_buckets is None ==> shown.days is None
            &&& stats.daily_usage_buckets matches Some(buckets) ==> (shown.days matches Some(days)
                && ascending(days) && days.to_multiset() == reported_days(buckets@).to_multiset()
                && forall|date: Seq<char>| #[trigger]
                of_date(days, date) == of_date(reported_days(buckets@), date))
        }),
{
    if profile.stats.daily_usage_buckets is Some {
        law_days_are_sorted(reported_days(profile.stats.daily_usage_buckets->0@));
    }
}

/// A failed request is told to be one of authentication just where its message holds "401" or
/// "Unauthorized"; any other failure is told by what it is, and in the view asked for.
pub proof fn law_replies_are_told_apart(reply: UsageReply, view: UsageView)
    ensures
        ({
            let shown = usage_of_reply(reply, view);
            &&& shown.view == view
            &&& shown.status == UsageStatus::Available <==> reply is Reported
            &&& reply is NoAccount ==> shown.reason == Some(
                "codex account authentication required to read token usage"@,
            )
            &&& reply is OtherBackend ==> shown.reason == Some(
                "chatgpt authentication required to read token usage"@,
            )
            &&& reply is NoClient ==> shown.reason == Some("failed to construct backend client"@)
            &&& reply matches UsageReply::Failed(message) ==> shown.reason == Some(
                if text::has_part(message@, seq!['4', '0', '1']) || text::has_part(
                    message@,
                    "Unauthorized"@,
                ) {
                    "authentication failed while reading token usage"@
                } else {
                    "failed to fetch token usage"@
                },
            )
        }),
{
    reveal_strlit("401");
    assert("401"@ =~= seq!['4', '0', '1']);
}

/// Days are taken with date and tokens, and none is left out; neither is any other part of
/// what is shown.
pub proof fn law_usage_is_taken_in_full(
    given: Seq<TokenUsageProfileDailyBucket>,
    shown: Seq<UsageDailyBucketOutput>,
    output: UsageOutput,
)
    ensures
        reported_days(given).len() == given.len(),
        forall|i: int|
            0 <= i < given.len() ==> (#[trigger] reported_days(given)[i]).date
                == given[i].start_date@ && reported_days(given)[i].tokens == given[i].tokens,
        shown_days(shown).len() == shown.len(),
        forall|i: int|
            0 <= i < shown.len() ==> (#[trigger] shown_days(shown)[i]).date == shown[i].start_date@
                && shown_days(shown)[i].tokens == shown[i].tokens,
        output@.status == output.status,
        output@.view == output.view,
        output@.summary == output.summary,
        output@.reason is Some <==> output.reason is Some,
        output.reason is Some ==> output@.reason->0 == output.reason->0@,
        output@.days is Some <==> output.daily_usage_buckets is Some,
        output.daily_usage_buckets is Some ==> output@.days->0 == shown_days(
            output.daily_usage_buckets->0@,
        ),
{
}

} // verus!
