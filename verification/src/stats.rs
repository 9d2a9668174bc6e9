//! Commit statistics of a repository: how many commits there are, how many
//! fall in the last four weeks, the last week and today, and how many were
//! made since a given date.

use crate::time::{
    day_start, is_possible_local_midnight, start_of_day, timestamp_from_secs, to_datetime, utc_now,
    weeks_before, weeks_earlier, CalendarDate, Timestamp, MAX_TIMESTAMP, MIN_TIMESTAMP,
};
use vstd::prelude::*;

verus! {

/// Commit counts of a repository, as of one reading of the clock.
pub struct CommitStats {
    pub repo_name: String,
    pub total_commits: u32,
    pub commits_this_month: u32,
    pub commits_this_week: u32,
    pub commits_today: u32,
    pub last_commit_time: Timestamp,
}

/// The number of commits made since a date.
pub struct SinceCommitStat {
    pub repo_name: String,
    pub since_time: CalendarDate,
    pub total_commits_since: u32,
}

/// What a `CommitStats` holds, with the counts as natural numbers.
pub struct CommitStatsView {
    pub repo_name: Seq<char>,
    pub total_commits: nat,
    pub commits_this_month: nat,
    pub commits_this_week: nat,
    pub commits_today: nat,
    pub last_commit_time: Timestamp,
}

impl View for CommitStats {
    type V = CommitStatsView;

    open spec fn view(&self) -> CommitStatsView {
        CommitStatsView {
            repo_name: self.repo_name@,
            total_commits: self.total_commits as nat,
            commits_this_month: self.commits_this_month as nat,
            commits_this_week: self.commits_this_week as nat,
            commits_today: self.commits_today as nat,
            last_commit_time: self.last_commit_time,
        }
    }
}

/// Why the statistics could not be computed.
#[derive(Clone, Copy, Debug, PartialEq, Eq, Structural)]
pub enum StatsError {
    /// The clock reads less than four weeks after the earliest instant
    /// chrono can represent, so four weeks before it cannot be formed.
    ClockTooEarly,
    /// A commit time that the walk reaches lies outside chrono's range.
    InvalidCommitTime,
}

/// What a result of the statistics holds.
pub open spec fn outcome_view(r: Result<CommitStats, StatsError>) -> Result<
    CommitStatsView,
    StatsError,
> {
    match r {
        Ok(s) => Ok(s@),
        Err(e) => Err(e),
    }
}

/// Every commit time that the walk converts lies in chrono's range: that of
/// each commit in the run before the first one earlier than `bound`, and
/// that of the first such commit.
pub open spec fn scanned_in_range(secs: Seq<i64>, bound: Timestamp) -> bool {
    forall|i: int|
        0 <= i < secs.len() && i <= leading_run(commit_instants(secs), bound) ==> MIN_TIMESTAMP
            <= #[trigger] secs[i] <= MAX_TIMESTAMP
}

/// The outcome of the statistics as of `now`: an error where four weeks
/// before `now` lies out of range or a commit the walk reaches has an
/// out-of-range time, else the statistics.
pub open spec fn stats_outcome(repo_name: Seq<char>, now: Timestamp, secs: Seq<i64>) -> Result<
    CommitStatsView,
    StatsError,
> {
    if now.secs - 4 * 604_800 < MIN_TIMESTAMP {
        Err(StatsError::ClockTooEarly)
    } else if !scanned_in_range(secs, weeks_before(now, 4)) {
        Err(StatsError::InvalidCommitTime)
    } else {
        Ok(stats_at(repo_name, now, secs))
    }
}

/// The Unix epoch, 1970-01-01T00:00:00Z.
pub open spec fn epoch() -> Timestamp {
    Timestamp { secs: 0, nanos: 0 }
}

/// Commit times, given in whole seconds, as instants.
pub open spec fn commit_instants(secs: Seq<i64>) -> Seq<Timestamp> {
    secs.map_values(|s: i64| Timestamp { secs: s, nanos: 0 })
}

/// Every commit time lies in chrono's range.
pub open spec fn all_in_range(secs: Seq<i64>) -> bool {
    forall|i: int| 0 <= i < secs.len() ==> MIN_TIMESTAMP <= #[trigger] secs[i] <= MAX_TIMESTAMP
}

/// How many of `times` are at or after `bound`.
pub open spec fn count_at_or_after(times: Seq<Timestamp>, bound: Timestamp) -> nat
    decreases times.len(),
{
    if times.len() == 0 {
        0
    } else {
        count_at_or_after(times.drop_last(), bound) + if times.last().is_at_or_after(bound) {
            1nat
        } else {
            0nat
        }
    }
}

/// How many of `times` are strictly after `bound`.
pub open spec fn count_after(times: Seq<Timestamp>, bound: Timestamp) -> nat
    decreases times.len(),
{
    if times.len() == 0 {
        0
    } else {
        count_after(times.drop_last(), bound) + if times.last().is_after(bound) {
            1nat
        } else {
            0nat
        }
    }
}

/// How many of `times`, from the first on, come before the first one that
/// is earlier than `bound`.
pub open spec fn leading_run(times: Seq<Timestamp>, bound: Timestamp) -> nat
    decreases times.len(),
{
    if times.len() == 0 {
        0
    } else if !times[0].is_at_or_after(bound) {
        0
    } else {
        1 + leading_run(times.drop_first(), bound)
    }
}

/// The statistics of the commits whose times are `secs`, in the order the
/// walk gives them (newest first), as of `now`. The walk stops at the first
/// commit older than four weeks: the month count is the length of the run
/// before it, and the week and today counts are taken over that run.
pub open spec fn stats_at(repo_name: Seq<char>, now: Timestamp, secs: Seq<i64>) -> CommitStatsView {
    let times = commit_instants(secs);
    let scanned = times.take(leading_run(times, weeks_before(now, 4)) as int);
    CommitStatsView {
        repo_name,
        total_commits: secs.len(),
        commits_this_month: scanned.len(),
        commits_this_week: count_at_or_after(scanned, weeks_before(now, 1)),
        commits_today: count_after(scanned, start_of_day(now)),
        last_commit_time: if secs.len() > 0 {
            times[0]
        } else {
            epoch()
        },
    }
}

/// The number of commits whose time is at or after `since`.
pub open spec fn commits_since(secs: Seq<i64>, since: Timestamp) -> nat {
    count_at_or_after(commit_instants(secs), since)
}

proof fn lemma_count_at_or_after_le_len(times: Seq<Timestamp>, bound: Timestamp)
    ensures
        count_at_or_after(times, bound) <= times.len(),
    decreases times.len(),
{
    if times.len() > 0 {
        lemma_count_at_or_after_le_len(times.drop_last(), bound);
    }
}

proof fn lemma_count_after_le_len(times: Seq<Timestamp>, bound: Timestamp)
    ensures
        count_after(times, bound) <= times.len(),
    decreases times.len(),
{
    if times.len() > 0 {
        lemma_count_after_le_len(times.drop_last(), bound);
    }
}

/// Counting the instants strictly after `later` gives no more than counting
/// those at or after `earlier`, when `later` is at or after `earlier`.
proof fn lemma_count_after_le_count_at_or_after(
    times: Seq<Timestamp>,
    later: Timestamp,
    earlier: Timestamp,
)
    requires
        later.is_at_or_after(earlier),
    ensures
        count_after(times, later) <= count_at_or_after(times, earlier),
    decreases times.len(),
{
    if times.len() > 0 {
        lemma_count_after_le_count_at_or_after(times.drop_last(), later, earlier);
    }
}

/// A later bound never counts more instants at or after it.
pub proof fn lemma_count_at_or_after_antitone(
    times: Seq<Timestamp>,
    earlier: Timestamp,
    later: Timestamp,
)
    requires
        later.is_at_or_after(earlier),
    ensures
        count_at_or_after(times, later) <= count_at_or_after(times, earlier),
    decreases times.len(),
{
    if times.len() > 0 {
        lemma_count_at_or_after_antitone(times.drop_last(), earlier, later);
    }
}

proof fn lemma_leading_run_is(times: Seq<Timestamp>, bound: Timestamp, i: int)
    requires
        0 <= i <= times.len(),
        forall|j: int| 0 <= j < i ==> (#[trigger] times[j]).is_at_or_after(bound),
        i < times.len() ==> !times[i].is_at_or_after(bound),
    ensures
        leading_run(times, bound) == i,
    decreases i,
{
    if i > 0 {
        let rest = times.drop_first();
        assert forall|j: int| 0 <= j < i - 1 implies (#[trigger] rest[j]).is_at_or_after(bound) by {
            assert(rest[j] == times[j + 1]);
        }
        if i - 1 < rest.len() {
            assert(rest[i - 1] == times[i]);
        }
        lemma_leading_run_is(rest, bound, i - 1);
    }
}

impl CommitStats {
    /// Statistics with no commits counted yet; the last commit time starts
    /// at the Unix epoch.
    pub fn new(repo_name: String) -> (r: CommitStats)
        ensures
            r.repo_name@ == repo_name@,
            r.total_commits == 0,
            r.commits_this_month == 0,
            r.commits_this_week == 0,
            r.commits_today == 0,
            r.last_commit_time == epoch(),
    {
        CommitStats {
            repo_name,
            total_commits: 0,
            commits_this_month: 0,
            commits_this_week: 0,
            commits_today: 0,
            last_commit_time: timestamp_from_secs(0).unwrap(),
        }
    }
}

impl SinceCommitStat {
    /// A count of commits since `since_time` that starts at zero.
    pub fn new(repo_name: String, since_time: CalendarDate) -> (r: SinceCommitStat)
        ensures
            r.repo_name@ == repo_name@,
            r.since_time == since_time,
            r.total_commits_since == 0,
    {
        SinceCommitStat { repo_name, since_time, total_commits_since: 0 }
    }
}

/// The statistics of the commits whose times are `commit_secs` (in the
/// order of the walk, newest first) as of `now`.
pub fn commit_stats_at(repo_name: String, now: &Timestamp, commit_secs: &Vec<i64>) -> (r:
    CommitStats)
    requires
        now.in_range(),
        now.secs - 4 * 604_800 >= MIN_TIMESTAMP,
        commit_secs.len() <= u32::MAX,
        scanned_in_range(commit_secs@, weeks_before(*now, 4)),
    ensures
        r@ == stats_at(repo_name@, *now, commit_secs@),
        r.repo_name@ == repo_name@,
        r.total_commits == commit_secs.len(),
        commit_secs.len() > 0 ==> r.last_commit_time == (Timestamp {
            secs: commit_secs@[0],
            nanos: 0,
        }),
        commit_secs.len() == 0 ==> r.last_commit_time == (Timestamp { secs: 0, nanos: 0 }),
        r.commits_today <= r.commits_this_week,
        r.commits_this_week <= r.commits_this_month,
        r.commits_this_month <= r.total_commits,
{
    let month_ago = weeks_earlier(now, 4);
    let week_ago = weeks_earlier(now, 1);
    let today_start = day_start(now);
    let ghost times = commit_instants(commit_secs@);
    let n = commit_secs.len();

    let mut stats = CommitStats::new(repo_name);
    stats.total_commits = n as u32;
    if n > 0 {
        stats.last_commit_time = timestamp_from_secs(commit_secs[0]).unwrap();
    }
    proof {
        assert(week_ago.secs == month_ago.secs + 3 * 604_800);
        assert(week_ago.nanos == month_ago.nanos);
        assert(today_start.secs > week_ago.secs) by {
            vstd::arithmetic::div_mod::lemma_mod_bound(now.secs as int, 86_400);
        }
    }

    let mut i: usize = 0;
    while i < n
        invariant_except_break
            i <= n,
            n == commit_secs.len(),
            n <= u32::MAX,
            scanned_in_range(commit_secs@, month_ago),
            times == commit_instants(commit_secs@),
            month_ago == weeks_before(*now, 4),
            week_ago == weeks_before(*now, 1),
            today_start == start_of_day(*now),
            today_start.secs > week_ago.secs,
            week_ago.secs == month_ago.secs + 3 * 604_800,
            week_ago.nanos == month_ago.nanos,
            forall|j: int| 0 <= j < i ==> (#[trigger] times[j]).is_at_or_after(month_ago),
            stats.commits_this_month == i,
            stats.commits_this_week == count_at_or_after(times.take(i as int), week_ago),
            stats.commits_today == count_after(times.take(i as int), today_start),
            stats.repo_name@ == repo_name@,
            stats.total_commits == n,
            stats.last_commit_time == (if n > 0 { times[0] } else { epoch() }),
        ensures
            i <= n,
            forall|j: int| 0 <= j < i ==> (#[trigger] times[j]).is_at_or_after(month_ago),
            i < n ==> !times[i as int].is_at_or_after(month_ago),
            stats.commits_this_month == i,
            stats.commits_this_week == count_at_or_after(times.take(i as int), week_ago),
            stats.commits_today == count_after(times.take(i as int), today_start),
            stats.repo_name@ == repo_name@,
            stats.total_commits == n,
            stats.last_commit_time == (if n > 0 { times[0] } else { epoch() }),
        decreases n - i,
    {
        proof {
            lemma_run_reaches(times, month_ago, i as int);
        }
        let t = timestamp_from_secs(commit_secs[i]).unwrap();
        proof {
            assert(t == times[i as int]);
            assert(times.take(i + 1).drop_last() == times.take(i as int));
            lemma_count_at_or_after_le_len(times.take(i as int), week_ago);
            lemma_count_after_le_len(times.take(i as int), today_start);
        }
        if t.at_or_after(&month_ago) {
            stats.commits_this_month = stats.commits_this_month + 1;
        }
        if t.at_or_after(&week_ago) {
            stats.commits_this_week = stats.commits_this_week + 1;
        }
        if t.after(&today_start) {
            stats.commits_today = stats.commits_today + 1;
        }
        if !t.at_or_after(&month_ago) {
            break;
        }
        i = i + 1;
    }
    proof {
        lemma_leading_run_is(times, month_ago, i as int);
        let scanned = times.take(stats.commits_this_month as int);
        lemma_count_after_le_count_at_or_after(scanned, today_start, week_ago);
        lemma_count_at_or_after_le_len(scanned, week_ago);
        assert(stats@ == stats_at(repo_name@, *now, commit_secs@));
        lemma_stats_report_name_total_and_newest(repo_name@, *now, commit_secs@);
    }
    stats
}

/// Times that the walk gives newest first: no instant is earlier than one
/// that comes after it.
pub open spec fn newest_first(times: Seq<Timestamp>) -> bool {
    forall|i: int, j: int|
        0 <= i < j < times.len() ==> (#[trigger] times[i]).is_at_or_after(#[trigger] times[j])
}

proof fn lemma_count_at_or_after_ignores_tail(times: Seq<Timestamp>, bound: Timestamp, k: int)
    requires
        0 <= k <= times.len(),
        forall|j: int| k <= j < times.len() ==> !(#[trigger] times[j]).is_at_or_after(bound),
    ensures
        count_at_or_after(times, bound) == count_at_or_after(times.take(k), bound),
    decreases times.len(),
{
    if times.len() == k {
        assert(times.take(k) == times);
    } else {
        let front = times.drop_last();
        assert forall|j: int| k <= j < front.len() implies !(#[trigger] front[j]).is_at_or_after(
            bound,
        ) by {
            assert(front[j] == times[j]);
        }
        lemma_count_at_or_after_ignores_tail(front, bound, k);
        assert(front.take(k) == times.take(k));
    }
}

proof fn lemma_count_after_ignores_tail(times: Seq<Timestamp>, bound: Timestamp, k: int)
    requires
        0 <= k <= times.len(),
        forall|j: int| k <= j < times.len() ==> !(#[trigger] times[j]).is_after(bound),
    ensures
        count_after(times, bound) == count_after(times.take(k), bound),
    decreases times.len(),
{
    if times.len() == k {
        assert(times.take(k) == times);
    } else {
        let front = times.drop_last();
        assert forall|j: int| k <= j < front.len() implies !(#[trigger] front[j]).is_after(bound) by {
            assert(front[j] == times[j]);
        }
        lemma_count_after_ignores_tail(front, bound, k);
        assert(front.take(k) == times.take(k));
    }
}

proof fn lemma_count_at_or_after_all(times: Seq<Timestamp>, bound: Timestamp)
    requires
        forall|j: int| 0 <= j < times.len() ==> (#[trigger] times[j]).is_at_or_after(bound),
    ensures
        count_at_or_after(times, bound) == times.len(),
    decreases times.len(),
{
    if times.len() > 0 {
        let front = times.drop_last();
        assert forall|j: int| 0 <= j < front.len() implies (#[trigger] front[j]).is_at_or_after(
            bound,
        ) by {
            assert(front[j] == times[j]);
        }
        lemma_count_at_or_after_all(front, bound);
    }
}

proof fn lemma_leading_run_bounds(times: Seq<Timestamp>, bound: Timestamp)
    ensures
        leading_run(times, bound) <= times.len(),
        forall|j: int|
            0 <= j < leading_run(times, bound) ==> (#[trigger] times[j]).is_at_or_after(bound),
        leading_run(times, bound) < times.len() ==> !times[leading_run(
            times,
            bound,
        ) as int].is_at_or_after(bound),
    decreases times.len(),
{
    if times.len() > 0 && times[0].is_at_or_after(bound) {
        let rest = times.drop_first();
        lemma_leading_run_bounds(rest, bound);
        assert forall|j: int| 0 <= j < leading_run(times, bound) implies (
        #[trigger] times[j]).is_at_or_after(bound) by {
            if j > 0 {
                assert(times[j] == rest[j - 1]);
            }
        }
        if leading_run(times, bound) < times.len() {
            assert(times[leading_run(times, bound) as int] == rest[leading_run(rest, bound) as int]);
        }
    }
}

/// When the walk gives the commits newest first, stopping at the first
/// commit older than four weeks loses none: the month, week and today counts
/// are those of all the commits.
pub proof fn lemma_newest_first_walk_misses_no_recent_commit(
    repo_name: Seq<char>,
    now: Timestamp,
    secs: Seq<i64>,
)
    requires
        now.in_range(),
        now.secs - 4 * 604_800 >= MIN_TIMESTAMP,
        newest_first(commit_instants(secs)),
    ensures
        stats_at(repo_name, now, secs).commits_this_month == commits_since(
            secs,
            weeks_before(now, 4),
        ),
        stats_at(repo_name, now, secs).commits_this_week == commits_since(
            secs,
            weeks_before(now, 1),
        ),
        stats_at(repo_name, now, secs).commits_today == count_after(
            commit_instants(secs),
            start_of_day(now),
        ),
{
    let times = commit_instants(secs);
    let month_ago = weeks_before(now, 4);
    let week_ago = weeks_before(now, 1);
    let today_start = start_of_day(now);
    let k = leading_run(times, month_ago) as int;
    lemma_leading_run_bounds(times, month_ago);
    assert(today_start.secs > week_ago.secs) by {
        vstd::arithmetic::div_mod::lemma_mod_bound(now.secs as int, 86_400);
    }
    assert forall|j: int| k <= j < times.len() implies !(#[trigger] times[j]).is_at_or_after(
        month_ago,
    ) by {
        if j > k {
            assert(times[k].is_at_or_after(times[j]));
        }
    }
    lemma_count_at_or_after_ignores_tail(times, month_ago, k);
    lemma_count_at_or_after_all(times.take(k), month_ago);
    lemma_count_at_or_after_ignores_tail(times, week_ago, k);
    lemma_count_after_ignores_tail(times, today_start, k);
}

/// The number of commits whose time is at or after `since`, recorded with
/// the date it was asked for.
pub fn since_commit_stat_at(
    repo_name: String,
    since_time: CalendarDate,
    since: &Timestamp,
    commit_secs: &Vec<i64>,
) -> (r: SinceCommitStat)
    requires
        commit_secs.len() <= u32::MAX,
        all_in_range(commit_secs@),
    ensures
        r.repo_name@ == repo_name@,
        r.since_time == since_time,
        r.total_commits_since == commits_since(commit_secs@, *since),
        r.total_commits_since <= commit_secs.len(),
{
    let ghost times = commit_instants(commit_secs@);
    let mut stat = SinceCommitStat::new(repo_name, since_time);
    let n = commit_secs.len();
    let mut i: usize = 0;
    while i < n
        invariant
            i <= n,
            n == commit_secs.len(),
            n <= u32::MAX,
            all_in_range(commit_secs@),
            times == commit_instants(commit_secs@),
            stat.total_commits_since == count_at_or_after(times.take(i as int), *since),
            stat.repo_name@ == repo_name@,
            stat.since_time == since_time,
        decreases n - i,
    {
        let t = timestamp_from_secs(commit_secs[i]).unwrap();
        proof {
            assert(t == times[i as int]);
            assert(times.take(i + 1).drop_last() == times.take(i as int));
            lemma_count_at_or_after_le_len(times.take(i as int), *since);
        }
        if t.at_or_after(since) {
            stat.total_commits_since = stat.total_commits_since + 1;
        }
        i = i + 1;
    }
    proof {
        assert(times.take(n as int) == times);
        lemma_count_at_or_after_le_len(times, *since);
    }
    stat
}

/// The number of commits made since local midnight starting `since_time`.
/// With no commits nothing is converted and the count is zero; otherwise
/// the date is converted once through the machine's time zone, and `None`
/// comes back where that midnight does not exist there.
pub fn since_commit_stats(repo_name: String, since_time: CalendarDate, commit_secs: &Vec<i64>) -> (r:
    Option<SinceCommitStat>)
    requires
        since_time.in_range(),
        commit_secs.len() <= u32::MAX,
        all_in_range(commit_secs@),
    ensures
        commit_secs.len() == 0 ==> r is Some,
        r is None ==> commit_secs.len() > 0,
        r matches Some(s) ==> {
            &&& s.repo_name@ == repo_name@
            &&& s.since_time == since_time
            &&& exists|since: Timestamp|
                since.in_range() && is_possible_local_midnight(since_time, since)
                    && s.total_commits_since == #[trigger] commits_since(commit_secs@, since)
        },
{
    if commit_secs.len() == 0 {
        let stat = SinceCommitStat::new(repo_name, since_time);
        proof {
            let midnight = Timestamp { secs: (since_time.epoch_day * 86_400) as i64, nanos: 0 };
            assert(commits_since(commit_secs@, midnight) == 0);
            assert(is_possible_local_midnight(since_time, midnight));
        }
        return Some(stat);
    }
    match to_datetime(since_time) {
        Some(since) => Some(since_commit_stat_at(repo_name, since_time, &since, commit_secs)),
        None => None,
    }
}

/// For dates at least two days apart, the later date counts no more commits
/// since its local midnight than the earlier one, whatever the time zone
/// made of the two midnights; and neither counts more than there are
/// commits.
pub proof fn lemma_later_date_counts_no_more(
    secs: Seq<i64>,
    earlier: CalendarDate,
    later: CalendarDate,
    earlier_midnight: Timestamp,
    later_midnight: Timestamp,
)
    requires
        is_possible_local_midnight(earlier, earlier_midnight),
        is_possible_local_midnight(later, later_midnight),
        earlier.epoch_day + 2 <= later.epoch_day,
    ensures
        commits_since(secs, later_midnight) <= commits_since(secs, earlier_midnight),
        commits_since(secs, earlier_midnight) <= secs.len(),
{
    assert(later_midnight.secs > earlier_midnight.secs) by (nonlinear_arith)
        requires
            later_midnight.secs > later.epoch_day * 86_400 - 86_400,
            earlier_midnight.secs < earlier.epoch_day * 86_400 + 86_400,
            earlier.epoch_day + 2 <= later.epoch_day,
    ;
    lemma_count_at_or_after_antitone(commit_instants(secs), earlier_midnight, later_midnight);
    lemma_count_at_or_after_le_len(commit_instants(secs), earlier_midnight);
}

/// The statistics of the commits whose times are `commit_secs`, as of the
/// clock reading `now`: an error where four weeks before `now` cannot be
/// formed or where a commit that the walk reaches has an out-of-range time.
pub fn commit_stats_as_of(repo_name: String, now: &Timestamp, commit_secs: &Vec<i64>) -> (r: Result<
    CommitStats,
    StatsError,
>)
    requires
        now.in_range(),
        commit_secs.len() <= u32::MAX,
    ensures
        outcome_view(r) == stats_outcome(repo_name@, *now, commit_secs@),
        r matches Ok(s) ==> {
            &&& s.repo_name@ == repo_name@
            &&& s.total_commits == commit_secs.len()
            &&& commit_secs.len() > 0 ==> s.last_commit_time == (Timestamp {
                secs: commit_secs@[0],
                nanos: 0,
            })
            &&& commit_secs.len() == 0 ==> s.last_commit_time == (Timestamp { secs: 0, nanos: 0 })
        },
        r matches Ok(s) ==> {
            &&& s.commits_today <= s.commits_this_week
            &&& s.commits_this_week <= s.commits_this_month
            &&& s.commits_this_month <= s.total_commits
        },
{
    if now.secs - 4 * 604_800 < MIN_TIMESTAMP {
        return Err(StatsError::ClockTooEarly);
    }
    let month_ago = weeks_earlier(now, 4);
    let ghost times = commit_instants(commit_secs@);
    let n = commit_secs.len();
    let mut i: usize = 0;
    while i < n
        invariant_except_break
            i <= n,
            n == commit_secs.len(),
            times == commit_instants(commit_secs@),
            month_ago == weeks_before(*now, 4),
            now.secs - 4 * 604_800 >= MIN_TIMESTAMP,
            forall|j: int|
                0 <= j < i ==> MIN_TIMESTAMP <= #[trigger] commit_secs@[j] <= MAX_TIMESTAMP
                    && times[j].is_at_or_after(month_ago),
        ensures
            i <= n,
            forall|j: int|
                0 <= j < i ==> MIN_TIMESTAMP <= #[trigger] commit_secs@[j] <= MAX_TIMESTAMP
                    && times[j].is_at_or_after(month_ago),
            i < n ==> MIN_TIMESTAMP <= commit_secs@[i as int] <= MAX_TIMESTAMP
                && !times[i as int].is_at_or_after(month_ago),
        decreases n - i,
    {
        match timestamp_from_secs(commit_secs[i]) {
            None => {
                proof {
                    lemma_run_reaches(times, month_ago, i as int);
                    assert(!(MIN_TIMESTAMP <= commit_secs@[i as int] <= MAX_TIMESTAMP));
                    assert(!scanned_in_range(commit_secs@, weeks_before(*now, 4)));
                }
                return Err(StatsError::InvalidCommitTime);
            },
            Some(t) => {
                assert(t == times[i as int]);
                if !t.at_or_after(&month_ago) {
                    break;
                }
            },
        }
        i = i + 1;
    }
    proof {
        lemma_leading_run_is(times, month_ago, i as int);
        assert forall|j: int|
            0 <= j < commit_secs@.len() && j <= leading_run(
                commit_instants(commit_secs@),
                month_ago,
            ) implies MIN_TIMESTAMP <= #[trigger] commit_secs@[j] <= MAX_TIMESTAMP by {
            if j < i {
                assert(MIN_TIMESTAMP <= commit_secs@[j] <= MAX_TIMESTAMP);
            }
        }
    }
    let stats = commit_stats_at(repo_name, now, commit_secs);
    Ok(stats)
}

/// The statistics of the commits whose times are `commit_secs`, as of the
/// current time: `commit_stats_as_of` for one reading of the clock. The
/// clock never reads before 1970, so the only error is a commit time out of
/// range that the walk reaches.
pub fn commit_stats(repo_name: String, commit_secs: &Vec<i64>) -> (r: Result<
    CommitStats,
    StatsError,
>)
    requires
        commit_secs.len() <= u32::MAX,
    ensures
        exists|now: Timestamp|
            now.in_range() && now.secs >= 0 && outcome_view(r) == #[trigger] stats_outcome(
                repo_name@,
                now,
                commit_secs@,
            ),
        all_in_range(commit_secs@) ==> r is Ok,
        r matches Err(e) ==> e == StatsError::InvalidCommitTime,
        r matches Ok(s) ==> {
            &&& s.repo_name@ == repo_name@
            &&& s.total_commits == commit_secs.len()
            &&& commit_secs.len() > 0 ==> s.last_commit_time == (Timestamp {
                secs: commit_secs@[0],
                nanos: 0,
            })
            &&& commit_secs.len() == 0 ==> s.last_commit_time == (Timestamp { secs: 0, nanos: 0 })
        },
        r matches Ok(s) ==> {
            &&& s.commits_today <= s.commits_this_week
            &&& s.commits_this_week <= s.commits_this_month
            &&& s.commits_this_month <= s.total_commits
        },
{
    let now = utc_now();
    commit_stats_as_of(repo_name, &now, commit_secs)
}

/// The statistics keep the repository's name, count every commit of the
/// walk, and report as the last commit time that of the first commit the
/// walk gives (the newest), whatever its age; with no commits the last
/// commit time stays at the Unix epoch.
pub proof fn lemma_stats_report_name_total_and_newest(
    repo_name: Seq<char>,
    now: Timestamp,
    secs: Seq<i64>,
)
    ensures
        stats_at(repo_name, now, secs).repo_name == repo_name,
        stats_at(repo_name, now, secs).total_commits == secs.len(),
        secs.len() > 0 ==> stats_at(repo_name, now, secs).last_commit_time == (Timestamp {
            secs: secs[0],
            nanos: 0,
        }),
        secs.len() == 0 ==> stats_at(repo_name, now, secs).last_commit_time == (Timestamp {
            secs: 0,
            nanos: 0,
        }),
{
}

/// The windows of the statistics: four weeks and one week before the
/// reading, on the same nanosecond, and the UTC midnight starting the
/// reading's day, a whole number of days since the epoch and less than a
/// day before the reading.
pub proof fn lemma_stats_windows(now: Timestamp)
    requires
        now.in_range(),
        now.secs - 4 * 604_800 >= MIN_TIMESTAMP,
    ensures
        weeks_before(now, 4).secs == now.secs - 2_419_200,
        weeks_before(now, 4).nanos == now.nanos,
        weeks_before(now, 1).secs == now.secs - 604_800,
        weeks_before(now, 1).nanos == now.nanos,
        start_of_day(now).nanos == 0,
        start_of_day(now).secs % 86_400 == 0,
        start_of_day(now).secs <= now.secs < start_of_day(now).secs + 86_400,
{
    vstd::arithmetic::div_mod::lemma_fundamental_div_mod(now.secs as int, 86_400);
    vstd::arithmetic::div_mod::lemma_mod_bound(now.secs as int, 86_400);
    let q = now.secs as int / 86_400;
    let d = now.secs as int - now.secs as int % 86_400;
    assert(d == 86_400 * q);
    assert((86_400 * q) % 86_400 == 0) by {
        vstd::arithmetic::div_mod::lemma_mod_multiples_basic(q, 86_400);
    }
}

/// Every commit before index `i` being at or after `bound` means the run
/// reaches index `i`.
proof fn lemma_run_reaches(times: Seq<Timestamp>, bound: Timestamp, i: int)
    requires
        0 <= i <= times.len(),
        forall|j: int| 0 <= j < i ==> (#[trigger] times[j]).is_at_or_after(bound),
    ensures
        i <= leading_run(times, bound),
{
    lemma_leading_run_bounds(times, bound);
    if leading_run(times, bound) < i {
        assert(times[leading_run(times, bound) as int].is_at_or_after(bound));
    }
}

} // verus!
