use chrono::{Local, NaiveDate, TimeZone, Utc};
use gitchecker::stats::{
    commit_stats, commit_stats_as_of, commit_stats_at, since_commit_stat_at, since_commit_stats,
    CommitStats, SinceCommitStat, StatsError,
};
use gitchecker::time::{CalendarDate, Timestamp, MAX_TIMESTAMP, MIN_TIMESTAMP};

fn calendar(date: NaiveDate) -> CalendarDate {
    CalendarDate { epoch_day: date.to_epoch_days() }
}

const DAY: i64 = 86_400;
const WEEK: i64 = 604_800;
const TODAY: i64 = 19_965 * DAY;
const NOW_SECS: i64 = TODAY + 43_200;

fn now() -> Timestamp {
    Timestamp { secs: NOW_SECS, nanos: 500_000_000 }
}

#[test]
fn commit_stats_new_starts_at_epoch() {
    let s = CommitStats::new("repo".to_string());
    assert_eq!(s.repo_name, "repo");
    assert_eq!(s.total_commits, 0);
    assert_eq!(s.commits_this_month, 0);
    assert_eq!(s.commits_this_week, 0);
    assert_eq!(s.commits_today, 0);
    assert_eq!(s.last_commit_time, Timestamp { secs: 0, nanos: 0 });
}

#[test]
fn since_commit_stat_new_starts_at_zero() {
    let date = calendar(NaiveDate::from_ymd_opt(2025, 9, 16).unwrap());
    let s = SinceCommitStat::new("repo".to_string(), date);
    assert_eq!(s.repo_name, "repo");
    assert_eq!(s.since_time, date);
    assert_eq!(s.total_commits_since, 0);
}

#[test]
fn counts_by_window() {
    let commits = vec![
        NOW_SECS - 100,
        TODAY + 10,
        TODAY,
        NOW_SECS - 3 * DAY,
        NOW_SECS - 10 * DAY,
        NOW_SECS - 4 * WEEK + 1,
    ];
    let s = commit_stats_at("repo".to_string(), &now(), &commits);
    assert_eq!(s.total_commits, 6);
    assert_eq!(s.commits_this_month, 6);
    assert_eq!(s.commits_this_week, 4);
    assert_eq!(s.commits_today, 2);
    assert_eq!(s.last_commit_time, Timestamp { secs: NOW_SECS - 100, nanos: 0 });
    assert_eq!(s.repo_name, "repo");
}

#[test]
fn walk_stops_at_first_commit_older_than_four_weeks() {
    // The commit at exactly four weeks earlier in whole seconds lies before
    // `now - 4 weeks`, which keeps the half second of `now`.
    let commits = vec![
        NOW_SECS - 100,
        NOW_SECS - 4 * WEEK,
        NOW_SECS - DAY,
        NOW_SECS - 200,
    ];
    let s = commit_stats_at("r".to_string(), &now(), &commits);
    assert_eq!(s.total_commits, 4);
    assert_eq!(s.commits_this_month, 1);
    assert_eq!(s.commits_this_week, 1);
    assert_eq!(s.commits_today, 1);
}

#[test]
fn no_commits_keeps_epoch() {
    let s = commit_stats_at("empty".to_string(), &now(), &vec![]);
    assert_eq!(s.total_commits, 0);
    assert_eq!(s.commits_this_month, 0);
    assert_eq!(s.last_commit_time, Timestamp { secs: 0, nanos: 0 });
}

#[test]
fn counts_never_exceed_each_other() {
    let commits = vec![NOW_SECS, NOW_SECS - 1, TODAY - 1, NOW_SECS - 6 * DAY, NOW_SECS - 20 * DAY];
    let s = commit_stats_at("r".to_string(), &now(), &commits);
    assert!(s.commits_today <= s.commits_this_week);
    assert!(s.commits_this_week <= s.commits_this_month);
    assert!(s.commits_this_month <= s.total_commits);
    assert_eq!((s.commits_today, s.commits_this_week, s.commits_this_month), (2, 4, 5));
}

#[test]
fn newest_first_walk_counts_every_recent_commit() {
    let commits = vec![NOW_SECS - 5, NOW_SECS - 2 * DAY, NOW_SECS - 9 * DAY, NOW_SECS - 40 * DAY];
    let s = commit_stats_at("r".to_string(), &now(), &commits);
    let month_ago = NOW_SECS - 4 * WEEK;
    let recent = commits.iter().filter(|&&c| c > month_ago).count() as u32;
    assert_eq!(s.commits_this_month, recent);
    assert_eq!(s.commits_this_week, 2);
}

#[test]
fn extreme_commit_times_are_accepted() {
    let commits = vec![MAX_TIMESTAMP, MIN_TIMESTAMP];
    let s = commit_stats_at("r".to_string(), &now(), &commits);
    assert_eq!(s.total_commits, 2);
    assert_eq!(s.commits_this_month, 1);
    assert_eq!(s.commits_this_week, 1);
    assert_eq!(s.commits_today, 1);
    assert_eq!(s.last_commit_time, Timestamp { secs: MAX_TIMESTAMP, nanos: 0 });
}

#[test]
fn commit_stats_reads_the_clock() {
    let n = Utc::now().timestamp();
    let commits = vec![n - 2 * WEEK, n - 10 * WEEK];
    let s = commit_stats("live".to_string(), &commits).ok().unwrap();
    assert_eq!(s.total_commits, 2);
    assert_eq!(s.commits_this_month, 1);
    assert_eq!(s.commits_this_week, 0);
    assert_eq!(s.commits_today, 0);
    assert_eq!(s.last_commit_time, Timestamp { secs: n - 2 * WEEK, nanos: 0 });
}

#[test]
fn since_counts_commits_at_or_after() {
    let date = calendar(NaiveDate::from_ymd_opt(2024, 8, 1).unwrap());
    let since = Timestamp { secs: 1_000, nanos: 0 };
    let commits = vec![2_000, 999, 1_000, 5, 1_001];
    let s = since_commit_stat_at("repo".to_string(), date, &since, &commits);
    assert_eq!(s.total_commits_since, 3);
    assert_eq!(s.since_time, date);
    assert_eq!(s.repo_name, "repo");
    let later = Timestamp { secs: 1_001, nanos: 0 };
    let fewer = since_commit_stat_at("repo".to_string(), date, &later, &commits);
    assert_eq!(fewer.total_commits_since, 2);
    assert!(fewer.total_commits_since <= s.total_commits_since);
}

#[test]
fn since_with_no_commits_is_zero() {
    let date = calendar(NaiveDate::from_ymd_opt(2025, 9, 16).unwrap());
    let s = since_commit_stats("repo".to_string(), date, &vec![]).unwrap();
    assert_eq!(s.total_commits_since, 0);
    assert_eq!(s.since_time, date);
}

#[test]
fn since_uses_local_midnight() {
    let date = NaiveDate::from_ymd_opt(2024, 3, 5).unwrap();
    let midnight = Local
        .from_local_datetime(&date.and_hms_opt(0, 0, 0).unwrap())
        .earliest()
        .unwrap()
        .timestamp();
    let commits = vec![midnight + 10, midnight, midnight - 1, midnight - 100_000];
    let s = since_commit_stats("repo".to_string(), calendar(date), &commits).unwrap();
    assert_eq!(s.total_commits_since, 2);
    assert_eq!(s.repo_name, "repo");
    let day_start = date.to_epoch_days() as i64 * DAY;
    assert!(day_start - DAY < midnight && midnight < day_start + DAY);
}

#[test]
fn later_dates_count_no_more() {
    let commits = vec![1_725_000_000, 1_720_000_000, 1_700_000_000];
    let early = NaiveDate::from_ymd_opt(2024, 1, 1).unwrap();
    let late = NaiveDate::from_ymd_opt(2024, 7, 1).unwrap();
    let a = since_commit_stats("r".to_string(), calendar(early), &commits).unwrap();
    let b = since_commit_stats("r".to_string(), calendar(late), &commits).unwrap();
    assert!(b.total_commits_since <= a.total_commits_since);
    assert_eq!((a.total_commits_since, b.total_commits_since), (2, 2));
    assert!(a.total_commits_since as usize <= commits.len());
}

#[test]
fn clock_too_early_is_an_error() {
    let early = Timestamp { secs: MIN_TIMESTAMP + 10, nanos: 0 };
    let r = commit_stats_as_of("r".to_string(), &early, &vec![MIN_TIMESTAMP + 5]);
    assert_eq!(r.err(), Some(StatsError::ClockTooEarly));
}

#[test]
fn out_of_range_time_reached_by_the_walk_is_an_error() {
    let commits = vec![NOW_SECS - 10, MAX_TIMESTAMP + 1, NOW_SECS - 40 * DAY];
    let r = commit_stats_as_of("r".to_string(), &now(), &commits);
    assert_eq!(r.err(), Some(StatsError::InvalidCommitTime));
    let first_is_bad = vec![MIN_TIMESTAMP - 1];
    let r = commit_stats_as_of("r".to_string(), &now(), &first_is_bad);
    assert_eq!(r.err(), Some(StatsError::InvalidCommitTime));
}

#[test]
fn out_of_range_time_past_the_walk_is_accepted() {
    let commits = vec![NOW_SECS - 10, NOW_SECS - 40 * DAY, MAX_TIMESTAMP + 1];
    let s = commit_stats_as_of("r".to_string(), &now(), &commits).ok().unwrap();
    assert_eq!(s.total_commits, 3);
    assert_eq!(s.commits_this_month, 1);
    let direct = commit_stats_at("r".to_string(), &now(), &commits);
    assert_eq!(direct.commits_this_month, 1);
    assert_eq!(direct.commits_today, 1);
}

#[test]
fn commit_stats_succeeds_on_in_range_times() {
    let n = Utc::now().timestamp();
    let r = commit_stats("live".to_string(), &vec![n, MIN_TIMESTAMP, MAX_TIMESTAMP]);
    assert!(r.is_ok());
    let bad = commit_stats("live".to_string(), &vec![MAX_TIMESTAMP + 1]);
    assert_eq!(bad.err(), Some(StatsError::InvalidCommitTime));
}
