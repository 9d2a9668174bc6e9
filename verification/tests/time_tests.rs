use chrono::{DateTime, NaiveDate, TimeDelta, Utc};
use gitchecker::time::{
    convert_time_to_days_ago, day_start, days_ago_to_show, days_between, weeks_earlier, Timestamp,
    MAX_EPOCH_DAY, MAX_TIMESTAMP, MIN_EPOCH_DAY, MIN_TIMESTAMP,
};

fn ts(secs: i64, nanos: u32) -> Timestamp {
    Timestamp { secs, nanos }
}

fn chrono_of(t: Timestamp) -> DateTime<Utc> {
    DateTime::from_timestamp(t.secs, t.nanos).unwrap()
}

#[test]
fn range_bounds_match_chrono() {
    assert!(DateTime::<Utc>::from_timestamp(MIN_TIMESTAMP, 0).is_some());
    assert!(DateTime::<Utc>::from_timestamp(MIN_TIMESTAMP - 1, 0).is_none());
    assert!(DateTime::<Utc>::from_timestamp(MAX_TIMESTAMP, 0).is_some());
    assert!(DateTime::<Utc>::from_timestamp(MAX_TIMESTAMP + 1, 0).is_none());
}

#[test]
fn ordering_of_instants() {
    let a = ts(100, 5);
    let b = ts(100, 7);
    let c = ts(101, 0);
    assert!(b.at_or_after(&a));
    assert!(b.after(&a));
    assert!(a.at_or_after(&a));
    assert!(!a.after(&a));
    assert!(c.after(&b));
    assert!(!a.at_or_after(&b));
}

#[test]
fn days_between_counts_whole_days() {
    let now = ts(10 * 86_400 + 5, 0);
    assert_eq!(days_between(&now, &ts(5, 0)), 10);
    assert_eq!(days_between(&now, &ts(6, 0)), 9);
    assert_eq!(days_between(&now, &now), 0);
    // Less than a day in the future rounds toward zero.
    assert_eq!(days_between(&ts(0, 0), &ts(86_399, 999_999_999)), 0);
    assert_eq!(days_between(&ts(0, 0), &ts(86_400, 1)), -1);
    assert_eq!(days_between(&ts(0, 1), &ts(86_400, 0)), 0);
}

#[test]
fn days_between_matches_chrono() {
    let samples = [
        ts(0, 0),
        ts(1_725_029_869, 123_456_789),
        ts(-1, 999_999_999),
        ts(-86_400, 0),
        ts(-86_401, 500),
        ts(1_700_000_000, 0),
        ts(MIN_TIMESTAMP, 0),
        ts(MAX_TIMESTAMP, 999_999_999),
    ];
    for a in samples {
        for b in samples {
            let expected = (chrono_of(a) - chrono_of(b)).num_days();
            assert_eq!(days_between(&a, &b), expected, "{:?} {:?}", a, b);
        }
    }
}

#[test]
fn day_start_matches_chrono() {
    for t in [
        ts(0, 0),
        ts(86_399, 999),
        ts(86_400, 0),
        ts(1_725_029_869, 42),
        ts(-1, 0),
        ts(-86_400, 0),
        ts(-86_401, 7),
        ts(MIN_TIMESTAMP, 5),
        ts(MAX_TIMESTAMP, 0),
    ] {
        let expected = chrono_of(t).date_naive().and_hms_opt(0, 0, 0).unwrap().and_utc();
        let start = day_start(&t);
        assert_eq!(start.secs, expected.timestamp());
        assert_eq!(start.nanos, 0);
    }
    assert_eq!(day_start(&ts(-1, 0)), ts(-86_400, 0));
}

#[test]
fn weeks_earlier_matches_chrono() {
    let now = ts(1_725_029_869, 987_654_321);
    for w in 0..=4i64 {
        let expected = chrono_of(now) - TimeDelta::weeks(w);
        let r = weeks_earlier(&now, w);
        assert_eq!(r.secs, expected.timestamp());
        assert_eq!(r.nanos, expected.timestamp_subsec_nanos());
    }
    assert_eq!(weeks_earlier(&now, 4), ts(1_725_029_869 - 2_419_200, 987_654_321));
}

#[test]
fn days_ago_of_a_recent_time() {
    let now = Utc::now();
    let three_days_ago = now - TimeDelta::days(3) - TimeDelta::hours(1);
    let t = ts(three_days_ago.timestamp(), three_days_ago.timestamp_subsec_nanos());
    assert_eq!(convert_time_to_days_ago(&t), 3);
    let epoch_days = convert_time_to_days_ago(&ts(0, 0));
    assert!(epoch_days > 19_000);
}

#[test]
fn epoch_day_bounds_match_chrono() {
    assert_eq!(NaiveDate::MIN.to_epoch_days(), MIN_EPOCH_DAY);
    assert_eq!(NaiveDate::MAX.to_epoch_days(), MAX_EPOCH_DAY);
    assert!(NaiveDate::from_epoch_days(MIN_EPOCH_DAY - 1).is_none());
    assert!(NaiveDate::from_epoch_days(MAX_EPOCH_DAY + 1).is_none());
    assert_eq!(MIN_EPOCH_DAY as i64 * 86_400, MIN_TIMESTAMP);
    assert_eq!(MAX_EPOCH_DAY as i64 * 86_400 + 86_399, MAX_TIMESTAMP);
}

#[test]
fn only_positive_days_ago_are_shown() {
    assert_eq!(days_ago_to_show(3), Some(3));
    assert_eq!(days_ago_to_show(0), None);
    assert_eq!(days_ago_to_show(-2), None);
}
