//! Instants, held against the crate that they stand for.

use chrono::{DateTime, Duration, TimeZone, Utc};
use container_image_pruner::policy::Policy;
use container_image_pruner::time::{Timestamp, MAX_SECS, MAX_SPAN_DAYS, MIN_SECS};

fn utc(secs: i64, nanos: u32) -> DateTime<Utc> {
    DateTime::<Utc>::from_timestamp(secs, nanos).unwrap()
}

fn at(secs: i64, nanos: u32) -> Timestamp {
    Timestamp::new(secs, nanos).unwrap()
}

#[test]
fn bounds_of_instants() {
    assert_eq!(DateTime::<Utc>::MIN_UTC.timestamp(), MIN_SECS);
    assert_eq!(DateTime::<Utc>::MAX_UTC.timestamp(), MAX_SECS);
    for (secs, nanos) in [
        (MIN_SECS, 0),
        (MIN_SECS - 1, 999_999_999),
        (MAX_SECS, 999_999_999),
        (MAX_SECS + 1, 0),
        (0, 1_000_000_000),
        (59, 1_000_000_000),
        (59, 1_999_999_999),
        (59, 2_000_000_000),
        (-1, 1_500_000_000),
        (-2, 1_500_000_000),
        (i64::MIN, 0),
        (i64::MAX, 0),
        (0, u32::MAX),
    ] {
        let ours = Timestamp::new(secs, nanos).map(|t| (t.secs(), t.nanos()));
        let theirs = DateTime::<Utc>::from_timestamp(secs, nanos)
            .map(|t| (t.timestamp(), t.timestamp_subsec_nanos()));
        assert_eq!(ours, theirs, "{secs} {nanos}");
    }
    assert!(Timestamp::new(59, 1_000_000_000).is_some());
    assert!(Timestamp::new(0, 1_000_000_000).is_none());
}

#[test]
fn order_of_instants() {
    let points = [(5, 0), (5, 1), (6, 0), (-1, 999_999_999), (59, 1_500_000_000), (60, 0)];
    for a in points {
        for b in points {
            assert_eq!(at(a.0, a.1).is_before(at(b.0, b.1)), utc(a.0, a.1) < utc(b.0, b.1));
        }
    }
}

#[test]
fn older_is_strictly_older() {
    let now = Utc.with_ymd_and_hms(2026, 7, 5, 12, 0, 0).unwrap();
    let policy = Policy { older_than_days: 30, keep_at_least: 0 };
    let exact = now - Duration::days(30);
    let n = at(now.timestamp(), 0);
    assert!(!policy.is_older_than_cutoff(at(exact.timestamp(), 0), n));
    assert!(!policy.is_older_than_cutoff(at(exact.timestamp(), 1), n));
    assert!(policy.is_older_than_cutoff(at(exact.timestamp() - 1, 999_999_999), n));
    // What lies in the future is older than a negative number of days only.
    let future = at(now.timestamp() + 86_400, 0);
    assert!(!Policy { older_than_days: 0, keep_at_least: 0 }.is_older_than_cutoff(future, n));
    assert!(Policy { older_than_days: -2, keep_at_least: 0 }.is_older_than_cutoff(future, n));
}

#[test]
fn ages_agree_with_the_crate_across_leap_seconds() {
    let points = [
        (0, 0),
        (59, 0),
        (59, 1_000_000_000),
        (59, 1_999_999_999),
        (60, 0),
        (86_399, 1_500_000_000),
        (86_400, 0),
        (86_400, 500_000_000),
        (86_459, 1_200_000_000),
        (172_800, 1),
        (-86_341, 1_700_000_000),
        (MIN_SECS, 0),
        (MAX_SECS, 999_999_999),
    ];
    for a in points {
        for b in points {
            for days in [-2, -1, 0, 1, 2] {
                let policy = Policy { older_than_days: days, keep_at_least: 0 };
                assert_eq!(
                    policy.is_older_than_cutoff(at(a.0, a.1), at(b.0, b.1)),
                    utc(b.0, b.1) - utc(a.0, a.1) > Duration::days(days),
                    "{a:?} {b:?} {days}"
                );
            }
        }
    }
}

#[test]
fn age_only_grows() {
    let policy = Policy { older_than_days: 1, keep_at_least: 0 };
    assert!(policy.is_older_than_cutoff(at(0, 0), at(86_400, 1)));
    assert!(policy.is_older_than_cutoff(at(-1, 5), at(86_400, 1)));
    assert!(policy.is_older_than_cutoff(at(0, 0), at(86_401, 0)));
}

#[test]
fn spans_that_can_be_measured() {
    for days in [0, 1, -1, MAX_SPAN_DAYS, -MAX_SPAN_DAYS, MAX_SPAN_DAYS + 1, i64::MAX, i64::MIN] {
        let policy = Policy { older_than_days: days, keep_at_least: 0 };
        assert_eq!(policy.is_measurable(), Duration::try_days(days).is_some(), "{days}");
    }
    let longest = Policy { older_than_days: MAX_SPAN_DAYS, keep_at_least: 0 };
    assert!(!longest.is_older_than_cutoff(at(MIN_SECS, 0), at(MAX_SECS, 0)));
}

#[test]
fn displays_in_utc() {
    assert_eq!(at(4_102_444_800, 0).display(), "2100-01-01 00:00:00 UTC");
    assert_eq!(at(0, 500_000_000).display(), "1970-01-01 00:00:00.500 UTC");
}
