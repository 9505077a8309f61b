use chrono::{DateTime, Duration as Span, TimeZone, Utc};
use clickvault::time::{Duration, FIRST_SECOND, LAST_SECOND, Timestamp};

fn stamp(t: DateTime<Utc>) -> Timestamp {
    Timestamp::from_parts(t.timestamp(), t.timestamp_subsec_nanos()).unwrap()
}

#[test]
fn timestamps_cover_the_range_of_the_calendar() {
    assert!(Timestamp::from_parts(FIRST_SECOND, 0).is_some());
    assert!(Timestamp::from_parts(FIRST_SECOND - 1, 0).is_none());
    assert!(Timestamp::from_parts(LAST_SECOND, 999_999_999).is_some());
    assert!(Timestamp::from_parts(LAST_SECOND + 1, 0).is_none());
    assert_eq!(DateTime::<Utc>::MIN_UTC.timestamp(), FIRST_SECOND);
    assert_eq!(DateTime::<Utc>::MAX_UTC.timestamp(), LAST_SECOND);
    // A leap second counts with the last second of a minute only.
    assert!(Timestamp::from_parts(59, 1_500_000_000).is_some());
    assert!(Timestamp::from_parts(58, 1_500_000_000).is_none());
    assert!(Timestamp::from_parts(59, 2_000_000_000).is_none());
    let t = Timestamp::from_parts(-5, 7).unwrap();
    assert_eq!(t.unix_secs(), -5);
    assert_eq!(t.subsec_nanos(), 7);
}

#[test]
fn spans_agree_with_the_calendar() {
    let base = Utc.with_ymd_and_hms(2026, 1, 1, 0, 0, 0).unwrap();
    let times = [
        base,
        base + Span::nanoseconds(1),
        base + Span::milliseconds(999),
        base - Span::milliseconds(1),
        base + Span::days(7),
        base - Span::days(40) + Span::nanoseconds(3),
        DateTime::from_timestamp(1_483_228_799, 1_250_000_000).unwrap(),
        DateTime::from_timestamp(1_483_228_799, 250_000_000).unwrap(),
        DateTime::from_timestamp(1_483_228_800, 0).unwrap(),
        DateTime::from_timestamp(1_483_228_739, 1_000_000_000).unwrap(),
        DateTime::from_timestamp(1_435_708_799, 1_999_999_999).unwrap(),
        DateTime::from_timestamp(-1, 1_000_000_001).unwrap(),
        DateTime::from_timestamp(-1, 0).unwrap(),
        DateTime::from_timestamp(-61, 1_000_000_001).unwrap(),
        DateTime::<Utc>::MIN_UTC,
        DateTime::<Utc>::MAX_UTC,
    ];
    for a in times {
        for b in times {
            let (x, y) = (stamp(a), stamp(b));
            assert_eq!(x.seconds_since(&y), (a - b).num_seconds());
            assert_eq!(x.is_at_most(&y), a <= b);
            for days in [0u32, 1, 7, 47, u32::MAX] {
                assert_eq!(x.is_days_after(&y, days), a - b >= Span::days(days as i64));
            }
        }
    }
}

#[test]
fn durations_are_taken_apart() {
    let d = Duration::new(3, 4_000_005);
    assert_eq!(d.as_secs(), 3);
    assert_eq!(d.subsec_nanos(), 4_000_005);
    assert_eq!(d.as_millis(), 3004);
    assert!(d.is_longer_than(&Duration::from_secs(3)));
    assert!(!Duration::from_secs(3).is_longer_than(&d));
    assert_eq!(Duration::from_secs(2), Duration::from_millis(2000));
    let limit = Duration::from_secs(5);
    assert_eq!(Duration::from_secs(2).doubled_up_to(&limit), Duration::from_secs(4));
    assert_eq!(Duration::from_secs(3).doubled_up_to(&limit), limit);
    assert_eq!(Duration::from_secs(u64::MAX).as_secs(), u64::MAX);
}
