use chrono::{DateTime, TimeZone, Utc};
use clickvault::backup::discovery::latest_across;
use clickvault::backup::{BackupChain, BackupKind, BackupMetadata};
use clickvault::check::{CheckReport, CheckStatus, evaluate, format_age, format_limit};
use clickvault::cli::parse_max_age;
use clickvault::time::{Duration, Timestamp};

fn stamp(t: DateTime<Utc>) -> Timestamp {
    Timestamp::from_parts(t.timestamp(), t.timestamp_subsec_nanos()).unwrap()
}

fn t0() -> DateTime<Utc> {
    Utc.with_ymd_and_hms(2026, 1, 10, 12, 0, 0).unwrap()
}

fn md(kind: BackupKind, ts: DateTime<Utc>) -> BackupMetadata {
    BackupMetadata {
        version: 1,
        backup_id: "id".into(),
        kind,
        timestamp: stamp(ts),
        base_backup_path: None,
        status: "BACKUP_CREATED".into(),
        total_size: 0,
        database: "db".into(),
        started_at: None,
        finished_at: None,
    }
}

fn chain(full_ts: DateTime<Utc>, incr_ts: Option<DateTime<Utc>>) -> BackupChain {
    BackupChain {
        full_path: format!("full/{full_ts}/"),
        full: md(BackupKind::Full, full_ts),
        incrementals: incr_ts
            .map(|ts| {
                vec![(
                    format!("incremental/{ts}/"),
                    md(BackupKind::Incremental, ts),
                )]
            })
            .unwrap_or_default(),
    }
}

#[test]
fn missing_when_no_chains() {
    let report = evaluate(&[], stamp(t0()), Duration::from_secs(3600));
    assert_eq!(report.status, CheckStatus::Missing);
    assert!(!report.is_healthy());
    assert!(report.human_line().starts_with("MISSING"));
    assert_eq!(report.human_line(), "MISSING: no backups found (max 1h)");
}

#[test]
fn ok_within_max_age_uses_latest_incremental() {
    let full_ts = t0() - chrono::Duration::hours(10);
    let incr_ts = t0() - chrono::Duration::hours(2);
    let chains = vec![chain(full_ts, Some(incr_ts))];

    let report = evaluate(&chains, stamp(t0()), Duration::from_secs(26 * 3600));
    assert_eq!(report.status, CheckStatus::Fresh);
    assert_eq!(report.kind, Some(BackupKind::Incremental));
    assert_eq!(report.age_secs, Some(2 * 3600));
    assert_eq!(report.chains, 1);
    assert!(
        report
            .human_line()
            .starts_with("OK: last backup incremental")
    );
    assert_eq!(
        report.human_line(),
        "OK: last backup incremental at 2026-01-10T10:00:00Z (age 2h, max 26h), 1 chain(s)"
    );
}

#[test]
fn stale_beyond_max_age() {
    let chains = vec![chain(t0() - chrono::Duration::days(3), None)];
    let report = evaluate(&chains, stamp(t0()), Duration::from_secs(26 * 3600));
    assert_eq!(report.status, CheckStatus::Stale);
    assert!(!report.is_healthy());
    assert!(report.human_line().starts_with("STALE"));
}

#[test]
fn boundary_age_equal_to_max_is_ok() {
    let chains = vec![chain(t0() - chrono::Duration::hours(1), None)];
    let report = evaluate(&chains, stamp(t0()), Duration::from_secs(3600));
    assert_eq!(report.status, CheckStatus::Fresh);
}

#[test]
fn negative_age_from_clock_skew_clamps_to_zero() {
    let chains = vec![chain(t0() + chrono::Duration::seconds(30), None)];
    let report = evaluate(&chains, stamp(t0()), Duration::from_secs(3600));
    assert_eq!(report.age_secs, Some(0));
    assert_eq!(report.status, CheckStatus::Fresh);
}

#[test]
fn format_age_uses_at_most_two_units() {
    assert_eq!(format_age(50), "50s");
    assert_eq!(format_age(200), "3m20s");
    assert_eq!(format_age(3600), "1h");
    assert_eq!(format_age(13_320), "3h42m");
    assert_eq!(format_age(93_600), "1d2h");
    assert_eq!(format_age(86_400), "1d");
}

#[test]
fn fractions_of_a_second_are_cut_off_an_age() {
    let chains = vec![chain(t0() - chrono::Duration::milliseconds(1999), None)];
    let report = evaluate(&chains, stamp(t0()), Duration::from_secs(1));
    assert_eq!(report.age_secs, Some(1));
    assert_eq!(report.status, CheckStatus::Fresh);
    let report = evaluate(&chains, stamp(t0()), Duration::from_millis(999));
    assert_eq!(report.max_age_secs, 0);
    assert_eq!(report.status, CheckStatus::Stale);
}

#[test]
fn the_summary_prints_the_limit_as_it_is_written() {
    let report = CheckReport {
        status: CheckStatus::Fresh,
        kind: Some(BackupKind::Incremental),
        timestamp: Some(stamp(Utc.with_ymd_and_hms(2026, 7, 7, 22, 36, 32).unwrap())),
        age_secs: Some(8012),
        max_age_secs: 93_600,
        chains: 2,
    };
    assert_eq!(
        report.human_line(),
        "OK: last backup incremental at 2026-07-07T22:36:32Z (age 2h13m, max 26h), 2 chain(s)"
    );
    let missing = evaluate(&[], stamp(t0()), Duration::from_secs(26 * 3600));
    assert_eq!(missing.human_line(), "MISSING: no backups found (max 26h)");
}

#[test]
fn limits_have_the_largest_unit_that_fits() {
    for text in ["90s", "30m", "26h", "2d", "1s", "61m", "3601s"] {
        assert_eq!(format_limit(parse_max_age(text).unwrap().as_secs()), text);
    }
    assert_eq!(format_limit(86_400), "1d");
    assert_eq!(format_limit(0), "0s");
}

#[test]
fn the_report_tells_of_the_newest_backup() {
    let newest = t0() - chrono::Duration::hours(1);
    let chains = vec![
        chain(t0() - chrono::Duration::hours(9), Some(newest)),
        chain(t0() - chrono::Duration::days(3), Some(t0() - chrono::Duration::days(2))),
    ];
    let report = evaluate(&chains, stamp(t0()), Duration::from_secs(7200));
    assert_eq!(report.timestamp, Some(stamp(newest)));
    assert_eq!(report.timestamp, latest_across(&chains).map(|(_, meta)| meta.timestamp));
    assert!(report.is_healthy());
}
