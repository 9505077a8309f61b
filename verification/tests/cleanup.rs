use chrono::{DateTime, Duration, TimeZone, Utc};
use clickvault::backup::{BackupChain, BackupKind, BackupMetadata, METADATA_SCHEMA_VERSION};
use clickvault::cleanup::{
    CleanupReport, CleanupStep, cleanup, cleanup_at, cleanup_goes_on, select_chains_for_deletion,
};
use clickvault::commands::{cleanup_event, cleanup_failure, cleanup_summary};
use clickvault::config::{
    BackupConfig, ClickHouseConfig, Config, RetentionConfig, RetryConfig, S3Config, ScheduleConfig,
};
use clickvault::deletion::DeleteOutcome;
use clickvault::error::{ClickVaultError, S3Failure};
use clickvault::notify::BackupEvent;
use clickvault::time::Timestamp;

fn stamp(t: DateTime<Utc>) -> Timestamp {
    Timestamp::from_parts(t.timestamp(), t.timestamp_subsec_nanos()).unwrap()
}

fn now() -> Timestamp {
    stamp(Utc.with_ymd_and_hms(2026, 6, 1, 12, 0, 0).unwrap())
}

fn md(kind: BackupKind, age_days: i64) -> BackupMetadata {
    let at = Utc.with_ymd_and_hms(2026, 6, 1, 12, 0, 0).unwrap() - Duration::days(age_days);
    BackupMetadata {
        version: METADATA_SCHEMA_VERSION,
        backup_id: "id".into(),
        kind,
        timestamp: stamp(at),
        base_backup_path: None,
        status: "BACKUP_CREATED".into(),
        total_size: 0,
        database: "db".into(),
        started_at: None,
        finished_at: None,
    }
}

/// A chain whose full is `full_age_days` old, optionally with one
/// incremental that is `incr_age_days` old.
fn chain_aged(path: &str, full_age_days: i64, incr_age_days: Option<i64>) -> BackupChain {
    BackupChain {
        full_path: path.into(),
        full: md(BackupKind::Full, full_age_days),
        incrementals: incr_age_days
            .map(|age| {
                vec![(
                    format!("incremental/of-{path}"),
                    md(BackupKind::Incremental, age),
                )]
            })
            .unwrap_or_default(),
    }
}

fn chain(path: &str) -> BackupChain {
    chain_aged(path, 0, None)
}

fn paths<'a>(selected: &[&'a BackupChain]) -> Vec<&'a str> {
    selected.iter().map(|c| c.full_path.as_str()).collect()
}

#[test]
fn keeps_all_when_fewer_than_or_equal_to_keep() {
    let chains = vec![chain("full/a/"), chain("full/b/"), chain("full/c/")];
    assert!(select_chains_for_deletion(&chains, 3, None, now()).is_empty());
    assert!(select_chains_for_deletion(&chains[..2], 3, None, now()).is_empty());
}

#[test]
fn deletes_oldest_beyond_keep() {
    // Chains are newest-first, so deletions come from the tail.
    let chains = vec![
        chain("full/newest/"),
        chain("full/mid/"),
        chain("full/old/"),
        chain("full/oldest/"),
    ];
    let to_delete = select_chains_for_deletion(&chains, 2, None, now());
    assert_eq!(paths(&to_delete), vec!["full/old/", "full/oldest/"]);
}

#[test]
fn empty_input_is_safe() {
    assert!(select_chains_for_deletion(&[], 3, None, now()).is_empty());
}

#[test]
fn keep_days_protects_recent_chains_beyond_count() {
    // The forced-full burst: three extra chains created today. Only the
    // count bound is exceeded, so keep_days retains them all.
    let chains = vec![
        chain_aged("full/d/", 0, None),
        chain_aged("full/c/", 0, None),
        chain_aged("full/b/", 0, None),
        chain_aged("full/a/", 1, None),
    ];
    assert!(select_chains_for_deletion(&chains, 1, Some(7), now()).is_empty());
    // Without keep_days the same fixtures lose three chains.
    assert_eq!(select_chains_for_deletion(&chains, 1, None, now()).len(), 3);
}

#[test]
fn deletes_only_chains_exceeding_both_bounds() {
    let chains = vec![
        chain_aged("full/new/", 0, None),
        chain_aged("full/recent/", 3, None),
        chain_aged("full/ancient/", 30, None),
    ];
    let to_delete = select_chains_for_deletion(&chains, 1, Some(7), now());
    assert_eq!(paths(&to_delete), vec!["full/ancient/"]);
}

#[test]
fn keep_days_measures_the_latest_backup_not_the_full() {
    // Old full, but its newest incremental still covers recent restore
    // points -> protected. A fully old chain is not.
    let chains = vec![
        chain_aged("full/new/", 0, None),
        chain_aged("full/covered/", 40, Some(2)),
        chain_aged("full/stale/", 40, Some(20)),
    ];
    let to_delete = select_chains_for_deletion(&chains, 1, Some(7), now());
    assert_eq!(paths(&to_delete), vec!["full/stale/"]);
}

#[test]
fn report_has_failures_when_chains_or_objects_failed() {
    assert!(!CleanupReport::default().has_failures());
    assert!(
        CleanupReport {
            chains_failed: 1,
            ..Default::default()
        }
        .has_failures()
    );
    assert!(
        CleanupReport {
            objects_failed: 2,
            ..Default::default()
        }
        .has_failures()
    );
}

fn config(keep: u32, keep_days: Option<u32>) -> Config {
    Config {
        clickhouse: ClickHouseConfig {
            url: "http://localhost:8123".into(),
            user: None,
            password: None,
            database: "mydb".into(),
        },
        s3: S3Config {
            endpoint: "https://s3.example.com".into(),
            clickhouse_endpoint: None,
            bucket: "bucket".into(),
            prefix: String::new(),
            region: "eu-central-1".into(),
            access_key: None,
            secret_key: None,
            path_style: false,
        },
        backup: BackupConfig::default(),
        retry: RetryConfig::default(),
        schedule: ScheduleConfig { full_backup_interval_days: 7 },
        retention: RetentionConfig { keep_full_backups: keep, keep_days, auto_cleanup: false },
        notifications: None,
    }
}

fn two_step_chain(path: &str) -> BackupChain {
    BackupChain {
        full_path: format!("full/{path}/"),
        full: md(BackupKind::Full, 30),
        incrementals: vec![
            (format!("incremental/{path}-1/"), md(BackupKind::Incremental, 29)),
            (format!("incremental/{path}-2/"), md(BackupKind::Incremental, 28)),
        ],
    }
}

fn done(deleted: u64, failed: u64) -> Result<DeleteOutcome, ClickVaultError> {
    Ok(DeleteOutcome { deleted, failed })
}

fn target(step: &CleanupStep) -> &str {
    match step {
        CleanupStep::Delete(path) => path,
        CleanupStep::Finished(report) => panic!("over: {report:?}"),
    }
}

#[test]
fn chains_are_deleted_from_the_newest_incremental_to_the_full() {
    let chains = vec![chain("full/kept/"), two_step_chain("a"), two_step_chain("b")];
    let (mut state, step) = cleanup_at(&config(1, None), &chains, false, now());
    assert_eq!(target(&step), "incremental/a-2/");
    let step = cleanup_goes_on(&mut state, done(3, 0));
    assert_eq!(target(&step), "incremental/a-1/");
    let step = cleanup_goes_on(&mut state, done(2, 0));
    assert_eq!(target(&step), "full/a/");
    let step = cleanup_goes_on(&mut state, done(5, 0));
    assert_eq!(target(&step), "incremental/b-2/");
    let step = cleanup_goes_on(&mut state, done(1, 0));
    let _ = target(&step);
    let step = cleanup_goes_on(&mut state, done(1, 0));
    assert_eq!(target(&step), "full/b/");
    match cleanup_goes_on(&mut state, done(1, 0)) {
        CleanupStep::Finished(report) => {
            assert_eq!(report.chains_deleted, 2);
            assert_eq!(report.chains_failed, 0);
            assert_eq!(report.objects_deleted, 13);
            assert_eq!(report.objects_failed, 0);
            assert_eq!(cleanup_failure(&report), None);
        }
        other => panic!("unexpected: {other:?}"),
    }
}

#[test]
fn a_failed_incremental_keeps_the_full_backup() {
    let chains = vec![two_step_chain("a"), two_step_chain("b")];
    let (mut state, step) = cleanup_at(&config(0, None), &chains, false, now());
    assert_eq!(target(&step), "incremental/a-2/");
    // The remaining incrementals are still tried.
    let listing = Err(ClickVaultError::S3(S3Failure::Other("no listing".into())));
    let step = cleanup_goes_on(&mut state, listing);
    assert_eq!(target(&step), "incremental/a-1/");
    // The full backup of the chain is skipped.
    let step = cleanup_goes_on(&mut state, done(4, 2));
    assert_eq!(target(&step), "incremental/b-2/");
    cleanup_goes_on(&mut state, done(1, 0));
    cleanup_goes_on(&mut state, done(1, 0));
    match cleanup_goes_on(&mut state, done(1, 1)) {
        CleanupStep::Finished(report) => {
            assert_eq!(report.chains_deleted, 0);
            assert_eq!(report.chains_failed, 2);
            assert_eq!(report.objects_deleted, 7);
            assert_eq!(report.objects_failed, 4);
            assert_eq!(
                cleanup_failure(&report).as_deref(),
                Some("Cleanup incomplete: 2 chain(s), 4 object(s) could not be deleted")
            );
        }
        other => panic!("unexpected: {other:?}"),
    }
}

#[test]
fn a_dry_run_counts_and_deletes_nothing() {
    let chains = vec![chain("full/kept/"), two_step_chain("a"), two_step_chain("b")];
    let (_, step) = cleanup_at(&config(1, None), &chains, true, now());
    match step {
        CleanupStep::Finished(report) => {
            assert_eq!(report.chains_deleted, 2);
            assert_eq!(report.objects_deleted, 0);
            assert_eq!(
                cleanup_summary(&report, true),
                "Dry run: would delete 2 backup chain(s)"
            );
            assert!(cleanup_event(&report, true).is_none());
        }
        other => panic!("unexpected: {other:?}"),
    }
}

#[test]
fn cleanup_refuses_an_incomplete_view_and_may_find_nothing() {
    let failed = Err(ClickVaultError::Io("broken".into()));
    assert!(matches!(cleanup(&config(1, None), failed, false), Err(ClickVaultError::Io(_))));
    let (_, step) = cleanup(&config(1, None), Ok(vec![chain("full/a/")]), false).unwrap();
    assert!(matches!(step, CleanupStep::Finished(r) if r == CleanupReport::default()));
    // The chains are long expired whatever the clock says.
    let old = vec![chain("full/a/"), two_step_chain("a")];
    let (_, step) = cleanup(&config(1, Some(1)), Ok(old), false).unwrap();
    assert_eq!(target(&step), "incremental/a-2/");
}

#[test]
fn a_finished_cleanup_is_summed_up_and_told_of() {
    let report = CleanupReport {
        chains_deleted: 3,
        chains_failed: 0,
        objects_deleted: 78,
        objects_failed: 0,
    };
    assert_eq!(
        cleanup_summary(&report, false),
        "Cleanup complete: deleted 3 chain(s), 78 object(s)"
    );
    assert!(matches!(
        cleanup_event(&report, false),
        Some(BackupEvent::CleanupCompleted { chains_deleted: 3, objects_deleted: 78 })
    ));
}

#[test]
fn the_most_recent_full_backups_are_kept() {
    let chains = vec![
        chain_aged("full/d/", 1, None),
        chain_aged("full/c/", 8, Some(2)),
        chain_aged("full/b/", 15, None),
        chain_aged("full/a/", 22, Some(16)),
    ];
    for keep in 0..5 {
        for chosen in select_chains_for_deletion(&chains, keep, None, now()) {
            for kept in chains.iter().take(keep) {
                assert!(chosen.full.timestamp.is_at_most(&kept.full.timestamp));
            }
        }
    }
}
