use clickvault::backup::executor::{
    BackupPlan, BackupRun, RunEvent, RunPhase, RunStep, WriteStep, check_no_backup_in_progress,
    plan_backup, plan_backup_at, plan_backup_when, quote_ident, run_backup, write_metadata_with_retry,
};
use clickvault::backup::progress::{BackupStatus, PollEvent};
use clickvault::backup::{BackupChain, BackupKind, BackupMetadata};
use clickvault::commands::{backup_summary, completion_event, failure_event, failure_text};
use clickvault::config::{
    BackupConfig, ClickHouseConfig, Config, RetentionConfig, RetryConfig, S3Config, ScheduleConfig,
};
use clickvault::error::{ClickHouseFailure, ClickVaultError, S3Failure};
use clickvault::notify::BackupEvent;
use clickvault::time::{Duration, Timestamp};

fn config() -> Config {
    Config {
        clickhouse: ClickHouseConfig {
            url: "http://localhost:8123".into(),
            user: None,
            password: Some("chpass".into()),
            database: "my`db".into(),
        },
        s3: S3Config {
            endpoint: "https://s3.example.com".into(),
            clickhouse_endpoint: None,
            bucket: "bucket".into(),
            prefix: "backups".into(),
            region: "eu-central-1".into(),
            access_key: Some("AKIA".into()),
            secret_key: Some("s3cret".into()),
            path_style: false,
        },
        backup: BackupConfig { poll_interval_secs: 2, timeout_secs: 60 },
        retry: RetryConfig::default(),
        schedule: ScheduleConfig { full_backup_interval_days: 7 },
        retention: RetentionConfig {
            keep_full_backups: 4,
            keep_days: None,
            auto_cleanup: false,
        },
        notifications: None,
    }
}

fn at(secs: i64) -> Timestamp {
    Timestamp::from_parts(secs, 0).unwrap()
}

fn md(kind: BackupKind, timestamp: Timestamp) -> BackupMetadata {
    BackupMetadata {
        version: 1,
        backup_id: "id".into(),
        kind,
        timestamp,
        base_backup_path: None,
        status: "BACKUP_CREATED".into(),
        total_size: 0,
        database: "db".into(),
        started_at: None,
        finished_at: None,
    }
}

fn chain(timestamp: Timestamp) -> BackupChain {
    BackupChain {
        full_path: "backups/full/f/".into(),
        full: md(BackupKind::Full, timestamp),
        incrementals: vec![("backups/incremental/i/".into(), md(BackupKind::Incremental, timestamp))],
    }
}

fn recent() -> Timestamp {
    let now = chrono::Utc::now() - chrono::Duration::hours(1);
    Timestamp::from_parts(now.timestamp(), 0).unwrap()
}

fn row(status: &str) -> BackupStatus {
    BackupStatus {
        id: "other".into(),
        status: status.into(),
        start_time: String::new(),
        end_time: String::new(),
        start_ts: 1_760_000_000,
        end_ts: 1_760_000_120,
        total_size: 77,
        error: String::new(),
    }
}

#[test]
fn identifiers_are_quoted() {
    assert_eq!(quote_ident("db"), "`db`");
    assert_eq!(quote_ident("a`b"), "`a``b`");
    assert_eq!(quote_ident("``"), "``````");
    assert_eq!(quote_ident(""), "``");
}

#[test]
fn full_backups_are_planned_without_a_base() {
    let plan = plan_backup_at(&config(), &vec![], true, &at(1_767_323_045)).unwrap();
    assert_eq!(plan.kind, BackupKind::Full);
    assert_eq!(plan.path, "backups/full/20260102T030405000Z/");
    assert_eq!(plan.base, None);
    assert_eq!(
        plan.sql,
        "BACKUP DATABASE `my``db` TO S3('https://s3.example.com/bucket/backups/full/20260102T030405000Z/', 'AKIA', 's3cret') ASYNC"
    );
}

#[test]
fn incrementals_are_planned_on_the_latest_backup() {
    let chains = vec![chain(at(0))];
    let plan = plan_backup_at(&config(), &chains, false, &at(1_767_323_045)).unwrap();
    assert_eq!(plan.kind, BackupKind::Incremental);
    assert_eq!(plan.base.as_deref(), Some("backups/incremental/i/"));
    assert_eq!(
        plan.sql,
        "BACKUP DATABASE `my``db` TO S3('https://s3.example.com/bucket/backups/incremental/20260102T030405000Z/', 'AKIA', 's3cret') SETTINGS base_backup = S3('https://s3.example.com/bucket/backups/incremental/i/', 'AKIA', 's3cret') ASYNC"
    );
    assert!(matches!(
        plan_backup_at(&config(), &vec![], false, &at(0)),
        Err(ClickVaultError::NoBaseBackup)
    ));
    assert_eq!(
        ClickVaultError::NoBaseBackup.message(),
        "No base backup found for incremental backup"
    );
}

#[test]
fn the_kind_depends_on_force_and_age() {
    let kind = |chains: &Vec<BackupChain>, force| plan_backup(&config(), chains, force).unwrap().kind;
    assert_eq!(kind(&vec![], false), BackupKind::Full);
    assert_eq!(kind(&vec![chain(recent())], false), BackupKind::Incremental);
    assert_eq!(kind(&vec![chain(recent())], true), BackupKind::Full);
    assert_eq!(kind(&vec![chain(at(0))], false), BackupKind::Full);
}

#[test]
fn a_backup_in_progress_is_reported() {
    assert!(check_no_backup_in_progress(&vec![]).is_ok());
    match check_no_backup_in_progress(&vec![row("CREATING_BACKUP")]) {
        Err(e) => assert_eq!(e.message(), "A backup is already in progress (id: other)"),
        Ok(()) => panic!("accepted"),
    }
}

#[test]
fn writing_the_sidecar_is_tried_a_few_times() {
    let blip = || Err(ClickVaultError::S3(S3Failure::HttpFailWithBody(503, String::new())));
    assert!(matches!(write_metadata_with_retry(1, Ok(())), WriteStep::Written));
    assert!(matches!(
        write_metadata_with_retry(1, blip()),
        WriteStep::RetryAfter(d) if d == Duration::from_secs(2)
    ));
    assert!(matches!(write_metadata_with_retry(2, blip()), WriteStep::RetryAfter(_)));
    assert!(matches!(write_metadata_with_retry(3, blip()), WriteStep::GiveUp(_)));
    let denied = Err(ClickVaultError::S3(S3Failure::HttpFailWithBody(403, String::new())));
    assert!(matches!(write_metadata_with_retry(1, denied), WriteStep::GiveUp(_)));
    let json = Err(ClickVaultError::Json("x".into()));
    assert!(matches!(write_metadata_with_retry(1, json), WriteStep::GiveUp(_)));
}

fn step(run: BackupRun, event: RunEvent) -> (BackupRun, RunStep) {
    run_backup(run, &config(), event)
}

fn submitted(force_full: bool, chains: Vec<BackupChain>) -> BackupRun {
    let run = BackupRun::begin(force_full, true);
    let (run, next) = step(run, RunEvent::Started);
    assert!(matches!(next, RunStep::Discover));
    let (run, next) = step(run, RunEvent::Discovered(Ok(chains)));
    assert!(matches!(next, RunStep::Submit(_)));
    run
}

fn followed() -> BackupRun {
    let (run, next) = step(submitted(true, vec![]), RunEvent::Submitted(Ok("b1".into())));
    assert!(matches!(next, RunStep::Poll));
    run
}

fn poll(run: BackupRun, event: PollEvent) -> (BackupRun, RunStep) {
    step(run, RunEvent::Progress { event, elapsed: Duration::from_secs(9) })
}

fn path_of(run: &BackupRun) -> String {
    match &run.phase {
        RunPhase::Submitting(BackupPlan { path, .. }) => path.clone(),
        RunPhase::Following(BackupPlan { path, .. }, _) => path.clone(),
        other => panic!("unexpected: {other:?}"),
    }
}

#[test]
fn a_run_refuses_to_start_beside_another_backup() {
    let (run, next) = step(BackupRun::begin(false, false), RunEvent::Started);
    assert!(matches!(next, RunStep::QueryInProgress));
    let (run, next) = step(run, RunEvent::InProgress(Ok(vec![row("CREATING_BACKUP")])));
    assert!(matches!(
        next,
        RunStep::Finish(Err(ClickVaultError::BackupInProgress(id))) if id == "other"
    ));
    assert!(matches!(run.phase, RunPhase::Over));
    let (run, _) = step(BackupRun::begin(false, false), RunEvent::Started);
    let (_, next) = step(run, RunEvent::InProgress(Ok(vec![])));
    assert!(matches!(next, RunStep::Discover));
    let (run, _) = step(BackupRun::begin(false, false), RunEvent::Started);
    let failed = Err(ClickVaultError::ClickHouse(ClickHouseFailure::Network("x".into())));
    let (_, next) = step(run, RunEvent::InProgress(failed));
    assert!(matches!(next, RunStep::Finish(Err(ClickVaultError::ClickHouse(_)))));
}

#[test]
fn a_run_that_cannot_discover_fails() {
    let (run, _) = step(BackupRun::begin(false, true), RunEvent::Started);
    let failed = Err(ClickVaultError::S3(S3Failure::Other("x".into())));
    let (run, next) = step(run, RunEvent::Discovered(failed));
    assert!(matches!(next, RunStep::Finish(Err(ClickVaultError::S3(_)))));
    assert_eq!(run.decided, None);
}

#[test]
fn a_refused_submission_is_not_repeated() {
    let failed = Err(ClickHouseFailure::Network("reset".into()));
    let (run, next) = step(submitted(true, vec![]), RunEvent::Submitted(failed));
    assert!(matches!(next, RunStep::Finish(Err(ClickVaultError::ClickHouse(_)))));
    assert!(matches!(run.phase, RunPhase::Over));
    let (_, next) = step(submitted(true, vec![]), RunEvent::Submitted(Ok(String::new())));
    match next {
        RunStep::Finish(Err(e)) => assert_eq!(
            e.message(),
            "Backup failed with status UNKNOWN: BACKUP was submitted but returned an empty id"
        ),
        other => panic!("unexpected: {other:?}"),
    }
}

#[test]
fn a_completed_backup_is_recorded() {
    let run = submitted(false, vec![chain(recent())]);
    assert_eq!(run.decided, Some(BackupKind::Incremental));
    let path = path_of(&run);
    let (run, _) = step(run, RunEvent::Submitted(Ok("b1".into())));
    let (run, next) = poll(run, PollEvent::Due(Duration::from_secs(0)));
    assert!(matches!(next, RunStep::QueryStatus(id) if id == "b1"));
    let (run, next) = poll(run, PollEvent::Answered(Ok(Some(row("CREATING_BACKUP")))));
    assert!(matches!(next, RunStep::Sleep(d) if d == Duration::from_secs(2)));
    let (run, next) = poll(run, PollEvent::Answered(Ok(Some(row("BACKUP_CREATED")))));
    match next {
        RunStep::Record(to, meta) => {
            assert_eq!(to, path);
            assert_eq!(meta.version, 1);
            assert_eq!(meta.backup_id, "b1");
            assert_eq!(meta.kind, BackupKind::Incremental);
            assert_eq!(meta.base_backup_path.as_deref(), Some("backups/incremental/i/"));
            assert_eq!(meta.status, "BACKUP_CREATED");
            assert_eq!(meta.total_size, 77);
            assert_eq!(meta.database, "my`db");
            assert_eq!(meta.started_at, Some(at(1_760_000_000)));
            assert_eq!(meta.finished_at, Some(at(1_760_000_120)));
        }
        other => panic!("unexpected: {other:?}"),
    }
    let (run, next) = step(run, RunEvent::Recorded(Ok(())));
    assert!(matches!(run.phase, RunPhase::Over));
    match next {
        RunStep::Finish(Ok(result)) => {
            assert_eq!(result.duration, Duration::from_secs(9));
            assert_eq!(
                backup_summary(&result),
                "Backup completed: incremental | size: 77 bytes | duration: 9s"
            );
            assert!(matches!(
                completion_event(&config(), &result),
                BackupEvent::BackupCompleted {
                    kind: BackupKind::Incremental,
                    duration_secs: 9,
                    total_size: 77,
                    ..
                }
            ));
        }
        other => panic!("unexpected: {other:?}"),
    }
}

#[test]
fn an_unrecorded_backup_is_rolled_back() {
    let run = followed();
    let path = path_of(&run);
    let (run, _) = poll(run, PollEvent::Answered(Ok(Some(row("BACKUP_CREATED")))));
    let blip = || Err(ClickVaultError::S3(S3Failure::Io("reset".into())));
    let (run, next) = step(run, RunEvent::Recorded(blip()));
    assert!(matches!(next, RunStep::RecordAfter(d, _, _) if d == Duration::from_secs(2)));
    let (run, next) = step(run, RunEvent::Recorded(blip()));
    assert!(matches!(next, RunStep::RecordAfter(..)));
    let (run, next) = step(run, RunEvent::Recorded(blip()));
    assert!(matches!(next, RunStep::RollBack(p) if p == path));
    let (_, next) = step(run, RunEvent::RolledBack);
    assert!(matches!(next, RunStep::Finish(Err(ClickVaultError::S3(S3Failure::Io(_))))));
}

#[test]
fn a_lost_backup_is_rolled_back() {
    let run = followed();
    let path = path_of(&run);
    let (run, _) = poll(run, PollEvent::Answered(Ok(None)));
    let (run, next) = poll(run, PollEvent::Answered(Ok(None)));
    assert!(matches!(next, RunStep::Sleep(_)));
    let (run, next) = poll(run, PollEvent::Answered(Ok(None)));
    assert!(matches!(next, RunStep::RollBack(p) if p == path));
    let (_, next) = step(run, RunEvent::RolledBack);
    match next {
        RunStep::Finish(Err(e)) => assert_eq!(
            e.message(),
            "backup b1 disappeared from system.backups after 3 consecutive polls (was the ClickHouse server restarted?)"
        ),
        other => panic!("unexpected: {other:?}"),
    }
}

#[test]
fn a_failed_backup_ends_the_run() {
    let mut failed = row("BACKUP_FAILED");
    failed.error = "disk full".into();
    let (run, next) = poll(followed(), PollEvent::Answered(Ok(Some(failed))));
    assert!(matches!(run.phase, RunPhase::Over));
    match next {
        RunStep::Finish(Err(e)) => {
            assert_eq!(e.message(), "Backup failed with status BACKUP_FAILED: disk full")
        }
        other => panic!("unexpected: {other:?}"),
    }
    let (_, next) = poll(followed(), PollEvent::Due(Duration::from_secs(61)));
    assert!(matches!(next, RunStep::Finish(Err(ClickVaultError::BackupFailed { .. }))));
}

#[test]
fn failures_are_reported_with_the_decided_kind_and_without_secrets() {
    let error = ClickVaultError::ClickHouse(ClickHouseFailure::Other(
        "Syntax error: S3('u', 'AKIA', 's3cret') chpass".into(),
    ));
    assert_eq!(
        failure_text(&config(), &error),
        "ClickHouse error: Syntax error: S3('u', '***', '***') ***"
    );
    let kind = |decided, full| match failure_event(&config(), decided, full, &error) {
        BackupEvent::BackupFailed { kind, error, database, .. } => {
            assert!(!error.contains("s3cret"));
            assert_eq!(database, "my`db");
            kind
        }
        other => panic!("unexpected: {other:?}"),
    };
    // A full backup that was promoted by the interval is reported as such.
    assert_eq!(kind(Some(BackupKind::Full), false), BackupKind::Full);
    assert_eq!(kind(None, false), BackupKind::Incremental);
    assert_eq!(kind(None, true), BackupKind::Full);
}

#[test]
fn statements_hold_up_against_the_characters_in_their_parts() {
    let mut config = config();
    config.clickhouse.database = "db` TO x".into();
    config.s3.secret_key = Some("it's a \\".into());
    let plan = plan_backup_at(&config, &vec![chain(at(0))], false, &at(1_767_323_045)).unwrap();
    assert_eq!(
        plan.sql,
        "BACKUP DATABASE `db`` TO x` TO S3('https://s3.example.com/bucket/backups/incremental/20260102T030405000Z/', 'AKIA', 'it\\'s a \\\\') SETTINGS base_backup = S3('https://s3.example.com/bucket/backups/incremental/i/', 'AKIA', 'it\\'s a \\\\') ASYNC"
    );
}

#[test]
fn the_interval_is_looked_at_when_asked() {
    let chains = vec![chain(at(0))];
    let week = 7 * 86_400;
    let plan = |chains: &Vec<BackupChain>, force: bool, looked_at: i64| {
        plan_backup_when(&config(), chains, force, &at(looked_at), &at(1_767_323_045)).unwrap()
    };
    let due = plan(&chains, false, week);
    assert_eq!(due.kind, BackupKind::Full);
    assert_eq!(due.path, "backups/full/20260102T030405000Z/");
    let early = plan(&chains, false, week - 1);
    assert_eq!(early.kind, BackupKind::Incremental);
    assert_eq!(early.base.as_deref(), Some("backups/incremental/i/"));
    assert_eq!(early.timestamp, at(1_767_323_045));
    assert_eq!(plan(&chains, true, week - 1).kind, BackupKind::Full);
    assert_eq!(plan(&vec![], false, 0).kind, BackupKind::Full);
}
