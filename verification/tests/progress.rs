use chrono::DateTime;
use clickvault::backup::progress::{
    BACKUP_STATUS_COLUMNS, BackupStatus, MAX_MISSING_POLLS, MAX_UNKNOWN_POLLS, PollAction,
    PollEvent, PollStep, Polling, backup_status_sql, classify_status, epoch_secs,
    get_backup_status, get_recent_backups, in_progress_sql, is_transient_clickhouse,
    poll_until_complete, recent_backups_sql,
};
use clickvault::error::{ClickHouseFailure, ClickVaultError};
use clickvault::retry::RetryPolicy;
use clickvault::s3::RequestStep;
use clickvault::time::{Duration, Timestamp};

fn status(s: &str, error: &str) -> BackupStatus {
    BackupStatus {
        id: "id".into(),
        status: s.into(),
        start_time: String::new(),
        end_time: String::new(),
        start_ts: 0,
        end_ts: 0,
        total_size: 0,
        error: error.into(),
    }
}

#[test]
fn backup_window_accessors_treat_epoch_zero_as_unset() {
    let mut s = status("BACKUP_CREATED", "");
    assert_eq!(s.started_at(), None);
    assert_eq!(s.finished_at(), None);

    s.start_ts = 1_760_000_000;
    s.end_ts = 1_760_000_120;
    let start = DateTime::from_timestamp(1_760_000_000, 0).unwrap();
    assert_eq!(
        s.started_at().unwrap(),
        Timestamp::from_parts(start.timestamp(), start.timestamp_subsec_nanos()).unwrap()
    );
    assert_eq!(
        s.finished_at().unwrap().seconds_since(&s.started_at().unwrap()),
        120
    );
}

#[test]
fn every_second_but_zero_is_a_point_in_time() {
    assert_eq!(epoch_secs(0), None);
    assert_eq!(epoch_secs(1).unwrap().unix_secs(), 1);
    assert_eq!(epoch_secs(u32::MAX).unwrap().unix_secs(), 4_294_967_295);
}

#[test]
fn classify_known_statuses() {
    assert_eq!(
        classify_status(&status("CREATING_BACKUP", "")),
        PollAction::InProgress
    );
    assert_eq!(
        classify_status(&status("BACKUP_CREATED", "")),
        PollAction::Completed
    );
}

#[test]
fn classify_failed_carries_error_message() {
    assert_eq!(
        classify_status(&status("BACKUP_FAILED", "disk full")),
        PollAction::Failed {
            status: "BACKUP_FAILED".into(),
            message: "disk full".into(),
        }
    );
}

#[test]
fn classify_cancelled_is_terminal_with_fallback_message() {
    assert_eq!(
        classify_status(&status("BACKUP_CANCELLED", "")),
        PollAction::Failed {
            status: "BACKUP_CANCELLED".into(),
            message: "backup ended with status BACKUP_CANCELLED".into(),
        }
    );
}

#[test]
fn classify_unrecognized_status_is_unknown() {
    assert_eq!(
        classify_status(&status("RESTORING", "")),
        PollAction::Unknown
    );
    assert_eq!(classify_status(&status("", "")), PollAction::Unknown);
}

fn polling() -> Polling {
    Polling::begin("b1".into(), Duration::from_secs(5), Duration::from_secs(90))
}

fn found(p: &mut Polling, row: Option<BackupStatus>) -> PollStep {
    poll_until_complete(p, PollEvent::Answered(Ok(row)))
}

#[test]
fn time_budget_is_checked_before_each_query() {
    let mut p = polling();
    let step = poll_until_complete(&mut p, PollEvent::Due(Duration::from_secs(90)));
    assert!(matches!(step, PollStep::Query));
    match poll_until_complete(&mut p, PollEvent::Due(Duration::from_millis(90_001))) {
        PollStep::Failed(ClickVaultError::BackupFailed { status, message }) => {
            assert_eq!(status, "TIMEOUT");
            assert_eq!(message, "Backup b1 did not complete within 90s");
        }
        other => panic!("unexpected: {other:?}"),
    }
}

#[test]
fn a_few_missing_rows_are_tolerated() {
    let mut p = polling();
    for _ in 0..MAX_MISSING_POLLS - 1 {
        assert!(matches!(found(&mut p, None), PollStep::Sleep(_)));
    }
    // A row that is found again ends the series.
    let step = found(&mut p, Some(status("CREATING_BACKUP", "")));
    assert!(matches!(step, PollStep::Sleep(d) if d == Duration::from_secs(5)));
    for _ in 0..MAX_MISSING_POLLS - 1 {
        assert!(matches!(found(&mut p, None), PollStep::Sleep(_)));
    }
    match found(&mut p, None) {
        PollStep::Failed(ClickVaultError::BackupStateLost { id, polls }) => {
            assert_eq!(id, "b1");
            assert_eq!(polls, MAX_MISSING_POLLS);
        }
        other => panic!("unexpected: {other:?}"),
    }
}

#[test]
fn unrecognized_statuses_fail_fast() {
    let mut p = polling();
    for _ in 0..MAX_UNKNOWN_POLLS - 1 {
        assert!(matches!(found(&mut p, Some(status("RESTORING", ""))), PollStep::Sleep(_)));
    }
    match found(&mut p, Some(status("RESTORING", ""))) {
        PollStep::Failed(ClickVaultError::BackupFailed { status, message }) => {
            assert_eq!(status, "RESTORING");
            assert_eq!(
                message,
                "backup did not reach a known state after 5 consecutive polls with unrecognized status 'RESTORING'"
            );
        }
        other => panic!("unexpected: {other:?}"),
    }
}

#[test]
fn progress_ends_a_series_of_unrecognized_statuses() {
    let mut p = polling();
    for _ in 0..MAX_UNKNOWN_POLLS - 1 {
        found(&mut p, Some(status("RESTORING", "")));
    }
    found(&mut p, Some(status("CREATING_BACKUP", "")));
    assert!(matches!(found(&mut p, Some(status("RESTORING", ""))), PollStep::Sleep(_)));
}

#[test]
fn completion_and_failure_end_the_polls() {
    let mut p = polling();
    match found(&mut p, Some(status("BACKUP_CREATED", ""))) {
        PollStep::Completed(s) => assert_eq!(s.status, "BACKUP_CREATED"),
        other => panic!("unexpected: {other:?}"),
    }
    let mut p = polling();
    match found(&mut p, Some(status("BACKUP_FAILED", "disk full"))) {
        PollStep::Failed(ClickVaultError::BackupFailed { status, message }) => {
            assert_eq!(status, "BACKUP_FAILED");
            assert_eq!(message, "disk full");
        }
        other => panic!("unexpected: {other:?}"),
    }
    let mut p = polling();
    let answer = PollEvent::Answered(Err(ClickHouseFailure::Other("exception".into())));
    assert!(matches!(
        poll_until_complete(&mut p, answer),
        PollStep::Failed(ClickVaultError::ClickHouse(ClickHouseFailure::Other(_)))
    ));
}

#[test]
fn only_transport_failures_are_transient() {
    assert!(is_transient_clickhouse(&ClickHouseFailure::Network("x".into())));
    assert!(is_transient_clickhouse(&ClickHouseFailure::TimedOut("x".into())));
    assert!(!is_transient_clickhouse(&ClickHouseFailure::Other("x".into())));
}

#[test]
fn queries_are_retried_on_transport_failures_only() {
    let policy = RetryPolicy::default();
    let blip = || Err(ClickHouseFailure::Network("reset".into()));
    assert!(matches!(get_backup_status(&policy, 0, blip()), RequestStep::RetryAfter(_)));
    assert!(matches!(get_backup_status(&policy, 1, blip()), RequestStep::RetryAfter(_)));
    assert!(matches!(get_backup_status(&policy, 2, blip()), RequestStep::Done(Err(_))));
    assert!(matches!(get_backup_status(&policy, 0, Ok(None)), RequestStep::Done(Ok(None))));
    let refused = Err(ClickHouseFailure::Other("exception".into()));
    match get_recent_backups(&policy, 0, refused) {
        RequestStep::Done(Err(e)) => assert_eq!(e.message(), "ClickHouse error: exception"),
        other => panic!("unexpected: {other:?}"),
    }
    match get_recent_backups(&policy, 0, Ok(vec![status("BACKUP_CREATED", "")])) {
        RequestStep::Done(Ok(rows)) => assert_eq!(rows.len(), 1),
        other => panic!("unexpected: {other:?}"),
    }
}

#[test]
fn queries_share_the_column_list() {
    assert!(BACKUP_STATUS_COLUMNS.starts_with("id, toString(status) AS status, "));
    assert_eq!(
        backup_status_sql(),
        format!("SELECT {BACKUP_STATUS_COLUMNS} FROM system.backups WHERE id = ?")
    );
    assert_eq!(
        recent_backups_sql(),
        format!("SELECT {BACKUP_STATUS_COLUMNS} FROM system.backups ORDER BY start_time DESC LIMIT ?")
    );
    assert_eq!(
        in_progress_sql(),
        format!("SELECT {BACKUP_STATUS_COLUMNS} FROM system.backups WHERE status = 'CREATING_BACKUP'")
    );
}

#[test]
fn a_poll_without_a_row_ends_a_series_of_unrecognized_statuses() {
    let mut p = polling();
    for _ in 0..4 {
        assert!(matches!(found(&mut p, Some(status("RESTORING", ""))), PollStep::Sleep(_)));
    }
    assert!(matches!(found(&mut p, None), PollStep::Sleep(_)));
    for _ in 0..4 {
        assert!(matches!(found(&mut p, Some(status("RESTORING", ""))), PollStep::Sleep(_)));
    }
    match found(&mut p, Some(status("BACKUP_CREATED", ""))) {
        PollStep::Completed(row) => assert_eq!(row.status, "BACKUP_CREATED"),
        other => panic!("unexpected: {other:?}"),
    }
}
