use chrono::{DateTime, TimeZone, Utc};
use clickvault::backup::{BackupKind, BackupMetadata};
use clickvault::config::S3Config;
use clickvault::deletion::{
    DeleteError, DeleteObjectsResult, DeleteOutcome, DeleteStep, DeletionStart, PrefixDeletion,
    batch_errored_keys, delete_prefix, list_for_delete, split_sidecar_last,
};
use clickvault::error::{ClickVaultError, MetadataReadError, S3Failure};
use clickvault::retry::RetryPolicy;
use clickvault::s3::{
    BucketFailure, RequestStep, bucket_error, build_bucket, classify_read_error, escape_sql_str,
    full_backup_path, incremental_backup_path, is_transient_s3, kind_prefix, list_prefixes,
    metadata_object, metadata_path, read_metadata, s3_sql_fragment, write_metadata,
};
use clickvault::time::{Duration, Timestamp};

fn stamp(t: DateTime<Utc>) -> Timestamp {
    Timestamp::from_parts(t.timestamp(), t.timestamp_subsec_nanos()).unwrap()
}

fn s3_config() -> S3Config {
    S3Config {
        endpoint: "https://s3.example.com".into(),
        clickhouse_endpoint: None,
        bucket: "my-bucket".into(),
        prefix: "backups".into(),
        region: "eu-central-1".into(),
        access_key: Some("AKIA".into()),
        secret_key: Some("secret".into()),
        path_style: false,
    }
}

fn http(status: u16) -> S3Failure {
    S3Failure::HttpFailWithBody(status, String::new())
}

#[test]
fn full_backup_path_with_and_without_prefix() {
    let ts = stamp(Utc.with_ymd_and_hms(2026, 1, 2, 3, 4, 5).unwrap());
    assert_eq!(
        full_backup_path("backups", &ts),
        "backups/full/20260102T030405000Z/"
    );
    assert_eq!(full_backup_path("", &ts), "full/20260102T030405000Z/");
}

#[test]
fn incremental_backup_path_with_and_without_prefix() {
    let ts = stamp(Utc.with_ymd_and_hms(2026, 1, 2, 3, 4, 5).unwrap());
    assert_eq!(
        incremental_backup_path("backups", &ts),
        "backups/incremental/20260102T030405000Z/"
    );
    assert_eq!(
        incremental_backup_path("", &ts),
        "incremental/20260102T030405000Z/"
    );
}

#[test]
fn paths_are_millisecond_unique_within_the_same_second() {
    let a = Utc.with_ymd_and_hms(2026, 1, 2, 3, 4, 5).unwrap();
    let b = a + chrono::Duration::milliseconds(123);
    let (a, b) = (stamp(a), stamp(b));
    assert_ne!(full_backup_path("p", &a), full_backup_path("p", &b));
    assert_eq!(full_backup_path("p", &b), "p/full/20260102T030405123Z/");
}

#[test]
fn metadata_path_appends_sidecar_filename() {
    assert_eq!(
        metadata_path("backups/full/20260102T030405000Z/"),
        "backups/full/20260102T030405000Z/.clickvault_meta.json"
    );
}

#[test]
fn escape_sql_str_escapes_quotes_and_backslashes() {
    assert_eq!(escape_sql_str("plain"), "plain");
    assert_eq!(escape_sql_str("O'Brien"), "O\\'Brien");
    assert_eq!(escape_sql_str("a\\b"), "a\\\\b");
    // Backslash is escaped before the quote so the result is unambiguous.
    assert_eq!(escape_sql_str("\\'"), "\\\\\\'");
}

#[test]
fn s3_sql_fragment_builds_expected_call() {
    let cfg = s3_config();
    assert_eq!(
        s3_sql_fragment(&cfg, "backups/full/x/"),
        "S3('https://s3.example.com/my-bucket/backups/full/x/', 'AKIA', 'secret')"
    );
}

#[test]
fn s3_sql_fragment_escapes_credentials() {
    let mut cfg = s3_config();
    cfg.secret_key = Some("se'cret".into());
    let frag = s3_sql_fragment(&cfg, "p/");
    assert!(frag.ends_with("'se\\'cret')"), "got: {frag}");
}

#[test]
fn s3_sql_fragment_uses_clickhouse_endpoint_override() {
    let mut cfg = s3_config();
    cfg.clickhouse_endpoint = Some("http://rustfs:9000".into());
    let frag = s3_sql_fragment(&cfg, "p/");
    assert!(
        frag.contains("http://rustfs:9000/my-bucket/p/"),
        "got: {frag}"
    );
}

#[test]
fn classify_read_error_treats_404_as_missing() {
    let missing = classify_read_error(S3Failure::HttpFailWithBody(404, String::new()));
    assert!(matches!(missing, MetadataReadError::Missing));

    let denied = classify_read_error(S3Failure::HttpFailWithBody(403, String::new()));
    assert!(matches!(denied, MetadataReadError::Unreadable(_)));

    let server_error = classify_read_error(S3Failure::HttpFailWithBody(500, String::new()));
    assert!(matches!(server_error, MetadataReadError::Unreadable(_)));
}

#[test]
fn split_sidecar_last_separates_metadata_from_data() {
    let prefix = "backups/full/20260102T030405000Z/";
    let sidecar = metadata_path(prefix);
    let keys = vec![
        format!("{prefix}data/part1"),
        sidecar.clone(),
        format!("{prefix}data/part2"),
    ];
    let (data, sidecars) = split_sidecar_last(keys, &sidecar);
    assert_eq!(
        data,
        vec![format!("{prefix}data/part1"), format!("{prefix}data/part2")]
    );
    assert_eq!(sidecars, vec![sidecar]);
}

#[test]
fn batch_errored_keys_extracts_only_error_entries() {
    // The response's Deleted list is deliberately empty (quiet-mode
    // shape) and must not matter: errors alone drive the accounting.
    let result = DeleteObjectsResult {
        deleted: vec![],
        errors: vec![
            DeleteError {
                key: "p/a".into(),
                code: "InternalError".into(),
                message: "boom".into(),
                version_id: None,
            },
            DeleteError {
                key: "p/b".into(),
                code: "AccessDenied".into(),
                message: "no".into(),
                version_id: None,
            },
        ],
    };
    assert_eq!(batch_errored_keys(&result), vec!["p/a", "p/b"]);

    let clean = DeleteObjectsResult {
        deleted: vec![],
        errors: vec![],
    };
    assert!(batch_errored_keys(&clean).is_empty());
}

#[test]
fn is_transient_s3_classifies_statuses() {
    assert!(is_transient_s3(&S3Failure::HttpFailWithBody(
        500,
        String::new()
    )));
    assert!(is_transient_s3(&S3Failure::HttpFailWithBody(
        503,
        String::new()
    )));
    assert!(is_transient_s3(&S3Failure::HttpFailWithBody(
        429,
        String::new()
    )));
    assert!(is_transient_s3(&S3Failure::HttpFailWithBody(
        408,
        String::new()
    )));
    assert!(!is_transient_s3(&S3Failure::HttpFailWithBody(
        404,
        String::new()
    )));
    assert!(!is_transient_s3(&S3Failure::HttpFailWithBody(
        403,
        String::new()
    )));
    assert!(is_transient_s3(&S3Failure::Io("x".into())));
    assert!(is_transient_s3(&S3Failure::Reqwest("x".into())));
    assert!(!is_transient_s3(&S3Failure::Other("x".into())));
    assert!(!is_transient_s3(&http(600)));
}

#[test]
fn delete_outcome_is_complete_only_without_failures() {
    assert!(
        DeleteOutcome {
            deleted: 3,
            failed: 0
        }
        .is_complete()
    );
    assert!(
        !DeleteOutcome {
            deleted: 3,
            failed: 1
        }
        .is_complete()
    );
}

#[test]
fn s3_sql_fragment_handles_missing_credentials() {
    let mut cfg = s3_config();
    cfg.access_key = None;
    cfg.secret_key = None;
    assert_eq!(
        s3_sql_fragment(&cfg, "p/"),
        "S3('https://s3.example.com/my-bucket/p/', '', '')"
    );
}

#[test]
fn bucket_settings_come_from_the_configuration() {
    let mut cfg = s3_config();
    cfg.path_style = true;
    let settings = build_bucket(&cfg);
    assert_eq!(settings.client_retries, 0);
    assert_eq!(settings.region, "eu-central-1");
    assert_eq!(settings.endpoint, "https://s3.example.com");
    assert_eq!(settings.bucket, "my-bucket");
    assert_eq!(settings.access_key.as_deref(), Some("AKIA"));
    assert_eq!(settings.secret_key.as_deref(), Some("secret"));
    assert!(settings.path_style);
    assert_eq!(
        bucket_error(BucketFailure::Credentials("bad".into())).message(),
        "Configuration error: Invalid S3 credentials: bad"
    );
    assert_eq!(
        bucket_error(BucketFailure::Handle("bad".into())).message(),
        "Configuration error: Failed to create S3 bucket handle: bad"
    );
}

#[test]
fn kinds_have_directories_of_their_own() {
    assert_eq!(kind_prefix("", BackupKind::Full), "full/");
    assert_eq!(kind_prefix("p", BackupKind::Full), "p/full/");
    assert_eq!(kind_prefix("p/q", BackupKind::Incremental), "p/q/incremental/");
}

fn metadata() -> BackupMetadata {
    BackupMetadata {
        version: 1,
        backup_id: "id".into(),
        kind: BackupKind::Full,
        timestamp: stamp(Utc.with_ymd_and_hms(2026, 1, 2, 3, 4, 5).unwrap()),
        base_backup_path: None,
        status: "BACKUP_CREATED".into(),
        total_size: 7,
        database: "db".into(),
        started_at: None,
        finished_at: None,
    }
}

#[test]
fn sidecars_are_written_next_to_the_data() {
    let put = metadata_object("p/full/x/", Ok("{}".into())).unwrap();
    assert_eq!(put.path, "p/full/x/.clickvault_meta.json");
    assert_eq!(put.body, "{}");
    match metadata_object("p/full/x/", Err("no JSON".into())) {
        Err(e) => assert_eq!(e.message(), "JSON error: no JSON"),
        Ok(_) => panic!("written"),
    }
    let policy = RetryPolicy::default();
    assert!(matches!(write_metadata(&policy, 0, Ok(())), RequestStep::Done(Ok(()))));
    assert!(matches!(write_metadata(&policy, 0, Err(http(503))), RequestStep::RetryAfter(_)));
    match write_metadata(&policy, 2, Err(http(503))) {
        RequestStep::Done(Err(e)) => {
            assert_eq!(e.message(), "S3 error: Got HTTP 503 with content ''")
        }
        other => panic!("unexpected: {other:?}"),
    }
    assert!(matches!(
        write_metadata(&policy, 0, Err(http(403))),
        RequestStep::Done(Err(ClickVaultError::S3(_)))
    ));
}

#[test]
fn sidecars_are_read_or_classified() {
    let policy = RetryPolicy::default();
    match read_metadata(&policy, 0, Ok(Ok(metadata()))) {
        RequestStep::Done(Ok(meta)) => assert_eq!(meta.total_size, 7),
        other => panic!("unexpected: {other:?}"),
    }
    match read_metadata(&policy, 0, Ok(Err("eof".into()))) {
        RequestStep::Done(Err(e)) => {
            assert_eq!(e.message(), "metadata sidecar could not be parsed: eof")
        }
        other => panic!("unexpected: {other:?}"),
    }
    assert!(matches!(
        read_metadata(&policy, 0, Err(http(404))),
        RequestStep::Done(Err(MetadataReadError::Missing))
    ));
    assert!(matches!(read_metadata(&policy, 1, Err(http(500))), RequestStep::RetryAfter(_)));
    match read_metadata(&policy, 2, Err(http(500))) {
        RequestStep::Done(Err(e)) => assert_eq!(
            e.message(),
            "metadata sidecar could not be read: Got HTTP 500 with content ''"
        ),
        other => panic!("unexpected: {other:?}"),
    }
}

#[test]
fn directories_of_all_pages_are_listed_in_order() {
    let policy = RetryPolicy::default();
    let pages = vec![
        vec!["p/c/".to_string(), "p/a/".to_string()],
        vec![],
        vec!["p/b/".to_string(), "p/\u{e9}/".to_string(), "p/".to_string()],
    ];
    match list_prefixes(&policy, 0, Ok(pages)) {
        RequestStep::Done(Ok(dirs)) => {
            assert_eq!(dirs, vec!["p/", "p/a/", "p/b/", "p/c/", "p/\u{e9}/"])
        }
        other => panic!("unexpected: {other:?}"),
    }
    assert!(matches!(
        list_prefixes(&policy, 0, Err(S3Failure::Reqwest("reset".into()))),
        RequestStep::RetryAfter(_)
    ));
    assert!(matches!(
        list_prefixes(&policy, 2, Err(S3Failure::Reqwest("reset".into()))),
        RequestStep::Done(Err(ClickVaultError::S3(_)))
    ));
}

fn policy(attempts: u32) -> RetryPolicy {
    RetryPolicy {
        attempts,
        base_delay: Duration::from_millis(1),
        max_delay: Duration::from_millis(2),
    }
}

fn begin(policy: &RetryPolicy, keys: &[&str]) -> PrefixDeletion {
    let pages = vec![keys.iter().map(|k| k.to_string()).collect()];
    match list_for_delete(policy, "p/", 0, Ok(pages)) {
        RequestStep::Done(DeletionStart::Begun(state)) => state,
        other => panic!("unexpected: {other:?}"),
    }
}

fn errors(keys: &[&str]) -> Result<DeleteObjectsResult, S3Failure> {
    Ok(DeleteObjectsResult {
        deleted: vec![],
        errors: keys
            .iter()
            .map(|k| DeleteError {
                key: k.to_string(),
                code: "InternalError".into(),
                message: "boom".into(),
                version_id: None,
            })
            .collect(),
    })
}

const SIDECAR: &str = "p/.clickvault_meta.json";

#[test]
fn the_sidecar_is_deleted_last() {
    let policy = policy(3);
    let mut state = begin(&policy, &["p/a", SIDECAR, "p/b"]);
    assert_eq!(state.first_step(), DeleteStep::Submit);
    assert_eq!(state.keys.pending_keys(), ["p/a", "p/b"]);
    // One key is retried.
    let step = delete_prefix(&policy, &mut state, errors(&["p/b"]));
    assert!(matches!(step, DeleteStep::SubmitAfter(d) if d <= Duration::from_millis(1)));
    assert_eq!(state.keys.pending_keys(), ["p/b"]);
    assert_eq!(delete_prefix(&policy, &mut state, errors(&[])), DeleteStep::Submit);
    assert_eq!(state.keys.pending_keys(), [SIDECAR]);
    assert_eq!(delete_prefix(&policy, &mut state, errors(&[])), DeleteStep::Finished);
    assert_eq!(state.keys.outcome, DeleteOutcome { deleted: 3, failed: 0 });
}

#[test]
fn a_failed_object_keeps_the_sidecar() {
    let policy = policy(2);
    let mut state = begin(&policy, &["p/a", "p/b", SIDECAR]);
    let step = delete_prefix(&policy, &mut state, errors(&["p/b"]));
    assert!(matches!(step, DeleteStep::SubmitAfter(_)));
    assert_eq!(delete_prefix(&policy, &mut state, errors(&["p/b"])), DeleteStep::Finished);
    assert_eq!(state.keys.outcome, DeleteOutcome { deleted: 1, failed: 2 });
    assert!(!state.keys.outcome.is_complete());
}

#[test]
fn failed_batch_requests_are_retried_if_transient() {
    let policy = policy(2);
    let mut state = begin(&policy, &["p/a", "p/b"]);
    let step = delete_prefix(&policy, &mut state, Err(http(503)));
    assert!(matches!(step, DeleteStep::SubmitAfter(_)));
    assert_eq!(state.keys.pending_keys().len(), 2);
    assert_eq!(delete_prefix(&policy, &mut state, Err(http(503))), DeleteStep::Finished);
    assert_eq!(state.keys.outcome, DeleteOutcome { deleted: 0, failed: 2 });

    let mut state = begin(&policy, &["p/a", SIDECAR]);
    assert_eq!(delete_prefix(&policy, &mut state, Err(http(403))), DeleteStep::Finished);
    assert_eq!(state.keys.outcome, DeleteOutcome { deleted: 0, failed: 2 });
}

#[test]
fn deletion_of_nothing_or_without_attempts_ends_at_once() {
    let state = begin(&policy(3), &[]);
    assert_eq!(state.first_step(), DeleteStep::Finished);
    assert_eq!(state.keys.outcome, DeleteOutcome::default());
    // The sidecar alone is deleted at once.
    let state = begin(&policy(3), &[SIDECAR]);
    assert_eq!(state.first_step(), DeleteStep::Submit);
    assert_eq!(state.keys.pending_keys(), [SIDECAR]);
    let state = begin(&policy(0), &["p/a", SIDECAR]);
    assert_eq!(state.first_step(), DeleteStep::Finished);
    assert_eq!(state.keys.outcome, DeleteOutcome { deleted: 0, failed: 2 });
}

#[test]
fn keys_that_cannot_be_listed_are_an_error() {
    let policy = policy(2);
    assert!(matches!(
        list_for_delete(&policy, "p/", 0, Err(http(500))),
        RequestStep::RetryAfter(_)
    ));
    match list_for_delete(&policy, "p/", 1, Err(http(500))) {
        RequestStep::Done(DeletionStart::Failed(e)) => {
            assert_eq!(e.message(), "S3 error: Got HTTP 500 with content ''")
        }
        other => panic!("unexpected: {other:?}"),
    }
}
