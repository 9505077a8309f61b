use clickvault::backup::{BackupChain, BackupKind, BackupMetadata, METADATA_SCHEMA_VERSION};
use clickvault::time::Timestamp;

fn md(kind: BackupKind) -> BackupMetadata {
    BackupMetadata {
        version: METADATA_SCHEMA_VERSION,
        backup_id: "id".into(),
        kind,
        timestamp: Timestamp::from_parts(1_760_000_000, 0).unwrap(),
        base_backup_path: None,
        status: "BACKUP_CREATED".into(),
        total_size: 42,
        database: "db".into(),
        started_at: None,
        finished_at: None,
    }
}

#[test]
fn backup_kind_display() {
    assert_eq!(BackupKind::Full.to_string(), "full");
    assert_eq!(BackupKind::Incremental.to_string(), "incremental");
}

#[test]
fn chain_latest_returns_full_when_no_incrementals() {
    let chain = BackupChain {
        full_path: "full/f1/".into(),
        full: md(BackupKind::Full),
        incrementals: vec![],
    };
    assert_eq!(chain.latest().0, "full/f1/");
}

#[test]
fn chain_latest_returns_last_incremental() {
    let chain = BackupChain {
        full_path: "full/f1/".into(),
        full: md(BackupKind::Full),
        incrementals: vec![
            ("incremental/i1/".into(), md(BackupKind::Incremental)),
            ("incremental/i2/".into(), md(BackupKind::Incremental)),
        ],
    };
    assert_eq!(chain.latest().0, "incremental/i2/");
    assert_eq!(chain.latest().1.kind, BackupKind::Incremental);
}

#[test]
fn newer_schema_versions_are_recognized() {
    let mut meta = md(BackupKind::Full);
    assert!(!meta.is_newer_schema());
    meta.version = 0;
    assert!(!meta.is_newer_schema());
    meta.version = METADATA_SCHEMA_VERSION + 1;
    assert!(meta.is_newer_schema());
}

#[test]
fn cloned_metadata_keeps_every_field() {
    let mut meta = md(BackupKind::Incremental);
    meta.base_backup_path = Some("full/f1/".into());
    meta.started_at = Timestamp::from_parts(1_760_000_001, 5);
    let copy = meta.clone();
    assert_eq!(copy.version, 1);
    assert_eq!(copy.backup_id, "id");
    assert_eq!(copy.kind, BackupKind::Incremental);
    assert_eq!(copy.timestamp, meta.timestamp);
    assert_eq!(copy.base_backup_path.as_deref(), Some("full/f1/"));
    assert_eq!(copy.status, "BACKUP_CREATED");
    assert_eq!(copy.total_size, 42);
    assert_eq!(copy.database, "db");
    assert_eq!(copy.started_at, meta.started_at);
    assert_eq!(copy.finished_at, None);
}
