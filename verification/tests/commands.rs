use clickvault::backup::progress::BackupStatus;
use clickvault::backup::{BackupChain, BackupKind, BackupMetadata};
use clickvault::commands::{list_lines, status_lines};
use clickvault::time::Timestamp;

fn md(kind: BackupKind, secs: i64, nanos: u32) -> BackupMetadata {
    BackupMetadata {
        version: 1,
        backup_id: "id".into(),
        kind,
        timestamp: Timestamp::from_parts(secs, nanos).unwrap(),
        base_backup_path: None,
        status: "BACKUP_CREATED".into(),
        total_size: 1234,
        database: "db".into(),
        started_at: None,
        finished_at: None,
    }
}

#[test]
fn backups_are_listed_chain_by_chain() {
    let chains = vec![
        BackupChain {
            full_path: "full/b/".into(),
            full: md(BackupKind::Full, 1_767_323_045, 500_000_000),
            incrementals: vec![("incremental/i/".into(), md(BackupKind::Incremental, 1_767_323_046, 0))],
        },
        BackupChain {
            full_path: "full/a/".into(),
            full: md(BackupKind::Full, 0, 0),
            incrementals: vec![],
        },
    ];
    assert_eq!(
        list_lines(&chains, false),
        vec![
            "FULL  full/b/ | 2026-01-02 03:04:05.500 UTC | 1234 bytes | BACKUP_CREATED",
            "  INCR  incremental/i/ | 2026-01-02 03:04:06 UTC | 1234 bytes | BACKUP_CREATED",
            "FULL  full/a/ | 1970-01-01 00:00:00 UTC | 1234 bytes | BACKUP_CREATED",
        ]
    );
    assert_eq!(list_lines(&chains, true).len(), 2);
    assert_eq!(list_lines(&vec![], false), vec!["No backups found."]);
}

#[test]
fn the_status_table_is_aligned() {
    let row = |id: &str, size| BackupStatus {
        id: id.into(),
        status: "BACKUP_CREATED".into(),
        start_time: "2026-01-02 03:04:05".into(),
        end_time: "".into(),
        start_ts: 0,
        end_ts: 0,
        total_size: size,
        error: "\u{e9}".into(),
    };
    let rows = vec![row("b1", 5), row(&"x".repeat(40), 1_234_567_890_123)];
    let lines = status_lines(&rows);
    let line = |id: &str, status: &str, start: &str, end: &str, size: &str, error: &str| {
        format!("{id:<38} {status:<18} {start:<22} {end:<22} {size:>12}  {error}")
    };
    assert_eq!(lines.len(), 4);
    assert_eq!(lines[0], line("ID", "STATUS", "START", "END", "SIZE", "ERROR"));
    assert_eq!(lines[1], "-".repeat(130));
    let start = "2026-01-02 03:04:05";
    assert_eq!(lines[2], line("b1", "BACKUP_CREATED", start, "", "5", "\u{e9}"));
    let long = "x".repeat(40);
    assert_eq!(
        lines[3],
        line(&long, "BACKUP_CREATED", start, "", "1234567890123", "\u{e9}")
    );
    assert_eq!(
        status_lines(&vec![]),
        vec!["No backup records found in system.backups."]
    );
}
