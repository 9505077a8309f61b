use clickvault::error::{ClickHouseFailure, ClickVaultError, MetadataReadError, S3Failure};

#[test]
fn failures_say_what_their_clients_say() {
    assert_eq!(
        S3Failure::HttpFailWithBody(403, "<Error/>".into()).message(),
        "Got HTTP 403 with content '<Error/>'"
    );
    assert_eq!(
        S3Failure::HttpFailWithBody(403, "<Error/>".into()).message(),
        s3::error::S3Error::HttpFailWithBody(403, "<Error/>".into()).to_string()
    );
    assert_eq!(S3Failure::Reqwest("r".into()).message(), "r");
    assert_eq!(S3Failure::Io("i".into()).message(), "i");
    assert_eq!(S3Failure::Other("o".into()).message(), "o");
    assert_eq!(ClickHouseFailure::Network("n".into()).message(), "n");
    assert_eq!(ClickHouseFailure::TimedOut("t".into()).message(), "t");
    assert_eq!(ClickHouseFailure::Other("o".into()).message(), "o");
}

#[test]
fn errors_say_what_went_wrong() {
    let s3 = || S3Failure::Other("boom".into());
    let cases = [
        (
            ClickVaultError::ClickHouse(ClickHouseFailure::Other("x".into())),
            "ClickHouse error: x",
        ),
        (ClickVaultError::S3(s3()), "S3 error: boom"),
        (ClickVaultError::Config("x".into()), "Configuration error: x"),
        (
            ClickVaultError::BackupFailed { status: "S".into(), message: "m".into() },
            "Backup failed with status S: m",
        ),
        (ClickVaultError::NoBaseBackup, "No base backup found for incremental backup"),
        (
            ClickVaultError::BackupInProgress("b".into()),
            "A backup is already in progress (id: b)",
        ),
        (ClickVaultError::Notification("x".into()), "Notification error: x"),
        (ClickVaultError::Io("x".into()), "IO error: x"),
        (ClickVaultError::Json("x".into()), "JSON error: x"),
        (
            ClickVaultError::BackupStateLost { id: "b".into(), polls: 12 },
            "backup b disappeared from system.backups after 12 consecutive polls (was the ClickHouse server restarted?)",
        ),
        (
            ClickVaultError::MetadataUnavailable {
                path: "p/".into(),
                source: MetadataReadError::Missing,
            },
            "cannot verify backup at p/: metadata sidecar is missing",
        ),
        (
            ClickVaultError::MetadataUnavailable {
                path: "p/".into(),
                source: MetadataReadError::Unreadable(s3()),
            },
            "cannot verify backup at p/: metadata sidecar could not be read: boom",
        ),
    ];
    for (error, text) in cases {
        assert_eq!(error.message(), text);
    }
}
