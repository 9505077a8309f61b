//! The errors of the library and what they say.
use vstd::prelude::*;
use vstd::string::*;

use crate::text::{decimal, decimal_text};

verus! {

/// Why an S3 request failed. Except for an HTTP status with its body, the text is what the S3
/// client says of the failure.
#[derive(Debug)]
pub enum S3Failure {
    /// The server answered with a status other than success, and a body.
    HttpFailWithBody(u16, String),
    /// The request could not be carried out.
    Reqwest(String),
    /// Reading or writing failed.
    Io(String),
    /// Any other failure.
    Other(String),
}

impl S3Failure {
    /// What the failure says.
    pub open spec fn text(self) -> Seq<char> {
        match self {
            S3Failure::HttpFailWithBody(status, body) => http_fail_text(status as nat, body@),
            S3Failure::Reqwest(text) => text@,
            S3Failure::Io(text) => text@,
            S3Failure::Other(text) => text@,
        }
    }

    /// What the failure says.
    pub fn message(&self) -> (r: String)
        ensures
            r@ == self.text(),
    {
        match self {
            S3Failure::HttpFailWithBody(status, body) => http_fail_message(*status, body.as_str()),
            S3Failure::Reqwest(text) => text.clone(),
            S3Failure::Io(text) => text.clone(),
            S3Failure::Other(text) => text.clone(),
        }
    }
}

/// What an HTTP failure with a status and a body says.
pub open spec fn http_fail_text(status: nat, body: Seq<char>) -> Seq<char> {
    "Got HTTP "@ + decimal_text(status) + " with content '"@ + body + "'"@
}

/// This is the `Display` text of rust-s3's `S3Error::HttpFailWithBody`: the status in decimal
/// notation and the body, in a fixed sentence.
#[verifier::external_body]
fn http_fail_message(status: u16, body: &str) -> (r: String)
    ensures
        r@ == http_fail_text(status as nat, body@),
{
    ::s3::error::S3Error::HttpFailWithBody(status, body.to_string()).to_string()
}

/// Why a ClickHouse query failed. The text is what the ClickHouse client says of the failure.
#[derive(Debug)]
pub enum ClickHouseFailure {
    /// The server could not be reached.
    Network(String),
    /// The server did not answer in time.
    TimedOut(String),
    /// Any other failure.
    Other(String),
}

impl ClickHouseFailure {
    /// What the failure says.
    pub open spec fn text(self) -> Seq<char> {
        match self {
            ClickHouseFailure::Network(text) => text@,
            ClickHouseFailure::TimedOut(text) => text@,
            ClickHouseFailure::Other(text) => text@,
        }
    }

    /// What the failure says.
    pub fn message(&self) -> (r: String)
        ensures
            r@ == self.text(),
    {
        match self {
            ClickHouseFailure::Network(text) => text.clone(),
            ClickHouseFailure::TimedOut(text) => text.clone(),
            ClickHouseFailure::Other(text) => text.clone(),
        }
    }
}

/// Why a metadata sidecar could not be turned into metadata.
///
/// The distinction matters for cleanup: a `Missing` sidecar is a true orphan (the backup was never
/// visible to discovery), while `Invalid` and `Unreadable` mean that a real backup exists which
/// cannot be accounted for at the moment.
#[derive(Debug)]
pub enum MetadataReadError {
    /// There is no sidecar.
    Missing,
    /// The sidecar is not valid JSON metadata; the text says why.
    Invalid(String),
    /// The sidecar could not be fetched.
    Unreadable(S3Failure),
}

impl MetadataReadError {
    /// What the error says.
    pub open spec fn text(self) -> Seq<char> {
        match self {
            MetadataReadError::Missing => "metadata sidecar is missing"@,
            MetadataReadError::Invalid(text) => "metadata sidecar could not be parsed: "@ + text@,
            MetadataReadError::Unreadable(failure) => "metadata sidecar could not be read: "@
                + failure.text(),
        }
    }

    /// What the error says.
    pub fn message(&self) -> (r: String)
        ensures
            r@ == self.text(),
    {
        match self {
            MetadataReadError::Missing => "metadata sidecar is missing".to_string(),
            MetadataReadError::Invalid(text) => {
                let mut r = "metadata sidecar could not be parsed: ".to_string();
                r.append(text.as_str());
                r
            },
            MetadataReadError::Unreadable(failure) => {
                let mut r = "metadata sidecar could not be read: ".to_string();
                r.append(failure.message().as_str());
                r
            },
        }
    }
}

/// What can go wrong in a run of the program.
#[derive(Debug)]
pub enum ClickVaultError {
    /// A ClickHouse query failed.
    ClickHouse(ClickHouseFailure),
    /// An S3 request failed.
    S3(S3Failure),
    /// The configuration cannot be used; the text says why.
    Config(String),
    /// A backup ended without success.
    BackupFailed { status: String, message: String },
    /// There is no backup that an incremental backup could be based on.
    NoBaseBackup,
    /// Another backup with this id is running.
    BackupInProgress(String),
    /// A notification could not be sent; the text says why.
    Notification(String),
    /// Reading or writing failed; the text says why.
    Io(String),
    /// A value could not be written as JSON; the text says why.
    Json(String),
    /// The server no longer knows the backup.
    BackupStateLost { id: String, polls: u32 },
    /// The backup at the path exists, but its metadata cannot be had.
    MetadataUnavailable { path: String, source: MetadataReadError },
}

impl ClickVaultError {
    /// What the error says.
    pub open spec fn text(self) -> Seq<char> {
        match self {
            ClickVaultError::ClickHouse(failure) => "ClickHouse error: "@ + failure.text(),
            ClickVaultError::S3(failure) => "S3 error: "@ + failure.text(),
            ClickVaultError::Config(text) => "Configuration error: "@ + text@,
            ClickVaultError::BackupFailed { status, message } => "Backup failed with status "@
                + status@ + ": "@ + message@,
            ClickVaultError::NoBaseBackup => "No base backup found for incremental backup"@,
            ClickVaultError::BackupInProgress(id) => "A backup is already in progress (id: "@ + id@
                + ")"@,
            ClickVaultError::Notification(text) => "Notification error: "@ + text@,
            ClickVaultError::Io(text) => "IO error: "@ + text@,
            ClickVaultError::Json(text) => "JSON error: "@ + text@,
            ClickVaultError::BackupStateLost { id, polls } => "backup "@ + id@
                + " disappeared from system.backups after "@ + decimal_text(polls as nat)
                + " consecutive polls (was the ClickHouse server restarted?)"@,
            ClickVaultError::MetadataUnavailable { path, source } => "cannot verify backup at "@
                + path@ + ": "@ + source.text(),
        }
    }

    /// What the error says.
    pub fn message(&self) -> (r: String)
        ensures
            r@ == self.text(),
    {
        match self {
            ClickVaultError::ClickHouse(failure) => {
                let mut r = "ClickHouse error: ".to_string();
                r.append(failure.message().as_str());
                r
            },
            ClickVaultError::S3(failure) => {
                let mut r = "S3 error: ".to_string();
                r.append(failure.message().as_str());
                r
            },
            ClickVaultError::Config(text) => {
                let mut r = "Configuration error: ".to_string();
                r.append(text.as_str());
                r
            },
            ClickVaultError::BackupFailed { status, message } => {
                let mut r = "Backup failed with status ".to_string();
                r.append(status.as_str());
                r.append(": ");
                r.append(message.as_str());
                r
            },
            ClickVaultError::NoBaseBackup => "No base backup found for incremental backup".to_string(),
            ClickVaultError::BackupInProgress(id) => {
                let mut r = "A backup is already in progress (id: ".to_string();
                r.append(id.as_str());
                r.append(")");
                r
            },
            ClickVaultError::Notification(text) => {
                let mut r = "Notification error: ".to_string();
                r.append(text.as_str());
                r
            },
            ClickVaultError::Io(text) => {
                let mut r = "IO error: ".to_string();
                r.append(text.as_str());
                r
            },
            ClickVaultError::Json(text) => {
                let mut r = "JSON error: ".to_string();
                r.append(text.as_str());
                r
            },
            ClickVaultError::BackupStateLost { id, polls } => {
                let mut r = "backup ".to_string();
                r.append(id.as_str());
                r.append(" disappeared from system.backups after ");
                r.append(decimal(*polls as u64).as_str());
                r.append(" consecutive polls (was the ClickHouse server restarted?)");
                r
            },
            ClickVaultError::MetadataUnavailable { path, source } => {
                let mut r = "cannot verify backup at ".to_string();
                r.append(path.as_str());
                r.append(": ");
                r.append(source.message().as_str());
                r
            },
        }
    }
}

/// An error says what caused it: its text ends in what the failure says.
pub proof fn law_errors_tell_their_cause(
    server: ClickHouseFailure,
    storage: S3Failure,
    sidecar: MetadataReadError,
    path: String,
    text: String,
    status: String,
)
    ensures
        server.text().is_suffix_of(ClickVaultError::ClickHouse(server).text()),
        storage.text().is_suffix_of(ClickVaultError::S3(storage).text()),
        storage.text().is_suffix_of(MetadataReadError::Unreadable(storage).text()),
        text@.is_suffix_of(MetadataReadError::Invalid(text).text()),
        text@.is_suffix_of(ClickVaultError::Config(text).text()),
        text@.is_suffix_of(ClickVaultError::Notification(text).text()),
        text@.is_suffix_of(ClickVaultError::Io(text).text()),
        text@.is_suffix_of(ClickVaultError::Json(text).text()),
        (status@ + ": "@ + text@).is_suffix_of(
            (ClickVaultError::BackupFailed { status, message: text }).text(),
        ),
        (path@ + ": "@ + sidecar.text()).is_suffix_of(
            (ClickVaultError::MetadataUnavailable { path, source: sidecar }).text(),
        ),
        (text@ + ")"@).is_suffix_of(ClickVaultError::BackupInProgress(text).text()),
{
    lemma_ends_in("ClickHouse error: "@, server.text());
    lemma_ends_in("S3 error: "@, storage.text());
    lemma_ends_in("metadata sidecar could not be read: "@, storage.text());
    lemma_ends_in("metadata sidecar could not be parsed: "@, text@);
    lemma_ends_in("Configuration error: "@, text@);
    lemma_ends_in("Notification error: "@, text@);
    lemma_ends_in("IO error: "@, text@);
    lemma_ends_in("JSON error: "@, text@);
    let failed = "Backup failed with status "@;
    lemma_ends_in(failed, status@ + ": "@ + text@);
    assert(failed + (status@ + ": "@ + text@) =~= failed + status@ + ": "@ + text@);
    let unverified = "cannot verify backup at "@;
    lemma_ends_in(unverified, path@ + ": "@ + sidecar.text());
    assert(unverified + (path@ + ": "@ + sidecar.text()) =~= unverified + path@ + ": "@
        + sidecar.text());
    let busy = "A backup is already in progress (id: "@;
    lemma_ends_in(busy, text@ + ")"@);
    assert(busy + (text@ + ")"@) =~= busy + text@ + ")"@);
}

proof fn lemma_ends_in(start: Seq<char>, end: Seq<char>)
    ensures
        end.is_suffix_of(start + end),
{
    let whole = start + end;
    assert(whole.subrange(whole.len() - end.len(), whole.len() as int) =~= end);
}

/// What a client says of a failure is handed on as it is, whatever kind of failure it is.
pub proof fn law_clients_are_quoted(text: String)
    ensures
        ClickHouseFailure::Network(text).text() == text@,
        ClickHouseFailure::TimedOut(text).text() == text@,
        ClickHouseFailure::Other(text).text() == text@,
        S3Failure::Reqwest(text).text() == text@,
        S3Failure::Io(text).text() == text@,
        S3Failure::Other(text).text() == text@,
{
}

/// Where the server lost a backup, the error names the backup first and then how many polls in a
/// row missed it.
pub proof fn law_lost_backups_are_named(id: String, polls: u32)
    ensures
        ({
            let text = (ClickVaultError::BackupStateLost { id, polls }).text();
            let start = "backup "@ + id@ + " disappeared from system.backups after "@;
            start.is_prefix_of(text) && (start + decimal_text(polls as nat)).is_prefix_of(text)
        }),
{
    let text = (ClickVaultError::BackupStateLost { id, polls }).text();
    let start = "backup "@ + id@ + " disappeared from system.backups after "@;
    let more = start + decimal_text(polls as nat);
    assert(text.subrange(0, start.len() as int) =~= start);
    assert(text.subrange(0, more.len() as int) =~= more);
}

} // verus!
