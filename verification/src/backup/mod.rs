//! Backups, their metadata and the chains that they form.
pub mod chain_laws;
pub mod discovery;
pub mod executor;
pub mod growth_laws;
pub mod membership_laws;
pub mod progress;

use vstd::prelude::*;

use crate::time::Timestamp;

verus! {

/// The version of the metadata schema that this library writes. Sidecars without a version are of
/// version 0.
pub const METADATA_SCHEMA_VERSION: u32 = 1;

/// Whether a backup holds everything or only what changed since another backup.
#[derive(Clone, Copy, Debug, PartialEq, Eq, Structural)]
pub enum BackupKind {
    Full,
    Incremental,
}

impl BackupKind {
    /// The name of the kind.
    pub open spec fn text(self) -> Seq<char> {
        match self {
            BackupKind::Full => "full"@,
            BackupKind::Incremental => "incremental"@,
        }
    }

    /// The name of the kind.
    pub fn to_string(&self) -> (r: String)
        ensures
            r@ == self.text(),
    {
        match self {
            BackupKind::Full => "full".to_owned(),
            BackupKind::Incremental => "incremental".to_owned(),
        }
    }
}

/// What the metadata sidecar of a backup records.
#[derive(Debug)]
pub struct BackupMetadata {
    /// The version of the metadata schema.
    pub version: u32,
    pub backup_id: String,
    pub kind: BackupKind,
    /// When the backup was submitted.
    pub timestamp: Timestamp,
    /// S3 path of the backup that this one is based on (for incremental backups).
    pub base_backup_path: Option<String>,
    pub status: String,
    pub total_size: u64,
    pub database: String,
    /// When the server started the backup.
    pub started_at: Option<Timestamp>,
    /// When the server finished the backup.
    pub finished_at: Option<Timestamp>,
}

impl BackupMetadata {
    /// The path of the base backup, if there is one.
    pub open spec fn base(self) -> Option<Seq<char>> {
        match self.base_backup_path {
            Some(path) => Some(path@),
            None => None,
        }
    }

    /// Whether the sidecar was written under a schema that this library does not know.
    pub fn is_newer_schema(&self) -> (r: bool)
        ensures
            r == (self.version > METADATA_SCHEMA_VERSION),
    {
        self.version > METADATA_SCHEMA_VERSION
    }
}

impl Clone for BackupMetadata {
    fn clone(&self) -> (r: Self)
        ensures
            r == *self,
    {
        BackupMetadata {
            version: self.version,
            backup_id: self.backup_id.clone(),
            kind: self.kind,
            timestamp: self.timestamp,
            base_backup_path: match &self.base_backup_path {
                Some(path) => Some(path.clone()),
                None => None,
            },
            status: self.status.clone(),
            total_size: self.total_size,
            database: self.database.clone(),
            started_at: self.started_at,
            finished_at: self.finished_at,
        }
    }
}

/// A full backup and all incremental backups chained to it.
#[derive(Debug)]
pub struct BackupChain {
    pub full_path: String,
    pub full: BackupMetadata,
    /// Incrementals ordered by timestamp (oldest first).
    pub incrementals: Vec<(String, BackupMetadata)>,
}

/// What a chain holds.
pub struct ChainModel {
    pub full_path: Seq<char>,
    pub full: BackupMetadata,
    pub incrementals: Seq<(String, BackupMetadata)>,
}

impl View for BackupChain {
    type V = ChainModel;

    open spec fn view(&self) -> ChainModel {
        ChainModel {
            full_path: self.full_path@,
            full: self.full,
            incrementals: self.incrementals@,
        }
    }
}

impl ChainModel {
    /// The path of the most recent backup in the chain: the last incremental, or the full backup
    /// where there is none.
    pub open spec fn latest_path(self) -> Seq<char> {
        if self.incrementals.len() > 0 {
            self.incrementals.last().0@
        } else {
            self.full_path
        }
    }

    /// The metadata of the most recent backup in the chain.
    pub open spec fn latest(self) -> BackupMetadata {
        if self.incrementals.len() > 0 {
            self.incrementals.last().1
        } else {
            self.full
        }
    }
}

impl BackupChain {
    /// Returns the most recent backup in this chain (the latest incremental, or the full if none).
    pub fn latest(&self) -> (r: (&str, &BackupMetadata))
        ensures
            r.0@ == self@.latest_path(),
            *r.1 == self@.latest(),
    {
        let n = self.incrementals.len();
        if n > 0 {
            let entry = &self.incrementals[n - 1];
            (entry.0.as_str(), &entry.1)
        } else {
            (self.full_path.as_str(), &self.full)
        }
    }
}

/// What a sidecar names as its base is the base, and a sidecar that names none has none.
pub proof fn law_bases_are_those_of_the_sidecar(meta: BackupMetadata)
    ensures
        meta.base() is Some <==> meta.base_backup_path is Some,
        meta.base_backup_path matches Some(path) ==> meta.base() == Some(path@),
{
}

/// A chain is seen as what it holds.
pub proof fn law_chains_are_seen_as_they_are(chain: BackupChain)
    ensures
        chain@.full_path == chain.full_path@,
        chain@.full == chain.full,
        chain@.incrementals == chain.incrementals@,
{
}

} // verus!
