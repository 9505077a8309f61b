//! Running a backup: the plan, its SQL, and the steps from the first check to the recorded result.
use vstd::prelude::*;
use vstd::string::*;

use super::discovery::{full_backup_due, full_is_due, models};
use super::progress::{
    BackupStatus, PollEvent, PollStep, Polling, counted, due_step, found_step,
    is_backup_failure, is_epoch_secs, poll_until_complete, sighting,
};
use super::{BackupChain, BackupKind, BackupMetadata, ChainModel, METADATA_SCHEMA_VERSION};
use crate::config::{Config, S3Config};
use crate::error::{ClickHouseFailure, ClickVaultError};
use crate::s3::{
    backup_path, clickhouse_url, fragment, is_transient, is_transient_s3,
    law_fragments_are_read_back, new_backup_path, read_s3_call, s3_sql_fragment, text_of,
};
use crate::text::{has_prefix, has_prefix_char};
use crate::time::{Duration, Timestamp};

verus! {

/// How often writing the metadata sidecar is tried.
pub const METADATA_WRITE_ATTEMPTS: u32 = 3;

/// How many seconds pass between two tries to write the metadata sidecar.
pub const METADATA_WRITE_RETRY_SECS: u64 = 2;

/// An identifier with every backtick doubled.
pub open spec fn doubled_ticks(s: Seq<char>) -> Seq<char>
    decreases s.len(),
{
    if s.len() == 0 {
        Seq::empty()
    } else if s[0] == '`' {
        seq!['`', '`'] + doubled_ticks(s.skip(1))
    } else {
        seq![s[0]] + doubled_ticks(s.skip(1))
    }
}

/// An identifier as it stands in a statement.
pub open spec fn quoted(ident: Seq<char>) -> Seq<char> {
    seq!['`'] + doubled_ticks(ident) + seq!['`']
}

/// Quotes a ClickHouse identifier with backticks, escaping any embedded backticks.
pub fn quote_ident(ident: &str) -> (r: String)
    ensures
        r@ == quoted(ident@),
{
    let v = crate::text::chars(ident);
    let mut r = String::new();
    r.push('`');
    let ghost tick = seq!['`'];
    let mut i: usize = 0;
    assert(v@.skip(0) =~= v@);
    assert(r@ =~= tick);
    while i < v.len()
        invariant
            i <= v@.len(),
            tick + doubled_ticks(v@) == r@ + doubled_ticks(v@.skip(i as int)),
        decreases v@.len() - i,
    {
        let c = v[i];
        let ghost before = r@;
        let ghost rest = doubled_ticks(v@.skip(i + 1));
        if c == '`' {
            r.push('`');
        }
        r.push(c);
        proof {
            assert(v@.skip(i as int).skip(1) =~= v@.skip(i + 1));
            if c == '`' {
                assert(before + (seq!['`', '`'] + rest) =~= r@ + rest);
            } else {
                assert(before + (seq![c] + rest) =~= r@ + rest);
            }
        }
        i = i + 1;
    }
    assert(r@ + doubled_ticks(v@.skip(i as int)) =~= r@);
    r.push('`');
    assert(r@ =~= quoted(ident@));
    r
}

/// What is read from behind the opening backtick of an identifier: the identifier up to the
/// closing backtick, and what follows it. Two backticks stand for one.
pub open spec fn read_ident(s: Seq<char>) -> Option<(Seq<char>, Seq<char>)>
    decreases s.len(),
{
    if s.len() == 0 {
        None
    } else if s[0] != '`' {
        match read_ident(s.skip(1)) {
            Some((ident, rest)) => Some((seq![s[0]] + ident, rest)),
            None => None,
        }
    } else if s.len() > 1 && s[1] == '`' {
        match read_ident(s.skip(2)) {
            Some((ident, rest)) => Some((seq!['`'] + ident, rest)),
            None => None,
        }
    } else {
        Some((Seq::empty(), s.skip(1)))
    }
}

/// A quoted identifier within a statement is read back as it was: no character of it can end the
/// identifier early or reach beyond it.
pub proof fn law_quoted_identifiers_are_read_back(ident: Seq<char>, rest: Seq<char>)
    requires
        !has_prefix_char(rest, '`'),
    ensures
        (quoted(ident) + rest)[0] == '`',
        read_ident((quoted(ident) + rest).skip(1)) == Some((ident, rest)),
{
    lemma_doubled_ticks_are_read_back(ident, rest);
    assert((quoted(ident) + rest).skip(1) =~= doubled_ticks(ident) + seq!['`'] + rest);
}

proof fn lemma_doubled_ticks_are_read_back(ident: Seq<char>, rest: Seq<char>)
    requires
        !has_prefix_char(rest, '`'),
    ensures
        read_ident(doubled_ticks(ident) + seq!['`'] + rest) == Some((ident, rest)),
    decreases ident.len(),
{
    let s = doubled_ticks(ident) + seq!['`'] + rest;
    if ident.len() == 0 {
        assert(s.skip(1) =~= rest);
        if s.len() > 1 {
            assert(s[1] == rest[0]);
        }
    } else {
        let tail = doubled_ticks(ident.skip(1)) + seq!['`'] + rest;
        lemma_doubled_ticks_are_read_back(ident.skip(1), rest);
        if ident[0] == '`' {
            assert(s[0] == '`' && s[1] == '`');
            assert(s.skip(2) =~= tail);
        } else {
            assert(s[0] == ident[0]);
            assert(s.skip(1) =~= tail);
        }
        assert(seq![ident[0]] + ident.skip(1) =~= ident);
    }
}

/// What is going to be backed up where.
#[derive(Debug)]
pub struct BackupPlan {
    pub kind: BackupKind,
    pub path: String,
    /// The path of the backup that an incremental backup is based on.
    pub base: Option<String>,
    /// When the backup was planned.
    pub timestamp: Timestamp,
    /// The statement that starts the backup.
    pub sql: String,
}

/// The statement that starts a backup of the configured database.
pub open spec fn backup_statement(config: Config, path: Seq<char>, base: Option<Seq<char>>) -> Seq<
    char,
> {
    let start = "BACKUP DATABASE "@ + quoted(config.clickhouse.database@) + " TO "@ + fragment(
        config.s3,
        path,
    );
    match base {
        None => start + " ASYNC"@,
        Some(base) => start + " SETTINGS base_backup = "@ + fragment(config.s3, base) + " ASYNC"@,
    }
}

/// What a statement that starts a backup says.
#[verifier::ext_equal]
pub struct StatementModel {
    /// The database that is backed up.
    pub database: Seq<char>,
    /// Where the backup goes: the URL and the two keys.
    pub target: (Seq<char>, Seq<char>, Seq<char>),
    /// What the backup is based on, if anything.
    pub base: Option<(Seq<char>, Seq<char>, Seq<char>)>,
}

/// What is read of the end of a statement, from behind the call that names the target.
pub open spec fn read_base(s: Seq<char>) -> Option<Option<(Seq<char>, Seq<char>, Seq<char>)>> {
    if s == " ASYNC"@ {
        Some(None)
    } else if !has_prefix(s, " SETTINGS base_backup = "@) {
        None
    } else {
        match read_s3_call(s.skip(24)) {
            None => None,
            Some((url, access_key, secret_key, rest)) => if rest == " ASYNC"@ {
                Some(Some((url, access_key, secret_key)))
            } else {
                None
            },
        }
    }
}

/// What is read of a statement that starts a backup.
pub open spec fn read_statement(s: Seq<char>) -> Option<StatementModel> {
    if !has_prefix(s, "BACKUP DATABASE `"@) {
        None
    } else {
        match read_ident(s.skip(17)) {
            None => None,
            Some((database, a)) => if !has_prefix(a, " TO "@) {
                None
            } else {
                match read_s3_call(a.skip(4)) {
                    None => None,
                    Some((url, access_key, secret_key, b)) => match read_base(b) {
                        None => None,
                        Some(base) => Some(
                            StatementModel { database, target: (url, access_key, secret_key), base },
                        ),
                    },
                }
            },
        }
    }
}

/// A path with the credentials for it, as a statement names it.
pub open spec fn place(config: S3Config, path: Seq<char>) -> (Seq<char>, Seq<char>, Seq<char>) {
    (clickhouse_url(config, path), text_of(config.access_key), text_of(config.secret_key))
}

/// A statement says what it was built from, whatever characters the database's name, the paths
/// and the credentials hold: the database, the target, and the base if there is one.
pub proof fn law_statements_are_read_back(
    config: Config,
    path: Seq<char>,
    base: Option<Seq<char>>,
)
    ensures
        read_statement(backup_statement(config, path, base)) == Some(
            StatementModel {
                database: config.clickhouse.database@,
                target: place(config.s3, path),
                base: match base {
                    None => None,
                    Some(base) => Some(place(config.s3, base)),
                },
            },
        ),
{
    reveal_strlit("BACKUP DATABASE ");
    reveal_strlit("BACKUP DATABASE `");
    reveal_strlit(" TO ");
    reveal_strlit(" ASYNC");
    reveal_strlit(" SETTINGS base_backup = ");
    let database = config.clickhouse.database@;
    let (url, access_key, secret_key) = place(config.s3, path);
    let s = backup_statement(config, path, base);
    let b = match base {
        None => " ASYNC"@,
        Some(base) => " SETTINGS base_backup = "@ + fragment(config.s3, base) + " ASYNC"@,
    };
    let a = " TO "@ + fragment(config.s3, path) + b;
    assert(s =~= "BACKUP DATABASE "@ + quoted(database) + a);
    assert(s.take(17) =~= "BACKUP DATABASE `"@);
    law_quoted_identifiers_are_read_back(database, a);
    assert(s.skip(17) =~= (quoted(database) + a).skip(1));
    assert(a.take(4) =~= " TO "@);
    assert(a.skip(4) =~= fragment(config.s3, path) + b);
    law_fragments_are_read_back(url, access_key, secret_key, b);
    if base is Some {
        let (url, access_key, secret_key) = place(config.s3, base->0);
        assert(b[1] == 'S' && " ASYNC"@[1] == 'A');
        assert(b.take(24) =~= " SETTINGS base_backup = "@);
        assert(b.skip(24) =~= fragment(config.s3, base->0) + " ASYNC"@);
        law_fragments_are_read_back(url, access_key, secret_key, " ASYNC"@);
    }
}

/// The metadata of the full backup of the newest chain.
pub open spec fn latest_full(chains: Seq<ChainModel>) -> Option<BackupMetadata> {
    if chains.len() > 0 {
        Some(chains[0].full)
    } else {
        None
    }
}

/// Whether a plan is the one that follows from the chains: a full backup without a base, or an
/// incremental backup that is based on the latest backup of the newest chain.
pub open spec fn is_plan(
    config: Config,
    chains: Seq<ChainModel>,
    do_full: bool,
    now: Timestamp,
    plan: BackupPlan,
) -> bool {
    let base = if do_full {
        None
    } else {
        Some(chains[0].latest_path())
    };
    &&& plan.kind == if do_full {
        BackupKind::Full
    } else {
        BackupKind::Incremental
    }
    &&& plan.path@ == backup_path(config.s3.prefix@, plan.kind, now)
    &&& super::discovery::opt_text(plan.base) == base
    &&& plan.timestamp == now
    &&& plan.sql@ == backup_statement(config, plan.path@, base)
}

/// Plans a backup at `now`, full or not.
///
/// Deep chaining: an incremental backup is based on the latest backup, full or incremental.
pub fn plan_backup_at(
    config: &Config,
    chains: &Vec<BackupChain>,
    do_full: bool,
    now: &Timestamp,
) -> (r: Result<BackupPlan, ClickVaultError>)
    ensures
        match r {
            Ok(plan) => (do_full || chains@.len() > 0) && is_plan(
                *config,
                models(chains@),
                do_full,
                *now,
                plan,
            ),
            Err(e) => !do_full && chains@.len() == 0 && e is NoBaseBackup,
        },
{
    let db = quote_ident(config.clickhouse.database.as_str());
    let prefix = config.s3.prefix.as_str();
    if do_full {
        let path = new_backup_path(prefix, BackupKind::Full, now);
        let dest = s3_sql_fragment(&config.s3, path.as_str());
        let sql = "BACKUP DATABASE ".to_owned().concat(db.as_str()).concat(" TO ").concat(
            dest.as_str(),
        ).concat(" ASYNC");
        Ok(BackupPlan { kind: BackupKind::Full, path, base: None, timestamp: *now, sql })
    } else {
        if chains.len() == 0 {
            return Err(ClickVaultError::NoBaseBackup);
        }
        assert(models(chains@)[0] == chains@[0]@);
        let latest: String = chains[0].latest().0.to_owned();
        let path = new_backup_path(prefix, BackupKind::Incremental, now);
        let dest = s3_sql_fragment(&config.s3, path.as_str());
        let base = s3_sql_fragment(&config.s3, latest.as_str());
        let sql = "BACKUP DATABASE ".to_owned().concat(db.as_str()).concat(" TO ").concat(
            dest.as_str(),
        ).concat(" SETTINGS base_backup = ").concat(base.as_str()).concat(" ASYNC");
        Ok(
            BackupPlan {
                kind: BackupKind::Incremental,
                path,
                base: Some(latest),
                timestamp: *now,
                sql,
            },
        )
    }
}

/// Whether a full backup is made, where the interval is looked at at `looked_at`.
pub open spec fn does_full(
    config: Config,
    chains: Seq<ChainModel>,
    force_full: bool,
    looked_at: Timestamp,
) -> bool {
    force_full || full_is_due(
        latest_full(chains),
        config.schedule.full_backup_interval_days as nat,
        looked_at,
    )
}

/// Whether a plan is one that can be made for the chains, at some time.
pub open spec fn is_possible_plan(
    config: Config,
    chains: Seq<ChainModel>,
    force_full: bool,
    plan: BackupPlan,
) -> bool {
    exists|looked_at: Timestamp|
        looked_at.valid() && plan.timestamp.valid() && is_plan(
            config,
            chains,
            #[trigger] does_full(config, chains, force_full, looked_at),
            plan.timestamp,
            plan,
        )
}

/// Plans a backup at `now`: a full one where that is asked for or was due at `looked_at`, and an
/// incremental one otherwise. There is always a plan, since the first backup is a full one.
pub fn plan_backup_when(
    config: &Config,
    chains: &Vec<BackupChain>,
    force_full: bool,
    looked_at: &Timestamp,
    now: &Timestamp,
) -> (r: Result<BackupPlan, ClickVaultError>)
    ensures
        r matches Ok(plan) && is_plan(
            *config,
            models(chains@),
            does_full(*config, models(chains@), force_full, *looked_at),
            *now,
            plan,
        ),
{
    let full: Option<&BackupMetadata> = if chains.len() > 0 {
        assert(models(chains@)[0] == chains@[0]@);
        Some(&chains[0].full)
    } else {
        None
    };
    let due = full_backup_due(full, config.schedule.full_backup_interval_days, looked_at);
    plan_backup_at(config, chains, force_full || due, now)
}

/// Plans a backup now: a full one where that is asked for or due, and an incremental one
/// otherwise. There is always a plan, since the first backup is a full one.
pub fn plan_backup(config: &Config, chains: &Vec<BackupChain>, force_full: bool) -> (r: Result<
    BackupPlan,
    ClickVaultError,
>)
    ensures
        r matches Ok(plan) && is_possible_plan(*config, models(chains@), force_full, plan),
{
    let looked_at = Timestamp::now();
    let now = Timestamp::now();
    plan_backup_when(config, chains, force_full, &looked_at, &now)
}

/// The first backup is a full one, and so is every backup that is forced to be.
pub proof fn law_first_backup_is_full(
    config: Config,
    chains: Seq<ChainModel>,
    force_full: bool,
    plan: BackupPlan,
)
    requires
        is_possible_plan(config, chains, force_full, plan),
        force_full || chains.len() == 0,
    ensures
        plan.kind is Full,
        plan.base is None,
{
}

/// An incremental backup is based on the latest backup of the newest chain, full or incremental.
pub proof fn law_incrementals_chain_off_the_latest_backup(
    config: Config,
    chains: Seq<ChainModel>,
    force_full: bool,
    plan: BackupPlan,
)
    requires
        is_possible_plan(config, chains, force_full, plan),
        plan.kind is Incremental,
    ensures
        chains.len() > 0,
        plan.base is Some,
        plan.base->0@ == chains[0].latest_path(),
{
}

/// Fails where another backup is in progress, given the rows of those that are.
pub fn check_no_backup_in_progress(in_progress: &Vec<BackupStatus>) -> (r: Result<
    (),
    ClickVaultError,
>)
    ensures
        r == if in_progress@.len() == 0 {
            Ok::<(), ClickVaultError>(())
        } else {
            Err(ClickVaultError::BackupInProgress(in_progress@[0].id))
        },
{
    if in_progress.len() > 0 {
        return Err(ClickVaultError::BackupInProgress(in_progress[0].id.clone()));
    }
    Ok(())
}

/// Whether a failure to write the metadata sidecar may go away.
pub open spec fn is_transient_write(error: ClickVaultError) -> bool {
    error matches ClickVaultError::S3(failure) && is_transient(failure)
}

/// What follows a try to write the metadata sidecar.
#[derive(Debug)]
pub enum WriteStep {
    /// The sidecar is written.
    Written,
    /// Wait this long, then try again.
    RetryAfter(Duration),
    /// The sidecar cannot be written.
    GiveUp(ClickVaultError),
}

/// Decides what follows when try number `attempt` (counted from 1) to write the metadata sidecar
/// ended: a few more tries on transient S3 errors, and otherwise the error itself.
pub fn write_metadata_with_retry(attempt: u32, answer: Result<(), ClickVaultError>) -> (r: WriteStep)
    ensures
        match answer {
            Ok(_) => r is Written,
            Err(e) => if is_transient_write(e) && attempt < METADATA_WRITE_ATTEMPTS {
                r matches WriteStep::RetryAfter(delay) && delay.nanos()
                    == METADATA_WRITE_RETRY_SECS * 1_000_000_000
            } else {
                r == WriteStep::GiveUp(e)
            },
        },
{
    match answer {
        Ok(_) => WriteStep::Written,
        Err(e) => {
            let transient: bool = match &e {
                ClickVaultError::S3(failure) => is_transient_s3(failure),
                _ => false,
            };
            if transient && attempt < METADATA_WRITE_ATTEMPTS {
                WriteStep::RetryAfter(Duration::from_secs(METADATA_WRITE_RETRY_SECS))
            } else {
                WriteStep::GiveUp(e)
            }
        },
    }
}

/// What a successful backup comes to.
#[derive(Debug)]
pub struct BackupResult {
    pub metadata: BackupMetadata,
    pub duration: Duration,
}

/// Whether metadata records a completed backup: what was planned, and what the server says of it.
pub open spec fn records(
    config: Config,
    plan: BackupPlan,
    backup_id: Seq<char>,
    status: BackupStatus,
    meta: BackupMetadata,
) -> bool {
    &&& meta.version == METADATA_SCHEMA_VERSION
    &&& meta.backup_id@ == backup_id
    &&& meta.kind == plan.kind
    &&& meta.timestamp == plan.timestamp
    &&& meta.base_backup_path == plan.base
    &&& meta.status == status.status
    &&& meta.total_size == status.total_size
    &&& meta.database == config.clickhouse.database
    &&& is_epoch_secs(status.start_ts, meta.started_at)
    &&& is_epoch_secs(status.end_ts, meta.finished_at)
}

/// The metadata of a completed backup.
pub fn completed_metadata(
    config: &Config,
    plan: &BackupPlan,
    backup_id: &str,
    status: BackupStatus,
) -> (r: BackupMetadata)
    ensures
        records(*config, *plan, backup_id@, status, r),
{
    let started_at = status.started_at();
    let finished_at = status.finished_at();
    BackupMetadata {
        version: METADATA_SCHEMA_VERSION,
        backup_id: backup_id.to_owned(),
        kind: plan.kind,
        timestamp: plan.timestamp,
        base_backup_path: match &plan.base {
            Some(base) => Some(base.clone()),
            None => None,
        },
        status: status.status,
        total_size: status.total_size,
        database: config.clickhouse.database.clone(),
        started_at,
        finished_at,
    }
}

/// How far a run has come.
#[derive(Debug)]
pub enum RunPhase {
    /// Nothing was done yet.
    Fresh,
    /// Waiting for the rows of backups that are in progress.
    Checking,
    /// Waiting for the chains.
    Discovering,
    /// Waiting for the answer to the statement that starts the backup.
    Submitting(BackupPlan),
    /// Following the backup.
    Following(BackupPlan, Polling),
    /// Waiting for the metadata sidecar to be written; this is try number `attempt`.
    Recording { plan: BackupPlan, metadata: BackupMetadata, duration: Duration, attempt: u32 },
    /// Waiting for the backup's data to be deleted.
    RollingBack(BackupPlan, ClickVaultError),
    /// The run is over.
    Over,
}

/// A run of a backup.
#[derive(Debug)]
pub struct BackupRun {
    pub force_full: bool,
    pub skip_in_progress_check: bool,
    /// The kind that the run decided on, once it did.
    pub decided: Option<BackupKind>,
    pub phase: RunPhase,
}

/// What happens during a run.
#[derive(Debug)]
pub enum RunEvent {
    /// The run starts.
    Started,
    /// The query for backups in progress was answered.
    InProgress(Result<Vec<BackupStatus>, ClickVaultError>),
    /// The existing chains were discovered.
    Discovered(Result<Vec<BackupChain>, ClickVaultError>),
    /// The statement that starts the backup was answered with the backup's id.
    Submitted(Result<String, ClickHouseFailure>),
    /// Something happened while the backup is followed; `elapsed` is the time since the statement
    /// was sent.
    Progress { event: PollEvent, elapsed: Duration },
    /// A try to write the metadata sidecar ended.
    Recorded(Result<(), ClickVaultError>),
    /// Deleting the backup's data ended, whether it succeeded or not.
    RolledBack,
}

/// What to do next in a run.
#[derive(Debug)]
pub enum RunStep {
    /// Query the backups that are in progress.
    QueryInProgress,
    /// Discover the existing chains.
    Discover,
    /// Send this statement, once.
    Submit(String),
    /// Find out how much time has passed since following the backup started.
    Poll,
    /// Query the row of the backup with this id.
    QueryStatus(String),
    /// Wait this long; then it is time to poll again.
    Sleep(Duration),
    /// Write this metadata as the sidecar of the backup at this path.
    Record(String, BackupMetadata),
    /// Wait this long; then write this metadata as the sidecar of the backup at this path.
    RecordAfter(Duration, String, BackupMetadata),
    /// Delete everything at this path.
    RollBack(String),
    /// The run is over.
    Finish(Result<BackupResult, ClickVaultError>),
}

impl BackupRun {
    /// A run that has not started yet.
    pub fn begin(force_full: bool, skip_in_progress_check: bool) -> (r: BackupRun)
        ensures
            r == (BackupRun {
                force_full,
                skip_in_progress_check,
                decided: None,
                phase: RunPhase::Fresh,
            }),
    {
        BackupRun { force_full, skip_in_progress_check, decided: None, phase: RunPhase::Fresh }
    }

    /// Whether an event can happen in this phase.
    pub open spec fn accepts(self, event: RunEvent) -> bool {
        match (self.phase, event) {
            (RunPhase::Fresh, RunEvent::Started) => true,
            (RunPhase::Checking, RunEvent::InProgress(_)) => true,
            (RunPhase::Discovering, RunEvent::Discovered(_)) => true,
            (RunPhase::Submitting(_), RunEvent::Submitted(_)) => true,
            (RunPhase::Following(_, polling), RunEvent::Progress { .. }) => polling.goes_on(),
            (RunPhase::Recording { attempt, .. }, RunEvent::Recorded(_)) => attempt
                <= METADATA_WRITE_ATTEMPTS,
            (RunPhase::RollingBack(..), RunEvent::RolledBack) => true,
            _ => false,
        }
    }

    /// Whether another run differs from this one in its phase only.
    pub open spec fn goes_on_as(self, after: BackupRun) -> bool {
        &&& after.force_full == self.force_full
        &&& after.skip_in_progress_check == self.skip_in_progress_check
        &&& after.decided == self.decided
    }

    /// The same run in another phase.
    fn now_in(self, phase: RunPhase) -> (r: BackupRun)
        ensures
            self.goes_on_as(r),
            r.phase == phase,
    {
        BackupRun {
            force_full: self.force_full,
            skip_in_progress_check: self.skip_in_progress_check,
            decided: self.decided,
            phase,
        }
    }
}

/// Whether a run is over with this error.
pub open spec fn fails(after: BackupRun, step: RunStep, error: ClickVaultError) -> bool {
    after.phase is Over && step == RunStep::Finish(
        Err::<BackupResult, ClickVaultError>(error),
    )
}

/// What follows the start: the check for other backups, unless it is skipped.
pub open spec fn follows_start(run: BackupRun, after: BackupRun, step: RunStep) -> bool {
    run.goes_on_as(after) && if run.skip_in_progress_check {
        after.phase is Discovering && step is Discover
    } else {
        after.phase is Checking && step is QueryInProgress
    }
}

/// What follows the check: an error where another backup is in progress.
pub open spec fn follows_check(
    run: BackupRun,
    answer: Result<Vec<BackupStatus>, ClickVaultError>,
    after: BackupRun,
    step: RunStep,
) -> bool {
    run.goes_on_as(after) && match answer {
        Err(e) => fails(after, step, e),
        Ok(rows) => if rows@.len() > 0 {
            fails(after, step, ClickVaultError::BackupInProgress(rows@[0].id))
        } else {
            after.phase is Discovering && step is Discover
        },
    }
}

/// What follows discovery: the decision on the kind, and the statement that starts the backup.
pub open spec fn follows_discovery(
    config: Config,
    run: BackupRun,
    answer: Result<Vec<BackupChain>, ClickVaultError>,
    after: BackupRun,
    step: RunStep,
) -> bool {
    match answer {
        Err(e) => run.goes_on_as(after) && fails(after, step, e),
        Ok(chains) => {
            &&& after.force_full == run.force_full
            &&& after.skip_in_progress_check == run.skip_in_progress_check
            &&& after.phase matches RunPhase::Submitting(plan) && {
                &&& is_possible_plan(config, models(chains@), run.force_full, plan)
                &&& after.decided == Some(plan.kind)
                &&& step == RunStep::Submit(plan.sql)
            }
        },
    }
}

/// What follows the submission: following the backup, unless the server refused it or gave it no
/// id. The statement is never sent again.
pub open spec fn follows_submission(
    config: Config,
    run: BackupRun,
    plan: BackupPlan,
    answer: Result<String, ClickHouseFailure>,
    after: BackupRun,
    step: RunStep,
) -> bool {
    run.goes_on_as(after) && match answer {
        Err(failure) => fails(after, step, ClickVaultError::ClickHouse(failure)),
        Ok(id) => if id@.len() == 0 {
            after.phase is Over && (step matches RunStep::Finish(Err(e)) && is_backup_failure(
                e,
                "UNKNOWN"@,
                "BACKUP was submitted but returned an empty id"@,
            ))
        } else {
            step is Poll && (after.phase matches RunPhase::Following(p, polling) && p == plan && {
                &&& polling.backup_id == id
                &&& polling.poll_interval.nanos() == config.backup.poll_interval_secs
                    * 1_000_000_000
                &&& polling.timeout.nanos() == config.backup.timeout_secs * 1_000_000_000
                &&& polling.counts() == super::progress::no_counts()
            })
        },
    }
}

/// What a step of following the backup leads to. A completed backup is recorded. Where the server
/// lost the backup, its orphaned data are rolled back; any other failure ends the run.
pub open spec fn follows_poll_step(
    config: Config,
    plan: BackupPlan,
    polling: Polling,
    poll_step: PollStep,
    elapsed: Duration,
    after: BackupRun,
    step: RunStep,
) -> bool {
    match poll_step {
        PollStep::Query => after.phase == RunPhase::Following(plan, polling) && step
            == RunStep::QueryStatus(polling.backup_id),
        PollStep::Sleep(interval) => after.phase == RunPhase::Following(plan, polling) && step
            == RunStep::Sleep(interval),
        PollStep::Completed(status) => after.phase matches RunPhase::Recording {
            plan: p,
            metadata,
            duration,
            attempt,
        } && {
            &&& p == plan
            &&& records(config, plan, polling.backup_id@, status, metadata)
            &&& duration == elapsed
            &&& attempt == 1
            &&& step == RunStep::Record(plan.path, metadata)
        },
        PollStep::Failed(e) => if e is BackupStateLost {
            after.phase == RunPhase::RollingBack(plan, e) && step == RunStep::RollBack(plan.path)
        } else {
            fails(after, step, e)
        },
    }
}

/// What follows an event while the backup is followed.
pub open spec fn follows_progress(
    config: Config,
    run: BackupRun,
    plan: BackupPlan,
    polling: Polling,
    event: PollEvent,
    elapsed: Duration,
    after: BackupRun,
    step: RunStep,
) -> bool {
    run.goes_on_as(after) && exists|next: Polling, poll_step: PollStep|
        #![trigger follows_poll_step(config, plan, next, poll_step, elapsed, after, step)]
        {
            &&& match event {
                PollEvent::Due(waited) => next == polling && due_step(polling, waited, poll_step),
                PollEvent::Answered(Err(failure)) => next == polling && poll_step
                    == PollStep::Failed(ClickVaultError::ClickHouse(failure)),
                PollEvent::Answered(Ok(found)) => {
                    let counts = counted(polling.counts(), sighting(found));
                    next.is_with(polling, counts) && found_step(polling, found, counts, poll_step)
                },
            }
            &&& !(poll_step is Failed) ==> next.goes_on()
            &&& follows_poll_step(config, plan, next, poll_step, elapsed, after, step)
        }
}

/// What follows a try to write the sidecar: the result of the run, another try, or the rollback of
/// the data, which nothing could find without their sidecar.
pub open spec fn follows_record(
    run: BackupRun,
    plan: BackupPlan,
    metadata: BackupMetadata,
    duration: Duration,
    attempt: u32,
    answer: Result<(), ClickVaultError>,
    after: BackupRun,
    step: RunStep,
) -> bool {
    run.goes_on_as(after) && match answer {
        Ok(_) => after.phase is Over && step == RunStep::Finish(
            Ok::<BackupResult, ClickVaultError>(BackupResult { metadata, duration }),
        ),
        Err(e) => if is_transient_write(e) && attempt < METADATA_WRITE_ATTEMPTS {
            &&& after.phase == RunPhase::Recording {
                plan,
                metadata,
                duration,
                attempt: (attempt + 1) as u32,
            }
            &&& step matches RunStep::RecordAfter(delay, path, meta) && {
                &&& delay.nanos() == METADATA_WRITE_RETRY_SECS * 1_000_000_000
                &&& path == plan.path
                &&& meta == metadata
            }
        } else {
            after.phase == RunPhase::RollingBack(plan, e) && step == RunStep::RollBack(plan.path)
        },
    }
}

/// What follows an event in a run.
pub open spec fn follows(
    config: Config,
    run: BackupRun,
    event: RunEvent,
    after: BackupRun,
    step: RunStep,
) -> bool {
    match (run.phase, event) {
        (RunPhase::Fresh, RunEvent::Started) => follows_start(run, after, step),
        (RunPhase::Checking, RunEvent::InProgress(answer)) => follows_check(
            run,
            answer,
            after,
            step,
        ),
        (RunPhase::Discovering, RunEvent::Discovered(answer)) => follows_discovery(
            config,
            run,
            answer,
            after,
            step,
        ),
        (RunPhase::Submitting(plan), RunEvent::Submitted(answer)) => follows_submission(
            config,
            run,
            plan,
            answer,
            after,
            step,
        ),
        (RunPhase::Following(plan, polling), RunEvent::Progress { event, elapsed }) => {
            follows_progress(config, run, plan, polling, event, elapsed, after, step)
        },
        (
            RunPhase::Recording { plan, metadata, duration, attempt },
            RunEvent::Recorded(answer),
        ) => follows_record(run, plan, metadata, duration, attempt, answer, after, step),
        (RunPhase::RollingBack(_, e), RunEvent::RolledBack) => run.goes_on_as(after) && fails(
            after,
            step,
            e,
        ),
        _ => false,
    }
}

/// Runs a backup, one event at a time: checks that no other backup is in progress (unless that is
/// skipped), discovers the existing chains, decides between a full and an incremental backup,
/// starts it, follows it, and records it in its metadata sidecar.
pub fn run_backup(run: BackupRun, config: &Config, event: RunEvent) -> (r: (BackupRun, RunStep))
    requires
        run.accepts(event),
    ensures
        follows(*config, run, event, r.0, r.1),
{
    match event {
        RunEvent::Started => start_run(run),
        RunEvent::InProgress(answer) => {
            let result = match answer {
                Ok(rows) => check_no_backup_in_progress(&rows),
                Err(e) => Err(e),
            };
            match result {
                Ok(_) => (run.now_in(RunPhase::Discovering), RunStep::Discover),
                Err(e) => finish(run, Err(e)),
            }
        },
        RunEvent::Discovered(answer) => match answer {
            Err(e) => finish(run, Err(e)),
            Ok(chains) => match plan_backup(config, &chains, run.force_full) {
                Err(e) => finish(run, Err(e)),
                Ok(plan) => {
                    let sql = plan.sql.clone();
                    let decided = Some(plan.kind);
                    let after = BackupRun {
                        force_full: run.force_full,
                        skip_in_progress_check: run.skip_in_progress_check,
                        decided,
                        phase: RunPhase::Submitting(plan),
                    };
                    (after, RunStep::Submit(sql))
                },
            },
        },
        RunEvent::Submitted(answer) => submitted(run, config, answer),
        RunEvent::Progress { event, elapsed } => progressed(run, config, event, elapsed),
        RunEvent::Recorded(answer) => recorded(run, answer),
        RunEvent::RolledBack => {
            let BackupRun { force_full, skip_in_progress_check, decided, phase } = run;
            match phase {
                RunPhase::RollingBack(_, e) => (
                    BackupRun { force_full, skip_in_progress_check, decided, phase: RunPhase::Over },
                    RunStep::Finish(Err(e)),
                ),
                _ => vstd::pervasive::unreached(),
            }
        },
    }
}

fn start_run(run: BackupRun) -> (r: (BackupRun, RunStep))
    ensures
        follows_start(run, r.0, r.1),
{
    if run.skip_in_progress_check {
        (run.now_in(RunPhase::Discovering), RunStep::Discover)
    } else {
        (run.now_in(RunPhase::Checking), RunStep::QueryInProgress)
    }
}

fn finish(run: BackupRun, result: Result<BackupResult, ClickVaultError>) -> (r: (
    BackupRun,
    RunStep,
))
    ensures
        run.goes_on_as(r.0),
        r.0.phase is Over,
        r.1 == RunStep::Finish(result),
{
    (run.now_in(RunPhase::Over), RunStep::Finish(result))
}

fn submitted(run: BackupRun, config: &Config, answer: Result<String, ClickHouseFailure>) -> (r: (
    BackupRun,
    RunStep,
))
    requires
        run.phase is Submitting,
    ensures
        follows_submission(*config, run, run.phase->Submitting_0, answer, r.0, r.1),
{
    match answer {
        Err(failure) => finish(run, Err(ClickVaultError::ClickHouse(failure))),
        Ok(id) => {
            if id.as_str().is_empty() {
                return finish(
                    run,
                    Err(
                        ClickVaultError::BackupFailed {
                            status: "UNKNOWN".to_owned(),
                            message: "BACKUP was submitted but returned an empty id".to_owned(),
                        },
                    ),
                );
            }
            let polling = Polling::begin(id, config.backup.poll_interval(), config.backup.timeout());
            let BackupRun { force_full, skip_in_progress_check, decided, phase } = run;
            let phase = match phase {
                RunPhase::Submitting(plan) => RunPhase::Following(plan, polling),
                _ => vstd::pervasive::unreached(),
            };
            (BackupRun { force_full, skip_in_progress_check, decided, phase }, RunStep::Poll)
        },
    }
}

fn progressed(run: BackupRun, config: &Config, event: PollEvent, elapsed: Duration) -> (r: (
    BackupRun,
    RunStep,
))
    requires
        run.phase matches RunPhase::Following(_, polling) && polling.goes_on(),
    ensures
        follows_progress(
            *config,
            run,
            run.phase->Following_0,
            run.phase->Following_1,
            event,
            elapsed,
            r.0,
            r.1,
        ),
{
    let ghost before = run;
    let BackupRun { force_full, skip_in_progress_check, decided, phase } = run;
    match phase {
        RunPhase::Following(plan, polling) => {
            let mut next = polling;
            let poll_step = poll_until_complete(&mut next, event);
            let ghost ghost_next = next;
            let ghost ghost_step = poll_step;
            let ghost ghost_plan = plan;
            let (phase, step) = match poll_step {
                PollStep::Query => {
                    let id = next.backup_id.clone();
                    (RunPhase::Following(plan, next), RunStep::QueryStatus(id))
                },
                PollStep::Sleep(interval) => (
                    RunPhase::Following(plan, next),
                    RunStep::Sleep(interval),
                ),
                PollStep::Completed(status) => {
                    let metadata = completed_metadata(
                        config,
                        &plan,
                        next.backup_id.as_str(),
                        status,
                    );
                    let step = RunStep::Record(plan.path.clone(), metadata.clone());
                    (RunPhase::Recording { plan, metadata, duration: elapsed, attempt: 1 }, step)
                },
                PollStep::Failed(e) => match e {
                    ClickVaultError::BackupStateLost { id, polls } => {
                        let step = RunStep::RollBack(plan.path.clone());
                        (
                            RunPhase::RollingBack(
                                plan,
                                ClickVaultError::BackupStateLost { id, polls },
                            ),
                            step,
                        )
                    },
                    e => (RunPhase::Over, RunStep::Finish(Err(e))),
                },
            };
            let after = BackupRun { force_full, skip_in_progress_check, decided, phase };
            proof {
                assert(before.goes_on_as(after));
                assert(follows_poll_step(
                    *config,
                    ghost_plan,
                    ghost_next,
                    ghost_step,
                    elapsed,
                    after,
                    step,
                ));
            }
            (after, step)
        },
        _ => vstd::pervasive::unreached(),
    }
}

fn recorded(run: BackupRun, answer: Result<(), ClickVaultError>) -> (r: (BackupRun, RunStep))
    requires
        run.phase matches RunPhase::Recording { attempt, .. } && attempt
            <= METADATA_WRITE_ATTEMPTS,
    ensures
        run.phase matches RunPhase::Recording { plan, metadata, duration, attempt }
            && follows_record(run, plan, metadata, duration, attempt, answer, r.0, r.1),
{
    let BackupRun { force_full, skip_in_progress_check, decided, phase } = run;
    let (phase, step) = match phase {
        RunPhase::Recording { plan, metadata, duration, attempt } => {
            match write_metadata_with_retry(attempt, answer) {
                WriteStep::Written => (
                    RunPhase::Over,
                    RunStep::Finish(Ok(BackupResult { metadata, duration })),
                ),
                WriteStep::RetryAfter(delay) => {
                    let step = RunStep::RecordAfter(delay, plan.path.clone(), metadata.clone());
                    (RunPhase::Recording { plan, metadata, duration, attempt: attempt + 1 }, step)
                },
                WriteStep::GiveUp(e) => {
                    let step = RunStep::RollBack(plan.path.clone());
                    (RunPhase::RollingBack(plan, e), step)
                },
            }
        },
        _ => vstd::pervasive::unreached(),
    };
    (BackupRun { force_full, skip_in_progress_check, decided, phase }, step)
}

/// How far a phase is along the way.
pub open spec fn stage(phase: RunPhase) -> nat {
    match phase {
        RunPhase::Fresh => 0,
        RunPhase::Checking => 1,
        RunPhase::Discovering => 2,
        RunPhase::Submitting(_) => 3,
        RunPhase::Following(..) => 4,
        RunPhase::Recording { .. } => 5,
        RunPhase::RollingBack(..) => 6,
        RunPhase::Over => 7,
    }
}

/// Whether the runs, events and steps follow one another.
pub open spec fn is_trace(
    config: Config,
    runs: Seq<BackupRun>,
    events: Seq<RunEvent>,
    steps: Seq<RunStep>,
) -> bool {
    &&& runs.len() == steps.len() + 1
    &&& events.len() == steps.len()
    &&& forall|i: int|
        0 <= i < steps.len() ==> follows(
            config,
            runs[i],
            events[i],
            runs[i + 1],
            #[trigger] steps[i],
        )
}

proof fn lemma_stages_do_not_fall(
    config: Config,
    runs: Seq<BackupRun>,
    events: Seq<RunEvent>,
    steps: Seq<RunStep>,
    i: int,
    j: int,
)
    requires
        is_trace(config, runs, events, steps),
        0 <= i <= j < runs.len(),
    ensures
        stage(runs[i].phase) <= stage(runs[j].phase),
    decreases j - i,
{
    if i < j {
        lemma_stages_do_not_fall(config, runs, events, steps, i, j - 1);
        assert(follows(config, runs[j - 1], events[j - 1], runs[j], steps[j - 1]));
    }
}

/// The statement that starts a backup is sent at most once in a run: it is never retried.
pub proof fn law_backups_are_submitted_at_most_once(
    config: Config,
    runs: Seq<BackupRun>,
    events: Seq<RunEvent>,
    steps: Seq<RunStep>,
    i: int,
    j: int,
)
    requires
        is_trace(config, runs, events, steps),
        0 <= i < j < steps.len(),
        steps[i] is Submit,
    ensures
        !(steps[j] is Submit),
{
    assert(follows(config, runs[i], events[i], runs[i + 1], steps[i]));
    assert(follows(config, runs[j], events[j], runs[j + 1], steps[j]));
    lemma_stages_do_not_fall(config, runs, events, steps, i + 1, j);
}

/// A run succeeds only once the sidecar is written, and its result is what the sidecar records.
pub proof fn law_success_is_recorded(
    config: Config,
    run: BackupRun,
    event: RunEvent,
    after: BackupRun,
    result: BackupResult,
)
    requires
        follows(config, run, event, after, RunStep::Finish(Ok(result))),
    ensures
        event matches RunEvent::Recorded(answer) && answer is Ok,
        run.phase matches RunPhase::Recording { metadata, duration, .. } && metadata
            == result.metadata && duration == result.duration,
{
}

proof fn lemma_recording_keeps_its_plan(
    config: Config,
    runs: Seq<BackupRun>,
    events: Seq<RunEvent>,
    steps: Seq<RunStep>,
    i: int,
    j: int,
)
    requires
        is_trace(config, runs, events, steps),
        0 <= i <= j < runs.len(),
        runs[i].phase is Recording,
        runs[j].phase is Recording,
    ensures
        runs[i].phase->Recording_plan == runs[j].phase->Recording_plan,
    decreases j - i,
{
    if i < j {
        lemma_stages_do_not_fall(config, runs, events, steps, i, j - 1);
        assert(follows(config, runs[j - 1], events[j - 1], runs[j], steps[j - 1]));
        lemma_recording_keeps_its_plan(config, runs, events, steps, i, j - 1);
    }
}

/// A backup that completed does not stay behind without its sidecar: where the run fails after
/// all, the backup's data are rolled back before the run is over.
pub proof fn law_unrecorded_backups_are_rolled_back(
    config: Config,
    runs: Seq<BackupRun>,
    events: Seq<RunEvent>,
    steps: Seq<RunStep>,
    completed: int,
    end: int,
    error: ClickVaultError,
)
    requires
        is_trace(config, runs, events, steps),
        0 <= completed <= end < steps.len(),
        runs[completed].phase is Recording,
        steps[end] == RunStep::Finish(Err::<BackupResult, ClickVaultError>(error)),
    ensures
        completed < end,
        steps[end - 1] == RunStep::RollBack(runs[completed].phase->Recording_plan.path),
{
    lemma_stages_do_not_fall(config, runs, events, steps, completed, end);
    assert(follows(config, runs[end], events[end], runs[end + 1], steps[end]));
    assert(runs[end].phase is RollingBack);
    assert(follows(config, runs[end - 1], events[end - 1], runs[end], steps[end - 1]));
    lemma_stages_do_not_fall(config, runs, events, steps, completed, end - 1);
    lemma_recording_keeps_its_plan(config, runs, events, steps, completed, end - 1);
}

/// Where the server lost a backup, the run does not end before the orphaned data are rolled back.
pub proof fn law_lost_backups_are_rolled_back(
    config: Config,
    run: BackupRun,
    plan: BackupPlan,
    polling: Polling,
    elapsed: Duration,
    after: BackupRun,
    step: RunStep,
)
    requires
        run.phase == RunPhase::Following(plan, polling),
        polling.missing_polls + 1 == super::progress::MAX_MISSING_POLLS,
        follows(
            config,
            run,
            RunEvent::Progress { event: PollEvent::Answered(Ok(None)), elapsed },
            after,
            step,
        ),
    ensures
        step == RunStep::RollBack(plan.path),
        after.phase matches RunPhase::RollingBack(_, e) && e is BackupStateLost,
{
}

/// Whether the kind that a run decided on is the kind of its plan, and of what it records.
pub open spec fn kind_is_decided(run: BackupRun) -> bool {
    match run.phase {
        RunPhase::Fresh => run.decided is None,
        RunPhase::Checking => run.decided is None,
        RunPhase::Discovering => run.decided is None,
        RunPhase::Submitting(plan) => run.decided == Some(plan.kind),
        RunPhase::Following(plan, _) => run.decided == Some(plan.kind),
        RunPhase::Recording { plan, metadata, .. } => run.decided == Some(plan.kind)
            && metadata.kind == plan.kind && metadata.base_backup_path == plan.base,
        RunPhase::RollingBack(plan, _) => run.decided == Some(plan.kind),
        RunPhase::Over => true,
    }
}

/// Throughout a run, the kind that it decided on is the kind of its plan; a backup that succeeds
/// is of that kind.
pub proof fn law_decided_kind_is_kept(
    config: Config,
    run: BackupRun,
    event: RunEvent,
    after: BackupRun,
    step: RunStep,
)
    requires
        kind_is_decided(run),
        follows(config, run, event, after, step),
    ensures
        kind_is_decided(after),
        step matches RunStep::Finish(Ok(result)) ==> run.decided == Some(result.metadata.kind),
        run.decided is Some ==> after.decided == run.decided,
{
}

/// A statement names the database, and for the target and the base the URL of the path in the
/// configured bucket: it starts with the endpoint that ClickHouse uses, a slash, the bucket and a
/// slash, and goes on with the path, whatever the other settings are. The credentials are the
/// configured ones.
pub proof fn law_statements_name_bucket_and_path(
    config: Config,
    path: Seq<char>,
    base: Option<Seq<char>>,
)
    ensures
        ({
            let endpoint = match config.s3.clickhouse_endpoint {
                Some(override_url) => override_url@,
                None => config.s3.endpoint@,
            };
            let start = endpoint.push('/') + config.s3.bucket@.push('/');
            read_statement(backup_statement(config, path, base)) matches Some(said) && {
                &&& said.database == config.clickhouse.database@
                &&& has_prefix(said.target.0, start)
                &&& said.target.0.skip(start.len() as int) == path
                &&& said.base is Some <==> base is Some
                &&& base matches Some(base_path) ==> (said.base matches Some(based_on)
                    && has_prefix(based_on.0, start) && based_on.0.skip(start.len() as int)
                    == base_path && based_on.1 == said.target.1 && based_on.2 == said.target.2)
                &&& config.s3.access_key matches Some(key) ==> said.target.1 == key@
                &&& config.s3.access_key is None ==> said.target.1.len() == 0
                &&& config.s3.secret_key matches Some(key) ==> said.target.2 == key@
                &&& config.s3.secret_key is None ==> said.target.2.len() == 0
            }
        }),
{
    law_statements_are_read_back(config, path, base);
    crate::s3::law_urls_name_bucket_and_path(config.s3, config.s3, path);
    if base is Some {
        crate::s3::law_urls_name_bucket_and_path(config.s3, config.s3, base->0);
    }
}

/// A statement is sent to the server as it is written: it starts the backup of a database in the
/// background, and names a base exactly where there is one.
#[verifier::rlimit(40)]
pub proof fn law_statements_start_backups_in_the_background(
    config: Config,
    path: Seq<char>,
    base: Option<Seq<char>>,
)
    ensures
        ({
            let sql = backup_statement(config, path, base);
            let end = " ASYNC"@;
            let head = "BACKUP DATABASE "@ + quoted(config.clickhouse.database@) + " TO "@;
            &&& has_prefix(sql, head)
            &&& sql.skip(sql.len() - end.len()) == end
            &&& base is None ==> sql == head + fragment(config.s3, path) + end
            &&& base matches Some(b) ==> sql == backup_statement(config, path, None).take(
                (head + fragment(config.s3, path)).len() as int,
            ) + " SETTINGS base_backup = "@ + fragment(config.s3, b) + end
        }),
{
    let sql = backup_statement(config, path, base);
    let end = " ASYNC"@;
    let head = "BACKUP DATABASE "@ + quoted(config.clickhouse.database@) + " TO "@;
    let start = head + fragment(config.s3, path);
    assert(sql.take(head.len() as int) =~= head);
    assert(sql.skip(sql.len() - end.len()) =~= end);
    assert(backup_statement(config, path, None).take(start.len() as int) =~= start);
}

/// Quoting an identifier puts it in backticks and doubles those within it.
pub proof fn law_quoting_goes_by_character(a: Seq<char>, c: char, b: Seq<char>)
    ensures
        doubled_ticks(a + b) == doubled_ticks(a) + doubled_ticks(b),
        c == '`' ==> doubled_ticks(seq![c]) == seq!['`', '`'],
        c != '`' ==> doubled_ticks(seq![c]) == seq![c],
        quoted(a) == seq!['`'] + doubled_ticks(a) + seq!['`'],
    decreases a.len(),
{
    reveal_with_fuel(doubled_ticks, 2);
    assert(seq![c].skip(1) =~= Seq::<char>::empty());
    if c == '`' {
        assert(doubled_ticks(seq![c]) =~= seq!['`', '`']);
    } else {
        assert(doubled_ticks(seq![c]) =~= seq![c]);
    }
    if a.len() == 0 {
        assert(a + b =~= b);
        assert(doubled_ticks(a) + doubled_ticks(b) =~= doubled_ticks(b));
    } else {
        law_quoting_goes_by_character(a.skip(1), c, b);
        assert((a + b).skip(1) =~= a.skip(1) + b);
        assert((a + b)[0] == a[0]);
        assert(doubled_ticks(a + b) =~= doubled_ticks(a) + doubled_ticks(b));
    }
}

/// A plan follows from what is there: it is full exactly where that is forced, where there is no
/// chain, or where the interval has passed since the newest full backup was made. An incremental
/// one is based on the end of the newest chain, and the statement names just that.
pub proof fn law_plans_follow_from_the_chains(
    config: Config,
    chains: Seq<ChainModel>,
    force_full: bool,
    looked_at: Timestamp,
    now: Timestamp,
    plan: BackupPlan,
)
    requires
        is_plan(config, chains, does_full(config, chains, force_full, looked_at), now, plan),
    ensures
        plan.kind is Full <==> force_full || chains.len() == 0 || looked_at.nanos_since(
            chains[0].full.timestamp,
        ) >= config.schedule.full_backup_interval_days * 86_400_000_000_000,
        plan.kind is Full <==> plan.base is None,
        plan.base matches Some(base) ==> base@ == if chains[0].incrementals.len() > 0 {
            chains[0].incrementals[chains[0].incrementals.len() - 1].0@
        } else {
            chains[0].full_path
        },
        plan.timestamp == now,
        plan.path@ == backup_path(config.s3.prefix@, plan.kind, now),
        plan.sql@ == backup_statement(
            config,
            plan.path@,
            match plan.base {
                Some(base) => Some(base@),
                None => None,
            },
        ),
{
}

/// What is recorded of a completed backup is what was planned and what the server says of it.
pub proof fn law_records_hold_plan_and_status(
    config: Config,
    plan: BackupPlan,
    backup_id: Seq<char>,
    status: BackupStatus,
    meta: BackupMetadata,
)
    requires
        records(config, plan, backup_id, status, meta),
    ensures
        meta.version == METADATA_SCHEMA_VERSION,
        meta.backup_id@ == backup_id,
        meta.kind == plan.kind,
        meta.timestamp == plan.timestamp,
        meta.base() == match plan.base {
            Some(base) => Some(base@),
            None => None,
        },
        meta.status@ == status.status@,
        meta.total_size == status.total_size,
        meta.database@ == config.clickhouse.database@,
        meta.started_at is None <==> status.start_ts == 0,
        meta.started_at matches Some(t) ==> t.secs() == status.start_ts && t.nanos() == 0,
        meta.finished_at is None <==> status.end_ts == 0,
        meta.finished_at matches Some(t) ==> t.secs() == status.end_ts && t.nanos() == 0,
{
}

/// A run asks for backups in progress first, unless that is skipped, and fails where there is one,
/// naming it; it goes on exactly where there is none.
pub proof fn law_runs_do_not_start_beside_another_backup(
    config: Config,
    run: BackupRun,
    rows: Vec<BackupStatus>,
    after: BackupRun,
    step: RunStep,
)
    ensures
        run.phase is Fresh && follows(config, run, RunEvent::Started, after, step) ==> (step
            is QueryInProgress <==> !run.skip_in_progress_check) && (step is Discover
            <==> run.skip_in_progress_check),
        follows(config, run, RunEvent::InProgress(Ok(rows)), after, step) ==> (step is Discover
            <==> rows@.len() == 0) && (rows@.len() > 0 ==> (step matches RunStep::Finish(
            Err(ClickVaultError::BackupInProgress(id)),
        ) && id@ == rows@[0].id@)),
{
}

/// A submitted backup is followed under the id that the server gave it, with the configured
/// interval and time budget; without an id the run fails, as it does where the server refuses the
/// statement.
pub proof fn law_submitted_backups_are_followed(
    config: Config,
    run: BackupRun,
    answer: Result<String, ClickHouseFailure>,
    after: BackupRun,
    step: RunStep,
)
    requires
        follows(config, run, RunEvent::Submitted(answer), after, step),
    ensures
        answer matches Err(failure) ==> step == RunStep::Finish(
            Err::<BackupResult, ClickVaultError>(ClickVaultError::ClickHouse(failure)),
        ),
        answer matches Ok(id) ==> (id@.len() == 0 <==> step is Finish) && (id@.len() > 0 ==> step
            is Poll && (after.phase matches RunPhase::Following(plan, polling) && {
            &&& run.phase == RunPhase::Submitting(plan)
            &&& polling.backup_id@ == id@
            &&& polling.poll_interval.nanos() == config.backup.poll_interval_secs * 1_000_000_000
            &&& polling.timeout.nanos() == config.backup.timeout_secs * 1_000_000_000
            &&& polling.missing_polls == 0
            &&& polling.unknown_polls == 0
        })),
{
}

/// A backup that the server completed is recorded at once, at the path and under the id that it
/// was followed with, and with the time that it took.
pub proof fn law_completed_backups_are_recorded(
    config: Config,
    run: BackupRun,
    plan: BackupPlan,
    polling: Polling,
    row: BackupStatus,
    elapsed: Duration,
    after: BackupRun,
    step: RunStep,
)
    requires
        run.phase == RunPhase::Following(plan, polling),
        row.status@ == "BACKUP_CREATED"@,
        follows(
            config,
            run,
            RunEvent::Progress { event: PollEvent::Answered(Ok(Some(row))), elapsed },
            after,
            step,
        ),
    ensures
        step matches RunStep::Record(path, meta) && path@ == plan.path@ && meta.backup_id@
            == polling.backup_id@ && meta.total_size == row.total_size && meta.kind == plan.kind
            && meta.timestamp == plan.timestamp && meta.base_backup_path == plan.base,
        after.phase matches RunPhase::Recording { duration, attempt, .. } && duration == elapsed
            && attempt == 1,
{
    reveal_strlit("CREATING_BACKUP");
    reveal_strlit("BACKUP_CREATED");
    assert("CREATING_BACKUP"@.len() == 15);
    assert("BACKUP_CREATED"@.len() == 14);
}

/// Writing the sidecar is tried three times at most, two seconds apart, and again only where the
/// failure may go away; otherwise the backup's data are rolled back.
pub proof fn law_sidecar_writes_are_tried_three_times(
    config: Config,
    run: BackupRun,
    plan: BackupPlan,
    metadata: BackupMetadata,
    duration: Duration,
    attempt: u32,
    answer: Result<(), ClickVaultError>,
    after: BackupRun,
    step: RunStep,
)
    requires
        run.phase == (RunPhase::Recording { plan, metadata, duration, attempt }),
        follows(config, run, RunEvent::Recorded(answer), after, step),
    ensures
        answer is Ok ==> step == RunStep::Finish(
            Ok::<BackupResult, ClickVaultError>(BackupResult { metadata, duration }),
        ),
        answer matches Err(e) ==> {
            let again = attempt < 3 && (e matches ClickVaultError::S3(failure) && is_transient(
                failure,
            ));
            &&& again ==> (step matches RunStep::RecordAfter(delay, path, meta) && delay.nanos()
                == 2_000_000_000 && path@ == plan.path@ && meta == metadata)
            &&& !again ==> (step matches RunStep::RollBack(path) && path@ == plan.path@)
        },
{
}

/// What discovery found decides the plan: where it failed, so does the run; otherwise a plan is
/// submitted. It is full where that is forced or where there is no chain, and otherwise either full
/// or based on the end of the newest chain. Its path and its statement are those of its kind, its
/// time and its base.
pub proof fn law_runs_submit_what_they_planned(
    config: Config,
    run: BackupRun,
    answer: Result<Vec<BackupChain>, ClickVaultError>,
    after: BackupRun,
    step: RunStep,
)
    requires
        follows(config, run, RunEvent::Discovered(answer), after, step),
    ensures
        answer matches Err(e) ==> step == RunStep::Finish(Err::<BackupResult, ClickVaultError>(e)),
        answer matches Ok(chains) ==> (after.phase matches RunPhase::Submitting(plan) && {
            &&& step == RunStep::Submit(plan.sql)
            &&& after.decided == Some(plan.kind)
            &&& run.force_full || chains@.len() == 0 ==> plan.kind is Full
            &&& plan.kind is Full <==> plan.base is None
            &&& plan.base matches Some(base) ==> base@ == if chains@[0].incrementals@.len() > 0 {
                chains@[0].incrementals@[chains@[0].incrementals@.len() - 1].0@
            } else {
                chains@[0].full_path@
            }
            &&& plan.path@ == backup_path(config.s3.prefix@, plan.kind, plan.timestamp)
            &&& plan.sql@ == backup_statement(
                config,
                plan.path@,
                match plan.base {
                    Some(base) => Some(base@),
                    None => None,
                },
            )
        }),
{
    if answer is Ok {
        let chains = answer->Ok_0;
        if chains@.len() > 0 {
            assert(models(chains@)[0] == chains@[0]@);
        }
    }
}

/// While a backup is followed, a poll that is due asks for the backup's own row as long as the
/// budget lasts, and ends the run beyond that.
pub proof fn law_runs_poll_until_the_budget_is_used_up(
    config: Config,
    run: BackupRun,
    plan: BackupPlan,
    polling: Polling,
    waited: Duration,
    elapsed: Duration,
    after: BackupRun,
    step: RunStep,
)
    requires
        run.phase == RunPhase::Following(plan, polling),
        follows(
            config,
            run,
            RunEvent::Progress { event: PollEvent::Due(waited), elapsed },
            after,
            step,
        ),
    ensures
        waited.nanos() <= polling.timeout.nanos() ==> step == RunStep::QueryStatus(
            polling.backup_id,
        ) && after.phase == run.phase,
        waited.nanos() > polling.timeout.nanos() ==> (step matches RunStep::Finish(
            Err(ClickVaultError::BackupFailed { status, .. }),
        ) && status@ == "TIMEOUT"@),
{
}

/// A backup that is in progress is polled again after the interval, one that failed ends the run
/// with what the server says of it, and so does a query that failed.
pub proof fn law_runs_follow_what_the_server_says(
    config: Config,
    run: BackupRun,
    plan: BackupPlan,
    polling: Polling,
    row: BackupStatus,
    failure: ClickHouseFailure,
    elapsed: Duration,
    after: BackupRun,
    step: RunStep,
)
    requires
        run.phase == RunPhase::Following(plan, polling),
    ensures
        follows(
            config,
            run,
            RunEvent::Progress { event: PollEvent::Answered(Err(failure)), elapsed },
            after,
            step,
        ) ==> step == RunStep::Finish(
            Err::<BackupResult, ClickVaultError>(ClickVaultError::ClickHouse(failure)),
        ),
        follows(
            config,
            run,
            RunEvent::Progress { event: PollEvent::Answered(Ok(Some(row))), elapsed },
            after,
            step,
        ) ==> {
            &&& row.status@ == "CREATING_BACKUP"@ ==> step == RunStep::Sleep(polling.poll_interval)
                && (after.phase matches RunPhase::Following(p, next) && p == plan && next.backup_id
                == polling.backup_id && next.timeout == polling.timeout && next.missing_polls == 0
                && next.unknown_polls == 0)
            &&& row.status@ == "BACKUP_FAILED"@ || row.status@ == "BACKUP_CANCELLED"@ ==> (
            step matches RunStep::Finish(Err(ClickVaultError::BackupFailed { status, .. }))
                && status@ == row.status@)
        },
        follows(
            config,
            run,
            RunEvent::Progress { event: PollEvent::Answered(Ok(None)), elapsed },
            after,
            step,
        ) ==> (polling.missing_polls + 1 < 3 ==> step == RunStep::Sleep(polling.poll_interval) && (
        after.phase matches RunPhase::Following(p, next) && p == plan && next.missing_polls
            == polling.missing_polls + 1)) && (polling.missing_polls + 1 >= 3 ==> step
            == RunStep::RollBack(plan.path)),
{
    reveal_strlit("CREATING_BACKUP");
    reveal_strlit("BACKUP_CREATED");
    reveal_strlit("BACKUP_FAILED");
    reveal_strlit("BACKUP_CANCELLED");
    assert("BACKUP_CANCELLED"@.len() == 16);
    assert("CREATING_BACKUP"@.len() == 15);
    assert("BACKUP_CREATED"@.len() == 14);
    assert("BACKUP_FAILED"@.len() == 13);
}

/// After a rollback the run ends with the error that made it necessary.
pub proof fn law_rollbacks_end_in_their_cause(
    config: Config,
    run: BackupRun,
    plan: BackupPlan,
    error: ClickVaultError,
    after: BackupRun,
    step: RunStep,
)
    requires
        run.phase == RunPhase::RollingBack(plan, error),
        follows(config, run, RunEvent::RolledBack, after, step),
    ensures
        step == RunStep::Finish(Err::<BackupResult, ClickVaultError>(error)),
        after.phase is Over,
{
}

} // verus!
