//! Following a running backup in system.backups.
use vstd::prelude::*;
use vstd::string::*;

use crate::error::{ClickHouseFailure, ClickVaultError};
use crate::retry::{
    RetryPolicy, RetryStep, cap_nanos, delay_is_defined, is_jitter, is_retried, with_retry,
};
use crate::s3::RequestStep;
use crate::text::{decimal, decimal_text};
use crate::time::{Duration, Timestamp};

verus! {

/// Column list shared by every SELECT that reads system.backups into a [`BackupStatus`]. The order
/// is that of the fields.
///
/// The `start_ts`/`end_ts` expressions use table-qualified column names: `toString(start_time) AS
/// start_time` shadows the column with a String alias, and a bare `toUnixTimestamp(start_time)`
/// would resolve to that alias and fail to parse.
pub const BACKUP_STATUS_COLUMNS: &'static str =
    "id, toString(status) AS status, toString(start_time) AS start_time, toString(end_time) AS end_time, toUnixTimestamp(system.backups.start_time) AS start_ts, toUnixTimestamp(system.backups.end_time) AS end_ts, total_size, ifNull(error, '') AS error";

/// Whether a ClickHouse failure is a transport-level blip worth retrying.
pub open spec fn is_blip(failure: ClickHouseFailure) -> bool {
    failure is Network || failure is TimedOut
}

/// Whether a ClickHouse failure is a transport-level blip worth retrying. Everything else (server
/// exceptions, parse errors) is a definitive answer.
pub fn is_transient_clickhouse(e: &ClickHouseFailure) -> (r: bool)
    ensures
        r == is_blip(*e),
{
    match e {
        ClickHouseFailure::Network(_) => true,
        ClickHouseFailure::TimedOut(_) => true,
        ClickHouseFailure::Other(_) => false,
    }
}

/// One row of system.backups.
#[derive(Debug)]
pub struct BackupStatus {
    pub id: String,
    pub status: String,
    pub start_time: String,
    pub end_time: String,
    /// The start in seconds since the Unix epoch; 0 while it is not set.
    pub start_ts: u32,
    /// The end in seconds since the Unix epoch; 0 while it is not set.
    pub end_ts: u32,
    pub total_size: u64,
    pub error: String,
}

impl Clone for BackupStatus {
    fn clone(&self) -> (r: Self)
        ensures
            r == *self,
    {
        BackupStatus {
            id: self.id.clone(),
            status: self.status.clone(),
            start_time: self.start_time.clone(),
            end_time: self.end_time.clone(),
            start_ts: self.start_ts,
            end_ts: self.end_ts,
            total_size: self.total_size,
            error: self.error.clone(),
        }
    }
}

/// Whether a point in time is the one that a number of seconds since the Unix epoch names, where 0
/// names none.
pub open spec fn is_epoch_secs(secs: u32, t: Option<Timestamp>) -> bool {
    match t {
        None => secs == 0,
        Some(t) => secs != 0 && t.secs() == secs && t.nanos() == 0,
    }
}

impl BackupStatus {
    /// Actual start of the backup as recorded by ClickHouse (UTC).
    pub fn started_at(&self) -> (r: Option<Timestamp>)
        ensures
            is_epoch_secs(self.start_ts, r),
    {
        epoch_secs(self.start_ts)
    }

    /// Actual end of the backup as recorded by ClickHouse (UTC); `None` while the backup is still
    /// running.
    pub fn finished_at(&self) -> (r: Option<Timestamp>)
        ensures
            is_epoch_secs(self.end_ts, r),
    {
        epoch_secs(self.end_ts)
    }
}

/// The point in time that a number of seconds since the Unix epoch names; 0 names none.
pub fn epoch_secs(secs: u32) -> (r: Option<Timestamp>)
    ensures
        is_epoch_secs(secs, r),
{
    if secs != 0 {
        Timestamp::from_parts(secs as i64, 0)
    } else {
        None
    }
}

/// How many consecutive polls may find no row in system.backups before the backup's state is
/// considered lost. system.backups is in-memory: its rows vanish when the ClickHouse server
/// restarts.
pub const MAX_MISSING_POLLS: u32 = 3;

/// How many consecutive polls may return an unrecognized status before giving up, rather than
/// spinning until the overall timeout.
pub const MAX_UNKNOWN_POLLS: u32 = 5;

/// What the poll loop should do after classifying an observed status.
#[derive(Debug, PartialEq)]
pub enum PollAction {
    InProgress,
    Completed,
    Failed { status: String, message: String },
    Unknown,
}

/// What a status stands for.
pub enum StatusClass {
    InProgress,
    Completed,
    Failed,
    Unknown,
}

/// What a status stands for.
pub open spec fn status_class(status: Seq<char>) -> StatusClass {
    if status == "CREATING_BACKUP"@ {
        StatusClass::InProgress
    } else if status == "BACKUP_CREATED"@ {
        StatusClass::Completed
    } else if status == "BACKUP_FAILED"@ || status == "BACKUP_CANCELLED"@ {
        StatusClass::Failed
    } else {
        StatusClass::Unknown
    }
}

/// What a failed backup is reported with: the server's error, or the status where there is none.
pub open spec fn failure_message(status: BackupStatus) -> Seq<char> {
    if status.error@.len() == 0 {
        "backup ended with status "@ + status.status@
    } else {
        status.error@
    }
}

/// Classifies a status of system.backups.
pub fn classify_status(status: &BackupStatus) -> (r: PollAction)
    ensures
        match status_class(status.status@) {
            StatusClass::InProgress => r is InProgress,
            StatusClass::Completed => r is Completed,
            StatusClass::Failed => r matches PollAction::Failed { status: s, message } && s
                == status.status && message@ == failure_message(*status),
            StatusClass::Unknown => r is Unknown,
        },
{
    if status.status == "CREATING_BACKUP".to_owned() {
        PollAction::InProgress
    } else if status.status == "BACKUP_CREATED".to_owned() {
        PollAction::Completed
    } else if status.status == "BACKUP_FAILED".to_owned() || status.status
        == "BACKUP_CANCELLED".to_owned() {
        PollAction::Failed {
            status: status.status.clone(),
            message: if status.error.as_str().is_empty() {
                "backup ended with status ".to_owned().concat(status.status.as_str())
            } else {
                status.error.clone()
            },
        }
    } else {
        PollAction::Unknown
    }
}

/// A backup that is followed until it completes or fails.
#[derive(Debug)]
pub struct Polling {
    pub backup_id: String,
    pub poll_interval: Duration,
    pub timeout: Duration,
    /// How many polls in a row found no row.
    pub missing_polls: u32,
    /// How many polls in a row found an unrecognized status.
    pub unknown_polls: u32,
}

/// What happens while a backup is followed.
#[derive(Debug)]
pub enum PollEvent {
    /// It is time to poll; so much time has passed since the start.
    Due(Duration),
    /// The query for the backup's row was answered.
    Answered(Result<Option<BackupStatus>, ClickHouseFailure>),
}

/// What to do next while a backup is followed.
#[derive(Debug)]
pub enum PollStep {
    /// Query the backup's row.
    Query,
    /// Wait this long; then it is time to poll again.
    Sleep(Duration),
    /// The backup completed; this is its last status.
    Completed(BackupStatus),
    /// The backup failed, or following it did.
    Failed(ClickVaultError),
}

/// How many polls in a row missed a backup or found an unrecognized status.
pub struct PollCounts {
    pub missing: nat,
    pub unknown: nat,
}

impl Polling {
    /// Starts to follow a backup.
    pub fn begin(backup_id: String, poll_interval: Duration, timeout: Duration) -> (r: Polling)
        ensures
            r == (Polling { backup_id, poll_interval, timeout, missing_polls: 0, unknown_polls: 0 }),
    {
        Polling { backup_id, poll_interval, timeout, missing_polls: 0, unknown_polls: 0 }
    }

    /// How many polls in a row missed the backup or found an unrecognized status.
    pub open spec fn counts(self) -> PollCounts {
        PollCounts { missing: self.missing_polls as nat, unknown: self.unknown_polls as nat }
    }

    /// Whether following the backup still goes on.
    pub open spec fn goes_on(self) -> bool {
        self.missing_polls < MAX_MISSING_POLLS && self.unknown_polls < MAX_UNKNOWN_POLLS
    }

    /// Whether this is the same backup, followed in the same way, with these counts.
    pub open spec fn is_with(self, before: Polling, counts: PollCounts) -> bool {
        &&& self.backup_id == before.backup_id
        &&& self.poll_interval == before.poll_interval
        &&& self.timeout == before.timeout
        &&& self.counts() == counts
    }
}

/// What a poll finds.
pub enum Sighting {
    /// No row.
    Missing,
    /// A row with a status of this class.
    Seen(StatusClass),
}

/// What a poll finds.
pub open spec fn sighting(found: Option<BackupStatus>) -> Sighting {
    match found {
        None => Sighting::Missing,
        Some(status) => Sighting::Seen(status_class(status.status@)),
    }
}

/// The counts after a poll: a row that is found ends a series of misses, and a poll without a row
/// ends a series of unrecognized statuses, as does a backup that is seen in progress.
pub open spec fn counted(counts: PollCounts, found: Sighting) -> PollCounts {
    match found {
        Sighting::Missing => PollCounts { missing: counts.missing + 1, unknown: 0 },
        Sighting::Seen(StatusClass::InProgress) => PollCounts { missing: 0, unknown: 0 },
        Sighting::Seen(StatusClass::Unknown) => PollCounts {
            missing: 0,
            unknown: counts.unknown + 1,
        },
        Sighting::Seen(_) => PollCounts { missing: 0, ..counts },
    }
}

/// What is said of a backup that did not complete in time.
pub open spec fn timeout_message(backup_id: Seq<char>, timeout: Duration) -> Seq<char> {
    "Backup "@ + backup_id + " did not complete within "@ + decimal_text(
        timeout.nanos() / 1_000_000_000,
    ) + "s"@
}

/// What is said of a backup whose status stayed unrecognized.
pub open spec fn unknown_message(polls: nat, status: Seq<char>) -> Seq<char> {
    "backup did not reach a known state after "@ + decimal_text(polls)
        + " consecutive polls with unrecognized status '"@ + status + "'"@
}

/// Whether an error says that a backup failed, with this status and message.
pub open spec fn is_backup_failure(
    error: ClickVaultError,
    status: Seq<char>,
    message: Seq<char>,
) -> bool {
    error matches ClickVaultError::BackupFailed { status: s, message: m } && s@ == status && m@
        == message
}

/// What is done when it is time to poll.
pub open spec fn due_step(polling: Polling, elapsed: Duration, step: PollStep) -> bool {
    if elapsed.nanos() > polling.timeout.nanos() {
        step matches PollStep::Failed(e) && is_backup_failure(
            e,
            "TIMEOUT"@,
            timeout_message(polling.backup_id@, polling.timeout),
        )
    } else {
        step is Query
    }
}

/// What is done when a poll found this, where `counts` are the counts after it.
pub open spec fn found_step(
    polling: Polling,
    found: Option<BackupStatus>,
    counts: PollCounts,
    step: PollStep,
) -> bool {
    match found {
        None => if counts.missing >= MAX_MISSING_POLLS {
            step matches PollStep::Failed(ClickVaultError::BackupStateLost { id, polls }) && id@
                == polling.backup_id@ && polls == counts.missing
        } else {
            step == PollStep::Sleep(polling.poll_interval)
        },
        Some(status) => match status_class(status.status@) {
            StatusClass::InProgress => step == PollStep::Sleep(polling.poll_interval),
            StatusClass::Completed => step == PollStep::Completed(status),
            StatusClass::Failed => step matches PollStep::Failed(e) && is_backup_failure(
                e,
                status.status@,
                failure_message(status),
            ),
            StatusClass::Unknown => if counts.unknown >= MAX_UNKNOWN_POLLS {
                step matches PollStep::Failed(e) && is_backup_failure(
                    e,
                    status.status@,
                    unknown_message(counts.unknown, status.status@),
                )
            } else {
                step == PollStep::Sleep(polling.poll_interval)
            },
        },
    }
}

/// Follows a backup until it completes or fails, one event at a time.
///
/// The time budget is checked before each query. A missing row and an unrecognized status are
/// tolerated for a few polls each.
pub fn poll_until_complete(polling: &mut Polling, event: PollEvent) -> (r: PollStep)
    requires
        old(polling).goes_on(),
    ensures
        match event {
            PollEvent::Due(elapsed) => *final(polling) == *old(polling) && due_step(
                *old(polling),
                elapsed,
                r,
            ),
            PollEvent::Answered(Err(failure)) => *final(polling) == *old(polling) && r
                == PollStep::Failed(ClickVaultError::ClickHouse(failure)),
            PollEvent::Answered(Ok(found)) => {
                let counts = counted(old(polling).counts(), sighting(found));
                final(polling).is_with(*old(polling), counts) && found_step(
                    *old(polling),
                    found,
                    counts,
                    r,
                )
            },
        },
        !(r is Failed) ==> final(polling).goes_on(),
{
    match event {
        PollEvent::Due(elapsed) => {
            if elapsed.is_longer_than(&polling.timeout) {
                let message = "Backup ".to_owned().concat(polling.backup_id.as_str()).concat(
                    " did not complete within ",
                ).concat(decimal(polling.timeout.as_secs()).as_str()).concat("s");
                return PollStep::Failed(
                    ClickVaultError::BackupFailed { status: "TIMEOUT".to_owned(), message },
                );
            }
            PollStep::Query
        },
        PollEvent::Answered(Err(failure)) => PollStep::Failed(ClickVaultError::ClickHouse(failure)),
        PollEvent::Answered(Ok(None)) => {
            polling.missing_polls = polling.missing_polls + 1;
            polling.unknown_polls = 0;
            if polling.missing_polls >= MAX_MISSING_POLLS {
                return PollStep::Failed(
                    ClickVaultError::BackupStateLost {
                        id: polling.backup_id.clone(),
                        polls: polling.missing_polls,
                    },
                );
            }
            PollStep::Sleep(polling.poll_interval)
        },
        PollEvent::Answered(Ok(Some(status))) => {
            polling.missing_polls = 0;
            match classify_status(&status) {
                PollAction::InProgress => {
                    polling.unknown_polls = 0;
                    PollStep::Sleep(polling.poll_interval)
                },
                PollAction::Completed => PollStep::Completed(status),
                PollAction::Failed { status, message } => PollStep::Failed(
                    ClickVaultError::BackupFailed { status, message },
                ),
                PollAction::Unknown => {
                    polling.unknown_polls = polling.unknown_polls + 1;
                    if polling.unknown_polls >= MAX_UNKNOWN_POLLS {
                        let message =
                            "backup did not reach a known state after ".to_owned().concat(
                            decimal(polling.unknown_polls as u64).as_str(),
                        ).concat(" consecutive polls with unrecognized status '").concat(
                            status.status.as_str(),
                        ).concat("'");
                        return PollStep::Failed(
                            ClickVaultError::BackupFailed { status: status.status, message },
                        );
                    }
                    PollStep::Sleep(polling.poll_interval)
                },
            }
        },
    }
}

/// What the polls of a backup come to in the end.
pub enum PollEnd {
    /// No poll decided it.
    Open,
    /// The backup completed.
    Completed,
    /// The backup failed.
    Failed,
    /// The server lost the backup.
    Lost,
    /// The status stayed unrecognized.
    Unrecognized,
}

/// What one poll decides, where `counts` are the counts after it.
pub open spec fn poll_end(found: Sighting, counts: PollCounts) -> PollEnd {
    match found {
        Sighting::Missing => if counts.missing >= MAX_MISSING_POLLS {
            PollEnd::Lost
        } else {
            PollEnd::Open
        },
        Sighting::Seen(StatusClass::InProgress) => PollEnd::Open,
        Sighting::Seen(StatusClass::Completed) => PollEnd::Completed,
        Sighting::Seen(StatusClass::Failed) => PollEnd::Failed,
        Sighting::Seen(StatusClass::Unknown) => if counts.unknown >= MAX_UNKNOWN_POLLS {
            PollEnd::Unrecognized
        } else {
            PollEnd::Open
        },
    }
}

/// What a step decides.
pub open spec fn step_end(step: PollStep) -> PollEnd {
    match step {
        PollStep::Completed(_) => PollEnd::Completed,
        PollStep::Failed(ClickVaultError::BackupStateLost { .. }) => PollEnd::Lost,
        PollStep::Failed(_) => PollEnd::Failed,
        _ => PollEnd::Open,
    }
}

/// What a series of polls comes to.
pub open spec fn polls_end(counts: PollCounts, found: Seq<Sighting>) -> PollEnd
    decreases found.len(),
{
    if found.len() == 0 {
        PollEnd::Open
    } else {
        let after = counted(counts, found[0]);
        match poll_end(found[0], after) {
            PollEnd::Open => polls_end(after, found.skip(1)),
            end => end,
        }
    }
}

/// The counts when following a backup starts.
pub open spec fn no_counts() -> PollCounts {
    PollCounts { missing: 0, unknown: 0 }
}

/// A missing row is tolerated for a few polls: a backup that is in progress, then missed fewer
/// times in a row than the limit, and then found completed has completed.
pub proof fn law_short_gaps_are_survived(counts: PollCounts, gap: Seq<Sighting>, after: Seq<Sighting>)
    requires
        counts.missing + gap.len() < MAX_MISSING_POLLS,
        forall|k: int| 0 <= k < gap.len() ==> (#[trigger] gap[k]) is Missing,
        after.len() > 0,
        after[0] == Sighting::Seen(StatusClass::Completed),
    ensures
        polls_end(counts, gap + after) is Completed,
    decreases gap.len(),
{
    let all = gap + after;
    if gap.len() == 0 {
        assert(all[0] == after[0]);
    } else {
        assert(all[0] == gap[0]);
        assert(all.skip(1) =~= gap.skip(1) + after);
        assert forall|k: int| 0 <= k < gap.skip(1).len() implies (#[trigger] gap.skip(
            1,
        )[k]) is Missing by {
            assert(gap.skip(1)[k] == gap[k + 1]);
        }
        law_short_gaps_are_survived(counted(counts, gap[0]), gap.skip(1), after);
    }
}

/// A backup whose row stays away is reported as lost, whatever would be found later.
pub proof fn law_lost_backups_are_reported(counts: PollCounts, gap: Seq<Sighting>, after: Seq<Sighting>)
    requires
        counts.missing + gap.len() == MAX_MISSING_POLLS,
        gap.len() > 0,
        forall|k: int| 0 <= k < gap.len() ==> (#[trigger] gap[k]) is Missing,
    ensures
        polls_end(counts, gap + after) is Lost,
    decreases gap.len(),
{
    let all = gap + after;
    assert(all[0] == gap[0]);
    if gap.len() > 1 {
        assert(all.skip(1) =~= gap.skip(1) + after);
        assert forall|k: int| 0 <= k < gap.skip(1).len() implies (#[trigger] gap.skip(
            1,
        )[k]) is Missing by {
            assert(gap.skip(1)[k] == gap[k + 1]);
        }
        law_lost_backups_are_reported(counted(counts, gap[0]), gap.skip(1), after);
    }
}

/// A status that stays unrecognized ends the polls, rather than spinning until the timeout.
pub proof fn law_unrecognized_statuses_fail_fast(
    counts: PollCounts,
    series: Seq<Sighting>,
    after: Seq<Sighting>,
)
    requires
        counts.unknown + series.len() == MAX_UNKNOWN_POLLS,
        series.len() > 0,
        forall|k: int|
            0 <= k < series.len() ==> (#[trigger] series[k]) == Sighting::Seen(StatusClass::Unknown),
    ensures
        polls_end(counts, series + after) is Unrecognized,
    decreases series.len(),
{
    let all = series + after;
    assert(all[0] == series[0]);
    if series.len() > 1 {
        assert(all.skip(1) =~= series.skip(1) + after);
        assert forall|k: int| 0 <= k < series.skip(1).len() implies (#[trigger] series.skip(1)[k])
            == Sighting::Seen(StatusClass::Unknown) by {
            assert(series.skip(1)[k] == series[k + 1]);
        }
        law_unrecognized_statuses_fail_fast(
            counted(counts, series[0]),
            series.skip(1),
            after,
        );
    }
}

/// Whether the polls from `n` on, as many as are tolerated, all found an unrecognized status.
pub open spec fn stays_unrecognized(found: Seq<Sighting>, n: int) -> bool {
    &&& 0 <= n
    &&& n + MAX_UNKNOWN_POLLS <= found.len()
    &&& forall|k: int|
        n <= k < n + MAX_UNKNOWN_POLLS ==> (#[trigger] found[k]) == Sighting::Seen(
            StatusClass::Unknown,
        )
}

/// Only consecutive polls with an unrecognized status end the polls: anything else that a poll
/// finds, no row included, starts the count anew.
pub proof fn law_only_consecutive_unrecognized_statuses_fail(found: Seq<Sighting>)
    requires
        polls_end(no_counts(), found) is Unrecognized,
    ensures
        exists|n: int| #[trigger] stays_unrecognized(found, n),
{
    let last = lemma_unrecognized_series(no_counts(), found);
    assert(stays_unrecognized(found, last + 1 - MAX_UNKNOWN_POLLS));
}

/// The poll that ends the polls for an unrecognized status ends a series of such polls, which may
/// have begun before the first poll in `found`.
proof fn lemma_unrecognized_series(counts: PollCounts, found: Seq<Sighting>) -> (last: int)
    requires
        counts.unknown < MAX_UNKNOWN_POLLS,
        polls_end(counts, found) is Unrecognized,
    ensures
        0 <= last < found.len(),
        counts.unknown + last + 1 >= MAX_UNKNOWN_POLLS,
        last + 1 < MAX_UNKNOWN_POLLS || stays_unrecognized(found, last + 1 - MAX_UNKNOWN_POLLS),
        forall|k: int|
            0 <= k <= last && last - k < MAX_UNKNOWN_POLLS ==> (#[trigger] found[k])
                == Sighting::Seen(StatusClass::Unknown),
    decreases found.len(),
{
    let after = counted(counts, found[0]);
    if poll_end(found[0], after) is Open {
        let rest = found.skip(1);
        let last = lemma_unrecognized_series(after, rest);
        assert forall|k: int|
            0 <= k <= last + 1 && last + 1 - k < MAX_UNKNOWN_POLLS implies (#[trigger] found[k])
            == Sighting::Seen(StatusClass::Unknown) by {
            if k > 0 {
                assert(found[k] == rest[k - 1]);
            }
        }
        last + 1
    } else {
        0
    }
}

/// What a poll decides is what following the backup does: a step that the rules for a poll allow
/// ends the polls exactly where the poll decides, and as it decides.
pub proof fn law_steps_decide_as_polls_do(
    polling: Polling,
    found: Option<BackupStatus>,
    step: PollStep,
)
    requires
        found_step(polling, found, counted(polling.counts(), sighting(found)), step),
    ensures
        ({
            let end = poll_end(sighting(found), counted(polling.counts(), sighting(found)));
            &&& step_end(step) is Open <==> end is Open
            &&& step_end(step) is Completed <==> end is Completed
            &&& step_end(step) is Lost <==> end is Lost
            &&& step_end(step) is Failed <==> end is Failed || end is Unrecognized
        }),
{
}

/// A backup that was cancelled has failed for good.
pub proof fn law_cancelled_backups_have_failed(counts: PollCounts)
    ensures
        poll_end(
            Sighting::Seen(status_class("BACKUP_CANCELLED"@)),
            counted(counts, Sighting::Seen(status_class("BACKUP_CANCELLED"@))),
        ) is Failed,
{
    reveal_strlit("BACKUP_CANCELLED");
    reveal_strlit("CREATING_BACKUP");
    reveal_strlit("BACKUP_CREATED");
    assert("BACKUP_CANCELLED"@.len() == 16);
}

/// The query for the row of one backup; the id is bound to its parameter.
pub fn backup_status_sql() -> (r: String)
    ensures
        r@ == "SELECT "@ + BACKUP_STATUS_COLUMNS@ + " FROM system.backups WHERE id = ?"@,
{
    "SELECT ".to_owned().concat(BACKUP_STATUS_COLUMNS).concat(
        " FROM system.backups WHERE id = ?",
    )
}

/// The query for the most recent backups; the limit is bound to its parameter.
pub fn recent_backups_sql() -> (r: String)
    ensures
        r@ == "SELECT "@ + BACKUP_STATUS_COLUMNS@
            + " FROM system.backups ORDER BY start_time DESC LIMIT ?"@,
{
    "SELECT ".to_owned().concat(BACKUP_STATUS_COLUMNS).concat(
        " FROM system.backups ORDER BY start_time DESC LIMIT ?",
    )
}

/// The query for the backups that are in progress.
pub fn in_progress_sql() -> (r: String)
    ensures
        r@ == "SELECT "@ + BACKUP_STATUS_COLUMNS@
            + " FROM system.backups WHERE status = 'CREATING_BACKUP'"@,
{
    "SELECT ".to_owned().concat(BACKUP_STATUS_COLUMNS).concat(
        " FROM system.backups WHERE status = 'CREATING_BACKUP'",
    )
}

/// Whether a query whose attempt number `attempt` failed is sent again.
pub open spec fn is_queried_again(
    policy: RetryPolicy,
    attempt: nat,
    failure: ClickHouseFailure,
) -> bool {
    is_retried(policy, attempt, is_blip(failure))
}

/// What follows when attempt number `attempt` (0-based) to query one backup's row was answered.
pub fn get_backup_status(
    policy: &RetryPolicy,
    attempt: u32,
    answer: Result<Option<BackupStatus>, ClickHouseFailure>,
) -> (r: RequestStep<Result<Option<BackupStatus>, ClickHouseFailure>>)
    requires
        answer matches Err(failure) && is_queried_again(*policy, attempt as nat, failure)
            ==> delay_is_defined(*policy, attempt as nat),
    ensures
        match answer {
            Ok(_) => r == RequestStep::Done(answer),
            Err(failure) => match r {
                RequestStep::RetryAfter(delay) => is_queried_again(
                    *policy,
                    attempt as nat,
                    failure,
                ) && is_jitter(cap_nanos(*policy, attempt as nat), delay.nanos()),
                RequestStep::Done(result) => !is_queried_again(*policy, attempt as nat, failure)
                    && result == answer,
            },
        },
{
    match answer {
        Ok(found) => RequestStep::Done(Ok(found)),
        Err(failure) => match with_retry(policy, attempt, is_transient_clickhouse(&failure)) {
            RetryStep::RetryAfter(delay) => RequestStep::RetryAfter(delay),
            RetryStep::GiveUp => RequestStep::Done(Err(failure)),
        },
    }
}

/// What follows when attempt number `attempt` (0-based) to query several rows of system.backups
/// was answered.
pub fn get_recent_backups(
    policy: &RetryPolicy,
    attempt: u32,
    answer: Result<Vec<BackupStatus>, ClickHouseFailure>,
) -> (r: RequestStep<Result<Vec<BackupStatus>, ClickVaultError>>)
    requires
        answer matches Err(failure) && is_queried_again(*policy, attempt as nat, failure)
            ==> delay_is_defined(*policy, attempt as nat),
    ensures
        match answer {
            Ok(rows) => r == RequestStep::Done(Ok::<Vec<BackupStatus>, ClickVaultError>(rows)),
            Err(failure) => match r {
                RequestStep::RetryAfter(delay) => is_queried_again(
                    *policy,
                    attempt as nat,
                    failure,
                ) && is_jitter(cap_nanos(*policy, attempt as nat), delay.nanos()),
                RequestStep::Done(result) => !is_queried_again(*policy, attempt as nat, failure)
                    && result == Err::<Vec<BackupStatus>, ClickVaultError>(
                    ClickVaultError::ClickHouse(failure),
                ),
            },
        },
{
    match answer {
        Ok(rows) => RequestStep::Done(Ok(rows)),
        Err(failure) => match with_retry(policy, attempt, is_transient_clickhouse(&failure)) {
            RetryStep::RetryAfter(delay) => RequestStep::RetryAfter(delay),
            RetryStep::GiveUp => RequestStep::Done(Err(ClickVaultError::ClickHouse(failure))),
        },
    }
}

/// A poll that is due fails with a timeout exactly where more time has passed than the configured
/// budget; up to that, the backup is polled on.
pub proof fn law_timeouts_come_exactly_after_the_budget(
    polling: Polling,
    elapsed: Duration,
    step: PollStep,
)
    requires
        due_step(polling, elapsed, step),
    ensures
        elapsed.nanos() <= polling.timeout.nanos() <==> step is Query,
        elapsed.nanos() > polling.timeout.nanos() ==> (step matches PollStep::Failed(
            ClickVaultError::BackupFailed { status, message },
        ) && status@ == "TIMEOUT"@ && message@ == "Backup "@ + polling.backup_id@
            + " did not complete within "@ + decimal_text(polling.timeout.nanos() / 1_000_000_000)
            + "s"@),
{
}

/// What a row leads to goes by its status: a created backup has completed, one that is being
/// created is waited for, and a failed or cancelled one has failed with what the server says of
/// it.
pub proof fn law_known_statuses_decide(
    polling: Polling,
    row: BackupStatus,
    counts: PollCounts,
    step: PollStep,
)
    requires
        found_step(polling, Some(row), counts, step),
    ensures
        row.status@ == "BACKUP_CREATED"@ <==> step is Completed,
        row.status@ == "BACKUP_CREATED"@ ==> step == PollStep::Completed(row),
        row.status@ == "CREATING_BACKUP"@ ==> step == PollStep::Sleep(polling.poll_interval),
        row.status@ == "BACKUP_FAILED"@ || row.status@ == "BACKUP_CANCELLED"@ ==> (
        step matches PollStep::Failed(ClickVaultError::BackupFailed { status, message })
            && status@ == row.status@ && (row.error@.len() > 0 ==> message@ == row.error@) && (
        row.error@.len() == 0 ==> message@ == "backup ended with status "@ + row.status@)),
        row.status@ != "BACKUP_CREATED"@ && row.status@ != "CREATING_BACKUP"@ && row.status@
            != "BACKUP_FAILED"@ && row.status@ != "BACKUP_CANCELLED"@ ==> (step is Failed
            <==> counts.unknown >= 5) && (step is Sleep <==> counts.unknown < 5) && (
        step matches PollStep::Sleep(wait) ==> wait == polling.poll_interval),
{
    reveal_strlit("CREATING_BACKUP");
    reveal_strlit("BACKUP_CREATED");
    reveal_strlit("BACKUP_FAILED");
    reveal_strlit("BACKUP_CANCELLED");
    assert("BACKUP_CANCELLED"@.len() == 16);
    assert("CREATING_BACKUP"@.len() == 15);
    assert("BACKUP_CREATED"@.len() == 14);
    assert("BACKUP_FAILED"@.len() == 13);
}

/// A backup without a row is waited for, until the third poll in a row misses it: then it is lost.
pub proof fn law_third_miss_loses_the_backup(polling: Polling, counts: PollCounts, step: PollStep)
    requires
        found_step(polling, None, counts, step),
    ensures
        counts.missing < 3 <==> step == PollStep::Sleep(polling.poll_interval),
        counts.missing >= 3 ==> (step matches PollStep::Failed(
            ClickVaultError::BackupStateLost { id, polls },
        ) && id@ == polling.backup_id@ && polls == counts.missing),
{
}

/// Whether the polls from `n` on, as many as are tolerated, all found no row.
pub open spec fn stays_away(found: Seq<Sighting>, n: int) -> bool {
    &&& 0 <= n
    &&& n + MAX_MISSING_POLLS <= found.len()
    &&& forall|k: int| n <= k < n + MAX_MISSING_POLLS ==> (#[trigger] found[k]) is Missing
}

/// Polls end only for a reason that they found: a backup has completed or failed only where a row
/// said so, and is lost only where it was missed in consecutive polls.
pub proof fn law_polls_end_for_what_they_found(found: Seq<Sighting>)
    ensures
        polls_end(no_counts(), found) is Completed ==> found.contains(
            Sighting::Seen(StatusClass::Completed),
        ),
        polls_end(no_counts(), found) is Failed ==> found.contains(
            Sighting::Seen(StatusClass::Failed),
        ),
        polls_end(no_counts(), found) is Lost ==> exists|n: int| #[trigger] stays_away(found, n),
        polls_end(no_counts(), found) is Open ==> !found.contains(
            Sighting::Seen(StatusClass::Completed),
        ) && !found.contains(Sighting::Seen(StatusClass::Failed)),
{
    lemma_polls_end(no_counts(), found);
    if polls_end(no_counts(), found) is Lost {
        let last = lemma_missing_series(no_counts(), found);
        assert(stays_away(found, last + 1 - MAX_MISSING_POLLS));
    }
}

proof fn lemma_polls_end(counts: PollCounts, found: Seq<Sighting>)
    ensures
        polls_end(counts, found) is Completed ==> found.contains(
            Sighting::Seen(StatusClass::Completed),
        ),
        polls_end(counts, found) is Failed ==> found.contains(Sighting::Seen(StatusClass::Failed)),
        polls_end(counts, found) is Open ==> !found.contains(
            Sighting::Seen(StatusClass::Completed),
        ) && !found.contains(Sighting::Seen(StatusClass::Failed)),
    decreases found.len(),
{
    if found.len() > 0 {
        let rest = found.skip(1);
        lemma_polls_end(counted(counts, found[0]), rest);
        assert(found.contains(found[0]));
        assert forall|e: Sighting| found.contains(e) <==> found[0] == e || rest.contains(e) by {
            if rest.contains(e) {
                let k = choose|k: int| 0 <= k < rest.len() && rest[k] == e;
                assert(found[k + 1] == e);
            }
            if found.contains(e) && found[0] != e {
                let k = choose|k: int| 0 <= k < found.len() && found[k] == e;
                assert(rest[k - 1] == e);
            }
        }
    }
}

proof fn lemma_missing_series(counts: PollCounts, found: Seq<Sighting>) -> (last: int)
    requires
        counts.missing < MAX_MISSING_POLLS,
        polls_end(counts, found) is Lost,
    ensures
        0 <= last < found.len(),
        counts.missing + last + 1 >= MAX_MISSING_POLLS,
        forall|k: int|
            0 <= k <= last && last - k < MAX_MISSING_POLLS ==> (#[trigger] found[k]) is Missing,
    decreases found.len(),
{
    let after = counted(counts, found[0]);
    if poll_end(found[0], after) is Open {
        let rest = found.skip(1);
        let last = lemma_missing_series(after, rest);
        assert forall|k: int|
            0 <= k <= last + 1 && last + 1 - k < MAX_MISSING_POLLS implies (
        #[trigger] found[k]) is Missing by {
            if k > 0 {
                assert(found[k] == rest[k - 1]);
            }
        }
        last + 1
    } else {
        0
    }
}

/// A query is sent again exactly where the server could not be reached or did not answer in time,
/// and attempts are left.
pub proof fn law_only_blips_are_queried_again(
    policy: RetryPolicy,
    made: nat,
    failure: ClickHouseFailure,
)
    requires
        made > 0,
    ensures
        is_queried_again(policy, (made - 1) as nat, failure) <==> made < policy.attempts && !(
        failure is Other),
{
}

/// A backup window is what the server recorded, to the second; 0 stands for none.
pub proof fn law_backup_windows_are_what_the_server_recorded(secs: u32, t: Option<Timestamp>)
    requires
        is_epoch_secs(secs, t),
    ensures
        t is None <==> secs == 0,
        t matches Some(time) ==> time.secs() == secs && time.nanos() == 0,
{
}

/// A series of misses grows by one with every poll without a row and ends with every row that is
/// found; a series of unrecognized statuses grows by one with every such status, and ends where
/// there is no row or the backup is in progress.
pub proof fn law_series_are_counted(counts: PollCounts, row: BackupStatus)
    ensures
        counted(counts, sighting(None)).missing == counts.missing + 1,
        counted(counts, sighting(None)).unknown == 0,
        counted(counts, sighting(Some(row))).missing == 0,
        row.status@ == "CREATING_BACKUP"@ ==> counted(counts, sighting(Some(row))).unknown == 0,
        row.status@ != "CREATING_BACKUP"@ && row.status@ != "BACKUP_CREATED"@ && row.status@
            != "BACKUP_FAILED"@ && row.status@ != "BACKUP_CANCELLED"@ ==> counted(
            counts,
            sighting(Some(row)),
        ).unknown == counts.unknown + 1,
{
}

/// A backup whose status stays unrecognized fails with that status, and what is said of it names
/// the status and how often it was found.
pub proof fn law_unrecognized_statuses_are_named(
    polling: Polling,
    row: BackupStatus,
    counts: PollCounts,
    step: PollStep,
)
    requires
        found_step(polling, Some(row), counts, step),
        step is Failed,
        row.status@ != "BACKUP_FAILED"@,
        row.status@ != "BACKUP_CANCELLED"@,
    ensures
        step matches PollStep::Failed(ClickVaultError::BackupFailed { status, message }) && status@
            == row.status@ && (decimal_text(counts.unknown)
            + " consecutive polls with unrecognized status '"@ + row.status@ + "'"@).is_suffix_of(
            message@,
        ),
{
    let end = decimal_text(counts.unknown) + " consecutive polls with unrecognized status '"@
        + row.status@ + "'"@;
    let message = unknown_message(counts.unknown, row.status@);
    assert(message.subrange(message.len() - end.len(), message.len() as int) =~= end);
}

/// Following a backup starts with no poll counted, and changes nothing but the counts.
pub proof fn law_following_keeps_backup_and_budget(
    before: Polling,
    counts: PollCounts,
    after: Polling,
)
    requires
        after.is_with(before, counts),
    ensures
        after.backup_id == before.backup_id,
        after.poll_interval == before.poll_interval,
        after.timeout == before.timeout,
        after.missing_polls == counts.missing,
        after.unknown_polls == counts.unknown,
        no_counts().missing == 0 && no_counts().unknown == 0,
        before.goes_on() <==> before.missing_polls < 3 && before.unknown_polls < 5,
{
}

} // verus!
