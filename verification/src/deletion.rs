//! Deleting what stands under a prefix, the metadata sidecar last.
use vstd::prelude::*;

use crate::error::{ClickVaultError, S3Failure};
use crate::retry::{
    RetryPolicy, RetryStep, backoff_delay, cap_nanos, delay_is_defined, is_jitter, with_retry,
};
use crate::time::Duration;
use crate::s3::{
    RequestStep, all_entries, entries_of, is_sent_again, is_transient, is_transient_s3,
    metadata_path, sidecar_path,
};

verus! {

/// Result of deleting the objects under a prefix.
#[derive(Debug, Clone, Copy, PartialEq, Eq, Structural)]
pub struct DeleteOutcome {
    pub deleted: u64,
    /// Objects that could not be deleted, plus the metadata sidecar when it was deliberately kept
    /// because data objects failed to delete.
    pub failed: u64,
}

impl Default for DeleteOutcome {
    fn default() -> (r: Self)
        ensures
            r == (DeleteOutcome { deleted: 0, failed: 0 }),
    {
        DeleteOutcome { deleted: 0, failed: 0 }
    }
}

impl DeleteOutcome {
    /// Whether everything was deleted.
    pub fn is_complete(&self) -> (r: bool)
        ensures
            r == (self.failed == 0),
    {
        self.failed == 0
    }
}

/// The keys that are not the sidecar.
pub open spec fn data_keys(keys: Seq<String>, sidecar: Seq<char>) -> Seq<String> {
    keys.filter(|key: String| key@ != sidecar)
}

/// The keys that are the sidecar.
pub open spec fn sidecar_keys(keys: Seq<String>, sidecar: Seq<char>) -> Seq<String> {
    keys.filter(|key: String| key@ == sidecar)
}

/// Splits keys into (data objects, metadata sidecar) so the sidecar can be deleted last: if
/// deletion is interrupted, the backup stays visible to discovery and the next cleanup run can
/// retry it.
pub fn split_sidecar_last(keys: Vec<String>, sidecar: &str) -> (r: (Vec<String>, Vec<String>))
    ensures
        r.0@ == data_keys(keys@, sidecar@),
        r.1@ == sidecar_keys(keys@, sidecar@),
        r.0@.len() + r.1@.len() == keys@.len(),
{
    let ghost is_data = |key: String| key@ != sidecar@;
    let ghost is_sidecar = |key: String| key@ == sidecar@;
    let name: String = sidecar.to_owned();
    let mut data: Vec<String> = Vec::new();
    let mut sidecars: Vec<String> = Vec::new();
    let mut i: usize = 0;
    proof {
        reveal(Seq::filter);
        assert(keys@.take(0).filter(is_data) =~= Seq::<String>::empty());
        assert(keys@.take(0).filter(is_sidecar) =~= Seq::<String>::empty());
    }
    while i < keys.len()
        invariant
            i <= keys@.len(),
            name@ == sidecar@,
            is_data == (|key: String| key@ != sidecar@),
            is_sidecar == (|key: String| key@ == sidecar@),
            data@ == keys@.take(i as int).filter(is_data),
            sidecars@ == keys@.take(i as int).filter(is_sidecar),
            data@.len() + sidecars@.len() == i,
        decreases keys@.len() - i,
    {
        proof {
            reveal(Seq::filter);
            assert(keys@.take(i + 1).drop_last() =~= keys@.take(i as int));
        }
        if keys[i] != name {
            data.push(keys[i].clone());
        } else {
            sidecars.push(keys[i].clone());
        }
        i = i + 1;
    }
    assert(keys@.take(i as int) =~= keys@);
    (data, sidecars)
}

/// Why one object of a batch could not be deleted.
#[derive(Debug)]
pub struct DeleteError {
    pub key: String,
    pub code: String,
    pub message: String,
    pub version_id: Option<String>,
}

/// The answer to a request that deletes a batch of objects.
#[derive(Debug)]
pub struct DeleteObjectsResult {
    /// The keys that the server lists as deleted. Some servers list none, so nothing is counted
    /// from this.
    pub deleted: Vec<String>,
    pub errors: Vec<DeleteError>,
}

/// The keys that came back as errors.
pub open spec fn errored_keys(result: DeleteObjectsResult) -> Seq<String> {
    result.errors@.map_values(|e: DeleteError| e.key)
}

/// Extracts the keys that came back as per-key errors from a batch-delete response. Every
/// submitted key without an error entry counts as deleted.
pub fn batch_errored_keys(result: &DeleteObjectsResult) -> (r: Vec<String>)
    ensures
        r@ == errored_keys(*result),
{
    let mut r: Vec<String> = Vec::new();
    let mut i: usize = 0;
    while i < result.errors.len()
        invariant
            i <= result.errors@.len(),
            r@ == errored_keys(*result).take(i as int),
        decreases result.errors@.len() - i,
    {
        r.push(result.errors[i].key.clone());
        assert(errored_keys(*result).take(i + 1) =~= errored_keys(*result).take(i as int).push(
            errored_keys(*result)[i as int],
        ));
        i = i + 1;
    }
    assert(errored_keys(*result).take(i as int) =~= errored_keys(*result));
    r
}

/// How far the deletion of some keys has come.
#[derive(Debug)]
pub struct KeyDeletion {
    /// The keys that the next request names; empty once there is nothing left to do.
    pub pending: Vec<String>,
    /// How many requests were answered so far.
    pub attempt: u32,
    pub outcome: DeleteOutcome,
}

/// How far the deletion of some keys has come.
pub struct KeysModel {
    pub pending: Seq<String>,
    pub attempt: nat,
    pub deleted: nat,
    pub failed: nat,
}

impl View for KeyDeletion {
    type V = KeysModel;

    open spec fn view(&self) -> KeysModel {
        KeysModel {
            pending: self.pending@,
            attempt: self.attempt as nat,
            deleted: self.outcome.deleted as nat,
            failed: self.outcome.failed as nat,
        }
    }
}

impl KeysModel {
    /// All keys that are accounted for.
    pub open spec fn total(self) -> nat {
        self.pending.len() + self.deleted + self.failed
    }

    /// Whether nothing is left to do.
    pub open spec fn is_done(self) -> bool {
        self.pending.len() == 0
    }
}

/// What an answer to a batch request says.
pub enum BatchAnswer {
    /// The request was carried out; these keys came back as errors.
    Errored(Seq<String>),
    /// The request failed, but may succeed when sent again.
    Transient,
    /// The request failed for good.
    Definitive,
}

/// What an answer to a batch request says.
pub open spec fn batch_answer(answer: Result<DeleteObjectsResult, S3Failure>) -> BatchAnswer {
    match answer {
        Ok(result) => BatchAnswer::Errored(errored_keys(result)),
        Err(failure) => if is_transient(failure) {
            BatchAnswer::Transient
        } else {
            BatchAnswer::Definitive
        },
    }
}

/// Whether an answer fits a request: no more keys come back as errors than were sent.
pub open spec fn fits(keys: KeysModel, answer: BatchAnswer) -> bool {
    answer matches BatchAnswer::Errored(errored) ==> errored.len() <= keys.pending.len()
}

/// Where the deletion of `pending` starts, on top of what was deleted or failed before. Where the
/// policy allows no attempt, all keys fail at once.
pub open spec fn keys_begun(
    policy: RetryPolicy,
    pending: Seq<String>,
    deleted: nat,
    failed: nat,
) -> KeysModel {
    if policy.attempts == 0 {
        KeysModel { pending: Seq::empty(), attempt: 0, deleted, failed: failed + pending.len() }
    } else {
        KeysModel { pending, attempt: 0, deleted, failed }
    }
}

/// How far the deletion has come after one more answer.
///
/// Keys without an error count as deleted. Those with an error are sent again, as is everything
/// after a transient failure, as long as attempts are left; what is then still pending failed.
pub open spec fn keys_answered(policy: RetryPolicy, keys: KeysModel, answer: BatchAnswer) -> KeysModel {
    let more = keys.attempt + 1 < policy.attempts;
    match answer {
        BatchAnswer::Errored(errored) => {
            let deleted = (keys.deleted + keys.pending.len() - errored.len()) as nat;
            if more || errored.len() == 0 {
                KeysModel { pending: errored, attempt: keys.attempt + 1, deleted, ..keys }
            } else {
                KeysModel {
                    pending: Seq::empty(),
                    attempt: keys.attempt + 1,
                    deleted,
                    failed: keys.failed + errored.len(),
                }
            }
        },
        _ => if more && answer is Transient {
            KeysModel { attempt: keys.attempt + 1, ..keys }
        } else {
            KeysModel {
                pending: Seq::empty(),
                attempt: keys.attempt + 1,
                failed: keys.failed + keys.pending.len(),
                ..keys
            }
        },
    }
}

/// What to do next in a deletion.
#[derive(Debug, Clone, Copy, PartialEq, Eq, Structural)]
pub enum DeleteStep {
    /// Send a batch request with the pending keys.
    Submit,
    /// Wait this long, then send a batch request with the pending keys.
    SubmitAfter(Duration),
    /// There is nothing left to do.
    Finished,
}

impl KeyDeletion {
    /// Where the deletion of `keys` starts, on top of an earlier outcome.
    pub fn begin(policy: &RetryPolicy, keys: Vec<String>, before: DeleteOutcome) -> (r: KeyDeletion)
        requires
            keys@.len() + before.deleted + before.failed <= u64::MAX,
        ensures
            r@ == keys_begun(*policy, keys@, before.deleted as nat, before.failed as nat),
    {
        if policy.attempts == 0 {
            let failed: u64 = before.failed + keys.len() as u64;
            let r = KeyDeletion {
                pending: Vec::new(),
                attempt: 0,
                outcome: DeleteOutcome { deleted: before.deleted, failed },
            };
            assert(r.pending@ =~= Seq::<String>::empty());
            r
        } else {
            KeyDeletion { pending: keys, attempt: 0, outcome: before }
        }
    }

    /// The keys that the next request names.
    pub fn pending_keys(&self) -> (r: &[String])
        ensures
            r@ == self@.pending,
    {
        self.pending.as_slice()
    }

    /// Whether nothing is left to do.
    pub fn is_done(&self) -> (r: bool)
        ensures
            r == self@.is_done(),
    {
        self.pending.len() == 0
    }
}

/// Goes on deleting keys via batch requests, once a request was answered.
///
/// Deletes are idempotent, so both a failed request and individual errored keys are retried with
/// backoff, up to `policy.attempts`; whatever still fails feeds the outcome's `failed` count.
pub fn delete_keys(
    policy: &RetryPolicy,
    keys: &mut KeyDeletion,
    answer: Result<DeleteObjectsResult, S3Failure>,
) -> (r: DeleteStep)
    requires
        fits(old(keys)@, batch_answer(answer)),
        old(keys)@.attempt < policy.attempts,
        old(keys)@.total() <= u64::MAX,
        !keys_answered(*policy, old(keys)@, batch_answer(answer)).is_done() ==> delay_is_defined(
            *policy,
            old(keys)@.attempt,
        ),
    ensures
        final(keys)@ == keys_answered(*policy, old(keys)@, batch_answer(answer)),
        match r {
            DeleteStep::Submit => false,
            DeleteStep::SubmitAfter(delay) => !final(keys)@.is_done() && is_jitter(
                cap_nanos(*policy, old(keys)@.attempt),
                delay.nanos(),
            ),
            DeleteStep::Finished => final(keys)@.is_done(),
        },
{
    let attempt: u32 = keys.attempt;
    let more: bool = attempt < policy.attempts - 1;
    let submitted: u64 = keys.pending.len() as u64;
    match answer {
        Ok(result) => {
            let errored = batch_errored_keys(&result);
            let count: u64 = errored.len() as u64;
            keys.outcome.deleted = keys.outcome.deleted + (submitted - count);
            if more || count == 0 {
                keys.pending = errored;
            } else {
                keys.outcome.failed = keys.outcome.failed + count;
                keys.pending = Vec::new();
                assert(keys.pending@ =~= Seq::<String>::empty());
            }
        },
        Err(failure) => {
            if !(is_transient_s3(&failure) && more) {
                // Definitive failure (or attempts exhausted): per-key state is unknown, but
                // deletes are idempotent and the sidecar stays in place, so the next cleanup run
                // simply retries.
                keys.outcome.failed = keys.outcome.failed + submitted;
                keys.pending = Vec::new();
                assert(keys.pending@ =~= Seq::<String>::empty());
            }
        },
    }
    keys.attempt = attempt + 1;
    if keys.pending.len() == 0 {
        DeleteStep::Finished
    } else {
        DeleteStep::SubmitAfter(backoff_delay(policy, attempt))
    }
}

/// How far the deletion of everything under a prefix has come.
#[derive(Debug)]
pub struct PrefixDeletion {
    /// The keys that are being deleted now.
    pub keys: KeyDeletion,
    /// The metadata sidecar, until its turn comes.
    pub sidecars: Vec<String>,
}

/// How far the deletion of everything under a prefix has come.
pub struct PrefixModel {
    pub keys: KeysModel,
    pub sidecars: Seq<String>,
}

impl View for PrefixDeletion {
    type V = PrefixModel;

    open spec fn view(&self) -> PrefixModel {
        PrefixModel { keys: self.keys@, sidecars: self.sidecars@ }
    }
}

impl PrefixModel {
    /// All keys that are accounted for.
    pub open spec fn total(self) -> nat {
        self.keys.total() + self.sidecars.len()
    }

    /// Whether nothing is left to do.
    pub open spec fn is_done(self) -> bool {
        self.keys.is_done() && self.sidecars.len() == 0
    }
}

/// Gives the sidecar its turn once the data objects are done: it is deleted if every data object
/// was deleted, and otherwise kept and counted as failed.
pub open spec fn settled(policy: RetryPolicy, state: PrefixModel) -> PrefixModel {
    if !state.keys.is_done() || state.sidecars.len() == 0 {
        state
    } else if state.keys.failed == 0 {
        PrefixModel {
            keys: keys_begun(policy, state.sidecars, state.keys.deleted, state.keys.failed),
            sidecars: Seq::empty(),
        }
    } else {
        PrefixModel {
            keys: KeysModel { failed: state.keys.failed + state.sidecars.len(), ..state.keys },
            sidecars: Seq::empty(),
        }
    }
}

/// Where the deletion of everything under a prefix starts, given the keys that stand there.
pub open spec fn prefix_begun(policy: RetryPolicy, prefix: Seq<char>, keys: Seq<String>) -> PrefixModel {
    settled(
        policy,
        PrefixModel {
            keys: keys_begun(policy, data_keys(keys, sidecar_path(prefix)), 0, 0),
            sidecars: sidecar_keys(keys, sidecar_path(prefix)),
        },
    )
}

/// How far the deletion has come after one more answer.
pub open spec fn prefix_answered(
    policy: RetryPolicy,
    state: PrefixModel,
    answer: BatchAnswer,
) -> PrefixModel {
    settled(policy, PrefixModel { keys: keys_answered(policy, state.keys, answer), ..state })
}

/// Gives the sidecar its turn once the data objects are done.
fn settle(policy: &RetryPolicy, state: &mut PrefixDeletion)
    requires
        old(state)@.total() <= u64::MAX,
    ensures
        final(state)@ == settled(*policy, old(state)@),
{
    if state.keys.is_done() && state.sidecars.len() > 0 {
        let mut sidecars: Vec<String> = Vec::new();
        std::mem::swap(&mut sidecars, &mut state.sidecars);
        assert(state.sidecars@ =~= Seq::<String>::empty());
        let outcome = state.keys.outcome;
        if outcome.failed == 0 {
            state.keys = KeyDeletion::begin(policy, sidecars, outcome);
        } else {
            state.keys.outcome.failed = outcome.failed + sidecars.len() as u64;
        }
    }
}

/// What a listing of all keys under a prefix leads to.
#[derive(Debug)]
pub enum DeletionStart {
    /// Go on with the deletion.
    Begun(PrefixDeletion),
    /// The keys cannot be listed.
    Failed(ClickVaultError),
}

/// Starts deleting all objects under a prefix, once attempt number `attempt` (0-based) to list
/// them was answered.
pub fn list_for_delete(
    policy: &RetryPolicy,
    prefix: &str,
    attempt: u32,
    answer: Result<Vec<Vec<String>>, S3Failure>,
) -> (r: RequestStep<DeletionStart>)
    requires
        answer matches Err(failure) && is_sent_again(*policy, attempt as nat, failure)
            ==> delay_is_defined(*policy, attempt as nat),
    ensures
        match answer {
            Ok(pages) => r matches RequestStep::Done(DeletionStart::Begun(state)) && state@
                == prefix_begun(*policy, prefix@, all_entries(pages@)),
            Err(failure) => match r {
                RequestStep::RetryAfter(delay) => is_sent_again(*policy, attempt as nat, failure)
                    && is_jitter(cap_nanos(*policy, attempt as nat), delay.nanos()),
                RequestStep::Done(start) => !is_sent_again(*policy, attempt as nat, failure)
                    && start == DeletionStart::Failed(ClickVaultError::S3(failure)),
            },
        },
{
    match answer {
        Ok(pages) => {
            let keys = entries_of(pages);
            let count: usize = keys.len();
            let (data, sidecars) = split_sidecar_last(keys, metadata_path(prefix).as_str());
            assert(data@.len() + sidecars@.len() == count);
            let before = DeleteOutcome::default();
            let mut state = PrefixDeletion {
                keys: KeyDeletion::begin(policy, data, before),
                sidecars,
            };
            settle(policy, &mut state);
            RequestStep::Done(DeletionStart::Begun(state))
        },
        Err(failure) => match with_retry(policy, attempt, is_transient_s3(&failure)) {
            RetryStep::RetryAfter(delay) => RequestStep::RetryAfter(delay),
            RetryStep::GiveUp => RequestStep::Done(
                DeletionStart::Failed(ClickVaultError::S3(failure)),
            ),
        },
    }
}

impl PrefixDeletion {
    /// The first step of a deletion.
    pub fn first_step(&self) -> (r: DeleteStep)
        requires
            self@.keys.is_done() ==> self@.sidecars.len() == 0,
        ensures
            r == if self@.is_done() {
                DeleteStep::Finished
            } else {
                DeleteStep::Submit
            },
    {
        if self.keys.is_done() {
            DeleteStep::Finished
        } else {
            DeleteStep::Submit
        }
    }
}

/// Goes on deleting all objects under a prefix, once a batch request was answered.
///
/// Individual failures do not stop the deletion. The metadata sidecar is deleted last, and only if
/// every data object was deleted, so a partially deleted backup remains discoverable.
pub fn delete_prefix(
    policy: &RetryPolicy,
    state: &mut PrefixDeletion,
    answer: Result<DeleteObjectsResult, S3Failure>,
) -> (r: DeleteStep)
    requires
        fits(old(state)@.keys, batch_answer(answer)),
        old(state)@.keys.attempt < policy.attempts,
        old(state)@.total() <= u64::MAX,
        !keys_answered(*policy, old(state)@.keys, batch_answer(answer)).is_done()
            ==> delay_is_defined(*policy, old(state)@.keys.attempt),
    ensures
        final(state)@ == prefix_answered(*policy, old(state)@, batch_answer(answer)),
        match r {
            DeleteStep::Submit => !final(state)@.is_done() && keys_answered(
                *policy,
                old(state)@.keys,
                batch_answer(answer),
            ).is_done(),
            DeleteStep::SubmitAfter(delay) => !keys_answered(
                *policy,
                old(state)@.keys,
                batch_answer(answer),
            ).is_done() && is_jitter(
                cap_nanos(*policy, old(state)@.keys.attempt),
                delay.nanos(),
            ),
            DeleteStep::Finished => final(state)@.is_done(),
        },
{
    proof {
        law_no_key_is_lost(*policy, state@.keys, batch_answer(answer));
    }
    match delete_keys(policy, &mut state.keys, answer) {
        DeleteStep::SubmitAfter(delay) => DeleteStep::SubmitAfter(delay),
        _ => {
            settle(policy, state);
            if state.keys.is_done() {
                DeleteStep::Finished
            } else {
                DeleteStep::Submit
            }
        },
    }
}

/// No key gets lost: an answer moves keys between pending, deleted and failed, and changes nothing
/// about how many there are in all.
pub proof fn law_no_key_is_lost(policy: RetryPolicy, keys: KeysModel, answer: BatchAnswer)
    requires
        fits(keys, answer),
    ensures
        keys_answered(policy, keys, answer).total() == keys.total(),
{
}

/// All keys under a prefix are accounted for, from the listing on.
pub proof fn law_all_listed_keys_are_counted(
    policy: RetryPolicy,
    prefix: Seq<char>,
    keys: Seq<String>,
)
    ensures
        prefix_begun(policy, prefix, keys).total() == keys.len(),
{
    lemma_split_counts(keys, sidecar_path(prefix));
}

proof fn lemma_split_counts(keys: Seq<String>, sidecar: Seq<char>)
    ensures
        data_keys(keys, sidecar).len() + sidecar_keys(keys, sidecar).len() == keys.len(),
    decreases keys.len(),
{
    reveal(Seq::filter);
    if keys.len() > 0 {
        lemma_split_counts(keys.drop_last(), sidecar);
    }
}

/// The states that a deletion goes through, given the answers to its requests.
pub open spec fn prefix_run(policy: RetryPolicy, state: PrefixModel, answers: Seq<BatchAnswer>) -> PrefixModel
    decreases answers.len(),
{
    if answers.len() == 0 || state.is_done() {
        state
    } else {
        prefix_run(policy, prefix_answered(policy, state, answers[0]), answers.skip(1))
    }
}

/// Whether each answer of a run fits the request that it answers.
pub open spec fn run_fits(policy: RetryPolicy, state: PrefixModel, answers: Seq<BatchAnswer>) -> bool
    decreases answers.len(),
{
    if answers.len() == 0 || state.is_done() {
        true
    } else {
        fits(state.keys, answers[0]) && run_fits(
            policy,
            prefix_answered(policy, state, answers[0]),
            answers.skip(1),
        )
    }
}

/// Throughout a deletion, deleted, failed and waiting keys add up to the keys that were listed; at
/// its end every key was either deleted or counted as failed.
pub proof fn law_deletion_accounts_for_every_key(
    policy: RetryPolicy,
    prefix: Seq<char>,
    keys: Seq<String>,
    answers: Seq<BatchAnswer>,
)
    requires
        run_fits(policy, prefix_begun(policy, prefix, keys), answers),
    ensures
        ({
            let end = prefix_run(policy, prefix_begun(policy, prefix, keys), answers);
            &&& end.total() == keys.len()
            &&& end.is_done() ==> end.keys.deleted + end.keys.failed == keys.len()
        }),
{
    law_all_listed_keys_are_counted(policy, prefix, keys);
    lemma_run_keeps_total(policy, prefix_begun(policy, prefix, keys), answers);
}

proof fn lemma_run_keeps_total(policy: RetryPolicy, state: PrefixModel, answers: Seq<BatchAnswer>)
    requires
        run_fits(policy, state, answers),
    ensures
        prefix_run(policy, state, answers).total() == state.total(),
    decreases answers.len(),
{
    if answers.len() > 0 && !state.is_done() {
        law_no_key_is_lost(policy, state.keys, answers[0]);
        lemma_run_keeps_total(policy, prefix_answered(policy, state, answers[0]), answers.skip(1));
    }
}

/// The sidecar goes last: as long as it waits, an answer leaves it waiting, or gives it its turn
/// with every data object deleted and none failed, or keeps it because a data object failed.
pub proof fn law_sidecar_goes_last(policy: RetryPolicy, state: PrefixModel, answer: BatchAnswer)
    requires
        state.sidecars.len() > 0,
        fits(state.keys, answer),
    ensures
        ({
            let after = prefix_answered(policy, state, answer);
            ||| after.sidecars == state.sidecars && !after.keys.is_done()
            ||| {
                &&& policy.attempts > 0
                &&& after.sidecars.len() == 0
                &&& after.keys.pending == state.sidecars
                &&& after.keys.failed == 0
                &&& after.keys.deleted == state.keys.total()
            }
            ||| {
                &&& after.is_done()
                &&& after.keys.failed > state.sidecars.len() || policy.attempts == 0
            }
        }),
{
    law_no_key_is_lost(policy, state.keys, answer);
}

/// A deletion comes to its end: it takes at most as many answers as the policy allows attempts for
/// the data objects, and as many again for the sidecar.
pub proof fn law_deletion_ends(
    policy: RetryPolicy,
    prefix: Seq<char>,
    keys: Seq<String>,
    answers: Seq<BatchAnswer>,
)
    requires
        answers.len() >= 2 * policy.attempts,
    ensures
        prefix_run(policy, prefix_begun(policy, prefix, keys), answers).is_done(),
{
    let state = prefix_begun(policy, prefix, keys);
    lemma_run_ends(policy, state, answers);
}

/// How many answers a deletion can take at most.
spec fn answers_left(policy: RetryPolicy, state: PrefixModel) -> int {
    (if state.keys.is_done() {
        0
    } else {
        policy.attempts - state.keys.attempt
    }) + (if state.sidecars.len() == 0 {
        0
    } else {
        policy.attempts as int
    })
}

proof fn lemma_run_ends(policy: RetryPolicy, state: PrefixModel, answers: Seq<BatchAnswer>)
    requires
        state.keys.is_done() || state.keys.attempt < policy.attempts,
        state.keys.is_done() ==> state.sidecars.len() == 0,
        answers.len() >= answers_left(policy, state),
    ensures
        prefix_run(policy, state, answers).is_done(),
    decreases answers.len(),
{
    if !state.is_done() && answers.len() > 0 {
        lemma_run_ends(policy, prefix_answered(policy, state, answers[0]), answers.skip(1));
    }
}

proof fn lemma_split_contains(keys: Seq<String>, sidecar: Seq<char>, key: String)
    ensures
        data_keys(keys, sidecar).contains(key) <==> keys.contains(key) && key@ != sidecar,
        sidecar_keys(keys, sidecar).contains(key) <==> keys.contains(key) && key@ == sidecar,
    decreases keys.len(),
{
    broadcast use vstd::seq_lib::group_seq_properties;

    reveal(Seq::filter);
    if keys.len() > 0 {
        lemma_split_contains(keys.drop_last(), sidecar, key);
        assert(keys =~= keys.drop_last().push(keys.last()));
    }
}

/// The split keeps every key, on one side and not on the other: the sidecar is the one with the
/// sidecar's own path, and everything else is data.
pub proof fn law_every_key_is_data_or_sidecar(keys: Seq<String>, sidecar: Seq<char>, key: String)
    ensures
        data_keys(keys, sidecar).contains(key) <==> keys.contains(key) && key@ != sidecar,
        sidecar_keys(keys, sidecar).contains(key) <==> keys.contains(key) && key@ == sidecar,
        data_keys(keys, sidecar).len() + sidecar_keys(keys, sidecar).len() == keys.len(),
{
    lemma_split_contains(keys, sidecar, key);
    lemma_split_counts(keys, sidecar);
}

/// A deletion starts with the data objects under the prefix, all of them and nothing else, and
/// with the sidecar alone where there are none.
pub proof fn law_deletions_start_with_the_data(
    policy: RetryPolicy,
    prefix: Seq<char>,
    keys: Seq<String>,
    key: String,
)
    requires
        policy.attempts > 0,
    ensures
        ({
            let begun = prefix_begun(policy, prefix, keys);
            let sidecar = sidecar_path(prefix);
            let has_data = exists|i: int| 0 <= i < keys.len() && (#[trigger] keys[i])@ != sidecar;
            &&& has_data ==> (begun.keys.pending.contains(key) <==> keys.contains(key) && key@
                != sidecar) && (begun.sidecars.contains(key) <==> keys.contains(key) && key@
                == sidecar)
            &&& !has_data ==> (begun.keys.pending.contains(key) <==> keys.contains(key))
                && begun.sidecars.len() == 0
            &&& begun.keys.deleted == 0
            &&& begun.keys.failed == 0
            &&& begun.keys.attempt == 0
        }),
{
    let sidecar = sidecar_path(prefix);
    lemma_split_contains(keys, sidecar, key);
    lemma_split_counts(keys, sidecar);
    let data = data_keys(keys, sidecar);
    if data.len() > 0 {
        lemma_split_contains(keys, sidecar, data[0]);
        assert(data.contains(data[0]));
        let i = choose|i: int| 0 <= i < keys.len() && keys[i] == data[0];
        assert(keys[i]@ != sidecar);
    }
    if exists|i: int| 0 <= i < keys.len() && (#[trigger] keys[i])@ != sidecar {
        let i = choose|i: int| 0 <= i < keys.len() && (#[trigger] keys[i])@ != sidecar;
        lemma_split_contains(keys, sidecar, keys[i]);
        assert(keys.contains(keys[i]));
        assert(data.contains(keys[i]));
    }
    if keys.contains(key) && data.len() == 0 {
        assert(!data.contains(key));
    }
}

/// A key that comes back with an error is sent again, and one that does not was deleted. After the
/// last attempt the keys with errors have failed.
pub proof fn law_only_keys_with_errors_are_sent_again(
    policy: RetryPolicy,
    keys: KeysModel,
    result: DeleteObjectsResult,
)
    requires
        result.errors@.len() <= keys.pending.len(),
    ensures
        ({
            let after = keys_answered(policy, keys, batch_answer(Ok(result)));
            let errors = result.errors@.len();
            &&& after.deleted == keys.deleted + keys.pending.len() - errors
            &&& after.attempt == keys.attempt + 1
            &&& keys.attempt + 1 < policy.attempts ==> after.failed == keys.failed
                && after.pending.len() == errors && forall|i: int|
                0 <= i < errors ==> #[trigger] after.pending[i] == result.errors@[i].key
            &&& keys.attempt + 1 >= policy.attempts ==> after.failed == keys.failed + errors
                && after.pending.len() == 0
        }),
{
}

/// A failed request deletes nothing: it is sent again as it was where its failure may go away and
/// attempts are left, and otherwise all of its keys have failed.
pub proof fn law_failed_requests_delete_nothing(
    policy: RetryPolicy,
    keys: KeysModel,
    failure: S3Failure,
)
    ensures
        ({
            let after = keys_answered(policy, keys, batch_answer(Err(failure)));
            let again = is_transient(failure) && keys.attempt + 1 < policy.attempts;
            &&& after.deleted == keys.deleted
            &&& after.attempt == keys.attempt + 1
            &&& again ==> after.pending == keys.pending && after.failed == keys.failed
            &&& !again ==> after.pending.len() == 0 && after.failed == keys.failed
                + keys.pending.len()
        }),
{
}

/// A backup whose data could not all be deleted keeps its sidecar: it is never requested, and
/// counts as failed with the rest.
pub proof fn law_failed_data_keep_the_sidecar(
    policy: RetryPolicy,
    state: PrefixModel,
    answer: BatchAnswer,
)
    requires
        state.sidecars.len() > 0,
        fits(state.keys, answer),
        keys_answered(policy, state.keys, answer).is_done(),
    ensures
        ({
            let data = keys_answered(policy, state.keys, answer);
            let after = prefix_answered(policy, state, answer);
            &&& data.failed > 0 ==> after.keys.pending.len() == 0 && after.sidecars.len() == 0
                && after.keys.failed == data.failed + state.sidecars.len() && after.keys.deleted
                == data.deleted
            &&& data.failed == 0 && policy.attempts > 0 ==> after.keys.pending == state.sidecars
                && after.keys.attempt == 0 && after.keys.failed == 0 && after.keys.deleted
                == data.deleted
        }),
{
}

} // verus!
