//! Retention: which chains are deleted, and how.
use vstd::prelude::*;

use crate::backup::discovery::{backup_at, models};
use crate::backup::{BackupChain, BackupMetadata, ChainModel};
use crate::config::Config;
use crate::deletion::DeleteOutcome;
use crate::error::ClickVaultError;
use crate::order::{Ranked, is_ordered};
use crate::time::Timestamp;

verus! {

/// What a cleanup did.
#[derive(Debug, Clone, Copy, PartialEq, Eq, Structural)]
pub struct CleanupReport {
    pub chains_deleted: usize,
    /// Chains selected for deletion that could not be fully removed.
    pub chains_failed: usize,
    pub objects_deleted: u64,
    /// Objects that could not be deleted. When listing a prefix fails, the object count is unknown
    /// and counted as one failure.
    pub objects_failed: u64,
}

impl Default for CleanupReport {
    fn default() -> (r: Self)
        ensures
            r == (CleanupReport {
                chains_deleted: 0,
                chains_failed: 0,
                objects_deleted: 0,
                objects_failed: 0,
            }),
    {
        CleanupReport { chains_deleted: 0, chains_failed: 0, objects_deleted: 0, objects_failed: 0 }
    }
}

impl CleanupReport {
    /// Whether anything could not be deleted.
    pub fn has_failures(&self) -> (r: bool)
        ensures
            r == (self.chains_failed > 0 || self.objects_failed > 0),
    {
        self.chains_failed > 0 || self.objects_failed > 0
    }
}

/// Whether a chain is old enough to be deleted: its newest backup (the latest restore point that
/// it provides, full or incremental) is at least `keep_days` days old, where that is set.
pub open spec fn is_expired(chain: ChainModel, keep_days: Option<u32>, now: Timestamp) -> bool {
    match keep_days {
        None => true,
        Some(days) => now.nanos_since(chain.latest().timestamp) >= days * 86_400_000_000_000,
    }
}

/// The chains beyond the first `keep`.
pub open spec fn beyond(chains: Seq<ChainModel>, keep: nat) -> Seq<ChainModel> {
    if keep < chains.len() {
        chains.skip(keep as int)
    } else {
        Seq::empty()
    }
}

/// The chains that are to be deleted: they exceed both retention bounds.
pub open spec fn doomed(
    chains: Seq<ChainModel>,
    keep: nat,
    keep_days: Option<u32>,
    now: Timestamp,
) -> Seq<ChainModel> {
    beyond(chains, keep).filter(|chain: ChainModel| is_expired(chain, keep_days, now))
}

/// What each of the referenced chains holds.
pub open spec fn referenced_models(chains: Seq<&BackupChain>) -> Seq<ChainModel> {
    chains.map_values(|chain: &BackupChain| chain@)
}

/// Selects which chains should be deleted. A chain must exceed **both** retention bounds: beyond
/// the `keep` newest chains (count) and, when `keep_days` is set, its newest backup older than
/// `keep_days`.
///
/// `chains` is expected to be sorted newest-first (as returned by discovery).
pub fn select_chains_for_deletion(
    chains: &[BackupChain],
    keep: usize,
    keep_days: Option<u32>,
    now: Timestamp,
) -> (r: Vec<&BackupChain>)
    ensures
        referenced_models(r@) == doomed(models(chains@), keep as nat, keep_days, now),
{
    let ghost rest = beyond(models(chains@), keep as nat);
    let ghost expired = |chain: ChainModel| is_expired(chain, keep_days, now);
    let mut selected: Vec<&BackupChain> = Vec::new();
    if keep >= chains.len() {
        proof {
            reveal(Seq::filter);
            assert(referenced_models(selected@) =~= rest.filter(expired));
        }
        return selected;
    }
    let mut i: usize = keep;
    proof {
        reveal(Seq::filter);
        assert(rest.take(0).filter(expired) =~= Seq::<ChainModel>::empty());
        assert(referenced_models(selected@) =~= Seq::<ChainModel>::empty());
    }
    while i < chains.len()
        invariant
            keep <= i <= chains@.len(),
            keep < chains@.len(),
            rest == models(chains@).skip(keep as int),
            expired == (|chain: ChainModel| is_expired(chain, keep_days, now)),
            referenced_models(selected@) == rest.take(i - keep).filter(expired),
        decreases chains@.len() - i,
    {
        let chain = &chains[i];
        let ghost before = selected@;
        proof {
            reveal(Seq::filter);
            assert(rest[i - keep] == chain@);
            assert(rest.take(i + 1 - keep).drop_last() =~= rest.take(i - keep));
        }
        let old_enough: bool = match keep_days {
            None => true,
            Some(days) => now.is_days_after(&chain.latest().1.timestamp, days),
        };
        if old_enough {
            selected.push(chain);
            assert(referenced_models(selected@) =~= referenced_models(before).push(chain@));
        }
        i = i + 1;
    }
    assert(rest.take(i - keep) =~= rest);
    selected
}

/// The newest chains are never selected, as many as are to be kept, and nor is a chain whose
/// newest backup is younger than `keep_days`: whatever is selected stands beyond the chains to be
/// kept, and is expired.
pub proof fn law_retention_is_respected(
    chains: Seq<ChainModel>,
    keep: nat,
    keep_days: Option<u32>,
    now: Timestamp,
    i: int,
)
    requires
        0 <= i < doomed(chains, keep, keep_days, now).len(),
    ensures
        is_expired(doomed(chains, keep, keep_days, now)[i], keep_days, now),
        exists|k: int|
            keep <= k < chains.len() && doomed(chains, keep, keep_days, now)[i]
                == #[trigger] chains[k],
{
    let expired = |chain: ChainModel| is_expired(chain, keep_days, now);
    let rest = beyond(chains, keep);
    let c = doomed(chains, keep, keep_days, now)[i];
    rest.lemma_filter_pred(expired, i);
    assert(rest.filter(expired).contains(c));
    rest.lemma_filter_contains_rev(expired, c);
    let k = choose|k: int| 0 <= k < rest.len() && rest[k] == c;
    assert(chains[k + keep] == c);
}

/// The most recent full backups are kept: where the chains stand newest first, as discovery hands
/// them on, no chain that is selected has a newer full backup than one of the first `keep` chains.
pub proof fn law_most_recent_full_backups_are_kept(
    chains: Seq<ChainModel>,
    keep: nat,
    keep_days: Option<u32>,
    now: Timestamp,
    i: int,
    j: int,
)
    requires
        is_ordered(chains),
        0 <= i < doomed(chains, keep, keep_days, now).len(),
        0 <= j < keep,
    ensures
        doomed(chains, keep, keep_days, now)[i].full.timestamp.instant()
            <= chains[j].full.timestamp.instant(),
{
    law_retention_is_respected(chains, keep, keep_days, now, i);
    let k = choose|k: int|
        keep <= k < chains.len() && doomed(chains, keep, keep_days, now)[i] == #[trigger] chains[k];
    assert(chains[j].ranks_before(chains[k]));
}

/// Every chain that exceeds both retention bounds is selected.
pub proof fn law_expired_chains_are_selected(
    chains: Seq<ChainModel>,
    keep: nat,
    keep_days: Option<u32>,
    now: Timestamp,
    k: int,
)
    requires
        keep <= k < chains.len(),
        is_expired(chains[k], keep_days, now),
    ensures
        doomed(chains, keep, keep_days, now).contains(chains[k]),
{
    let expired = |chain: ChainModel| is_expired(chain, keep_days, now);
    let rest = beyond(chains, keep);
    assert(rest[k - keep] == chains[k]);
    rest.lemma_filter_contains(expired, k - keep);
}

/// The paths of a chain that is to be deleted.
#[derive(Debug)]
pub struct DoomedChain {
    pub full_path: String,
    /// The paths of the incrementals, oldest first.
    pub incrementals: Vec<String>,
}

/// The paths of a chain that is to be deleted.
pub struct DoomedModel {
    pub full_path: Seq<char>,
    pub incrementals: Seq<Seq<char>>,
}

impl View for DoomedChain {
    type V = DoomedModel;

    open spec fn view(&self) -> DoomedModel {
        DoomedModel {
            full_path: self.full_path@,
            incrementals: self.incrementals@.map_values(|path: String| path@),
        }
    }
}

/// The paths of a chain.
pub open spec fn chain_paths(chain: ChainModel) -> DoomedModel {
    DoomedModel {
        full_path: chain.full_path,
        incrementals: chain.incrementals.map_values(|e: (String, BackupMetadata)| e.0@),
    }
}

fn paths_of(chain: &BackupChain) -> (r: DoomedChain)
    ensures
        r@ == chain_paths(chain@),
{
    let mut incrementals: Vec<String> = Vec::new();
    let mut i: usize = 0;
    while i < chain.incrementals.len()
        invariant
            i <= chain.incrementals@.len(),
            incrementals@.len() == i,
            forall|k: int|
                0 <= k < i ==> (#[trigger] incrementals@[k])@ == chain.incrementals@[k].0@,
        decreases chain.incrementals@.len() - i,
    {
        incrementals.push(chain.incrementals[i].0.clone());
        i = i + 1;
    }
    let r = DoomedChain { full_path: chain.full_path.clone(), incrementals };
    assert(r@.incrementals =~= chain_paths(chain@).incrementals);
    r
}

/// How far a cleanup has come.
#[derive(Debug)]
pub struct Cleanup {
    /// The chains that are still to be deleted; the first one is being deleted now.
    pub remaining: Vec<DoomedChain>,
    /// How many incrementals of the first chain are still to be deleted.
    pub incrementals_left: usize,
    /// How much of the first chain could not be deleted.
    pub chain_failures: u64,
    pub report: CleanupReport,
}

/// What a cleanup did, in numbers.
pub struct Tally {
    pub chains_deleted: nat,
    pub chains_failed: nat,
    pub objects_deleted: nat,
    pub objects_failed: nat,
}

/// How far a cleanup has come.
pub struct CleanupModel {
    pub remaining: Seq<DoomedModel>,
    pub left: nat,
    pub failures: nat,
    pub tally: Tally,
}

/// The numbers of a report.
pub open spec fn tally_of(report: CleanupReport) -> Tally {
    Tally {
        chains_deleted: report.chains_deleted as nat,
        chains_failed: report.chains_failed as nat,
        objects_deleted: report.objects_deleted as nat,
        objects_failed: report.objects_failed as nat,
    }
}

/// The numbers of a report before anything was done.
pub open spec fn no_tally() -> Tally {
    Tally { chains_deleted: 0, chains_failed: 0, objects_deleted: 0, objects_failed: 0 }
}

/// The paths of several chains.
pub open spec fn all_paths(chains: Seq<DoomedChain>) -> Seq<DoomedModel> {
    chains.map_values(|chain: DoomedChain| chain@)
}

impl View for Cleanup {
    type V = CleanupModel;

    open spec fn view(&self) -> CleanupModel {
        CleanupModel {
            remaining: all_paths(self.remaining@),
            left: self.incrementals_left as nat,
            failures: self.chain_failures as nat,
            tally: tally_of(self.report),
        }
    }
}

/// How many incrementals the first of the chains has.
pub open spec fn first_left(remaining: Seq<DoomedModel>) -> nat {
    if remaining.len() > 0 {
        remaining[0].incrementals.len()
    } else {
        0
    }
}

impl CleanupModel {
    /// Whether nothing is left to do.
    pub open spec fn is_done(self) -> bool {
        self.remaining.len() == 0
    }

    /// The path that is deleted next: the incrementals of a chain from the newest to the oldest,
    /// then its full backup.
    pub open spec fn target(self) -> Seq<char> {
        if self.left > 0 {
            self.remaining[0].incrementals[self.left - 1]
        } else {
            self.remaining[0].full_path
        }
    }

    /// What holds throughout a cleanup: the full backup of a chain has its turn only where none of
    /// the incrementals failed to go.
    pub open spec fn well_formed(self) -> bool {
        self.remaining.len() > 0 ==> self.left <= self.remaining[0].incrementals.len() && (
        self.left == 0 ==> self.failures == 0)
    }

    /// The same cleanup, done with its first chain.
    pub open spec fn past_chain(self, tally: Tally) -> CleanupModel {
        CleanupModel {
            remaining: self.remaining.skip(1),
            left: first_left(self.remaining.skip(1)),
            failures: 0,
            tally,
        }
    }
}

/// What the deletion of one path came to.
pub struct Removal {
    pub deleted: nat,
    /// The objects that could not be deleted; one where they could not be listed.
    pub failed: nat,
}

/// What the deletion of one path came to.
pub open spec fn removal(outcome: Result<DeleteOutcome, ClickVaultError>) -> Removal {
    match outcome {
        Ok(o) => Removal { deleted: o.deleted as nat, failed: o.failed as nat },
        Err(_) => Removal { deleted: 0, failed: 1 },
    }
}

/// How far a cleanup has come once the target was dealt with.
///
/// The full backup is only removed once every incremental is gone, so an interrupted or failed run
/// leaves an intact, discoverable chain that the next cleanup retries.
pub open spec fn after_removal(state: CleanupModel, removal: Removal) -> CleanupModel {
    let objects_deleted = state.tally.objects_deleted + removal.deleted;
    let failures = state.failures + removal.failed;
    if state.left > 1 || (state.left == 1 && failures == 0) {
        CleanupModel {
            left: (state.left - 1) as nat,
            failures,
            tally: Tally { objects_deleted, ..state.tally },
            ..state
        }
    } else if failures > 0 {
        state.past_chain(
            Tally {
                objects_deleted,
                objects_failed: state.tally.objects_failed + failures,
                chains_failed: state.tally.chains_failed + 1,
                ..state.tally
            },
        )
    } else {
        state.past_chain(
            Tally {
                objects_deleted,
                chains_deleted: state.tally.chains_deleted + 1,
                ..state.tally
            },
        )
    }
}

/// Whether the numbers of a cleanup still fit their types after one more removal.
pub open spec fn is_countable(state: CleanupModel, removal: Removal) -> bool {
    &&& state.tally.objects_deleted + removal.deleted <= u64::MAX
    &&& state.tally.objects_failed + state.failures + removal.failed <= u64::MAX
    &&& state.tally.chains_deleted + state.tally.chains_failed + state.remaining.len()
        <= usize::MAX
}

/// What to do next in a cleanup.
#[derive(Debug)]
pub enum CleanupStep {
    /// Delete everything at this path.
    Delete(String),
    /// The cleanup is over.
    Finished(CleanupReport),
}

/// Whether a step is the one that is due.
pub open spec fn is_next(state: Cleanup, step: CleanupStep) -> bool {
    match step {
        CleanupStep::Delete(path) => !state@.is_done() && path@ == state@.target(),
        CleanupStep::Finished(report) => state@.is_done() && report == state.report,
    }
}

fn next_step(state: &Cleanup) -> (r: CleanupStep)
    requires
        state@.well_formed(),
    ensures
        is_next(*state, r),
{
    if state.remaining.len() == 0 {
        CleanupStep::Finished(state.report)
    } else {
        let chain = &state.remaining[0];
        assert(state@.remaining[0] == chain@);
        if state.incrementals_left > 0 {
            CleanupStep::Delete(chain.incrementals[state.incrementals_left - 1].clone())
        } else {
            CleanupStep::Delete(chain.full_path.clone())
        }
    }
}

/// The cleanup that deletes these chains.
pub open spec fn begun(paths: Seq<DoomedModel>) -> CleanupModel {
    CleanupModel { remaining: paths, left: first_left(paths), failures: 0, tally: no_tally() }
}

/// The paths of the chains that are to be deleted.
pub open spec fn doomed_paths(config: Config, chains: Seq<ChainModel>, now: Timestamp) -> Seq<
    DoomedModel,
> {
    doomed(
        chains,
        config.retention.keep_full_backups as nat,
        config.retention.keep_days,
        now,
    ).map_values(|chain: ChainModel| chain_paths(chain))
}

/// Whether a cleanup starts as it should at `now`. A dry run counts the chains that would be
/// deleted, and deletes nothing.
pub open spec fn starts_cleanup(
    config: Config,
    chains: Seq<ChainModel>,
    dry_run: bool,
    now: Timestamp,
    state: Cleanup,
    step: CleanupStep,
) -> bool {
    let paths = doomed_paths(config, chains, now);
    &&& is_next(state, step)
    &&& state@ == if dry_run {
        CleanupModel {
            tally: Tally { chains_deleted: paths.len(), ..no_tally() },
            ..begun(Seq::empty())
        }
    } else {
        begun(paths)
    }
}

/// Starts a cleanup of the chains at `now`.
pub fn cleanup_at(config: &Config, chains: &Vec<BackupChain>, dry_run: bool, now: Timestamp) -> (r:
    (Cleanup, CleanupStep))
    ensures
        starts_cleanup(*config, models(chains@), dry_run, now, r.0, r.1),
{
    let keep: usize = config.retention.keep_full_backups as usize;
    let selected = select_chains_for_deletion(
        chains.as_slice(),
        keep,
        config.retention.keep_days,
        now,
    );
    let ghost paths = doomed_paths(*config, models(chains@), now);
    assert(paths =~= referenced_models(selected@).map_values(|chain: ChainModel| chain_paths(chain)));
    if dry_run {
        let report = CleanupReport {
            chains_deleted: selected.len(),
            chains_failed: 0,
            objects_deleted: 0,
            objects_failed: 0,
        };
        let state = Cleanup {
            remaining: Vec::new(),
            incrementals_left: 0,
            chain_failures: 0,
            report,
        };
        assert(state@.remaining =~= Seq::<DoomedModel>::empty());
        let step = next_step(&state);
        return (state, step);
    }
    let mut remaining: Vec<DoomedChain> = Vec::new();
    let mut i: usize = 0;
    while i < selected.len()
        invariant
            i <= selected@.len(),
            remaining@.len() == i,
            paths == referenced_models(selected@).map_values(
                |chain: ChainModel| chain_paths(chain),
            ),
            forall|k: int| 0 <= k < i ==> (#[trigger] remaining@[k])@ == paths[k],
        decreases selected@.len() - i,
    {
        let chain: &BackupChain = selected[i];
        assert(referenced_models(selected@)[i as int] == chain@);
        remaining.push(paths_of(chain));
        i = i + 1;
    }
    assert(all_paths(remaining@) =~= paths);
    let incrementals_left: usize = if remaining.len() > 0 {
        assert(remaining@[0]@ == paths[0]);
        remaining[0].incrementals.len()
    } else {
        0
    };
    let state = Cleanup {
        remaining,
        incrementals_left,
        chain_failures: 0,
        report: CleanupReport::default(),
    };
    let step = next_step(&state);
    (state, step)
}

/// Whether a cleanup starts as it should at some point in time.
pub open spec fn starts_cleanup_some_time(
    config: Config,
    chains: Seq<ChainModel>,
    dry_run: bool,
    state: Cleanup,
    step: CleanupStep,
) -> bool {
    exists|now: Timestamp|
        now.valid() && #[trigger] starts_cleanup(config, chains, dry_run, now, state, step)
}

/// Starts a cleanup now, given what strict discovery came to: cleanup refuses to run on an
/// incomplete view.
pub fn cleanup(
    config: &Config,
    discovered: Result<Vec<BackupChain>, ClickVaultError>,
    dry_run: bool,
) -> (r: Result<(Cleanup, CleanupStep), ClickVaultError>)
    ensures
        match discovered {
            Err(e) => r == Err::<(Cleanup, CleanupStep), ClickVaultError>(e),
            Ok(chains) => r matches Ok(started) && starts_cleanup_some_time(
                *config,
                models(chains@),
                dry_run,
                started.0,
                started.1,
            ),
        },
{
    let chains = match discovered {
        Ok(chains) => chains,
        Err(e) => {
            return Err(e);
        },
    };
    let now = Timestamp::now();
    Ok(cleanup_at(config, &chains, dry_run, now))
}

/// Goes on with a cleanup, once the deletion of its target came to an end.
pub fn cleanup_goes_on(state: &mut Cleanup, outcome: Result<DeleteOutcome, ClickVaultError>) -> (r:
    CleanupStep)
    requires
        old(state)@.well_formed(),
        !old(state)@.is_done(),
        is_countable(old(state)@, removal(outcome)),
    ensures
        final(state)@ == after_removal(old(state)@, removal(outcome)),
        final(state)@.well_formed(),
        is_next(*final(state), r),
{
    let ghost before = state@;
    let (deleted, failed): (u64, u64) = match outcome {
        Ok(o) => (o.deleted, o.failed),
        Err(_) => (0, 1),
    };
    state.report.objects_deleted = state.report.objects_deleted + deleted;
    let failures: u64 = state.chain_failures + failed;
    assert(state.remaining@.len() > 0);
    if state.incrementals_left > 1 || (state.incrementals_left == 1 && failures == 0) {
        state.incrementals_left = state.incrementals_left - 1;
        state.chain_failures = failures;
    } else {
        if failures > 0 {
            state.report.objects_failed = state.report.objects_failed + failures;
            state.report.chains_failed = state.report.chains_failed + 1;
        } else {
            state.report.chains_deleted = state.report.chains_deleted + 1;
        }
        let _gone = state.remaining.remove(0);
        assert(all_paths(state.remaining@) =~= before.remaining.skip(1));
        state.incrementals_left = if state.remaining.len() > 0 {
            assert(all_paths(state.remaining@)[0] == state.remaining@[0]@);
            state.remaining[0].incrementals.len()
        } else {
            0
        };
        state.chain_failures = 0;
    }
    next_step(state)
}

/// How far a cleanup has come after the deletion of some targets came to an end.
pub open spec fn cleanup_run(state: CleanupModel, removals: Seq<Removal>) -> CleanupModel
    decreases removals.len(),
{
    if removals.len() == 0 || state.is_done() {
        state
    } else {
        cleanup_run(after_removal(state, removals[0]), removals.skip(1))
    }
}

/// What holds throughout a cleanup of these chains.
spec fn holds_throughout(paths: Seq<DoomedModel>, state: CleanupModel) -> bool {
    &&& state.well_formed()
    &&& state.tally.chains_deleted + state.tally.chains_failed + state.remaining.len()
        == paths.len()
    &&& state.tally.chains_failed == 0 <==> state.tally.objects_failed == 0
}

proof fn lemma_run_holds(paths: Seq<DoomedModel>, state: CleanupModel, removals: Seq<Removal>)
    requires
        holds_throughout(paths, state),
    ensures
        holds_throughout(paths, cleanup_run(state, removals)),
    decreases removals.len(),
{
    if removals.len() > 0 && !state.is_done() {
        lemma_run_holds(paths, after_removal(state, removals[0]), removals.skip(1));
    }
}

/// Throughout a cleanup, every selected chain is either deleted, failed or still to be deleted; at
/// the end each was deleted or failed. And failures show: objects failed exactly where chains did.
pub proof fn law_cleanup_accounts_for_every_chain(
    paths: Seq<DoomedModel>,
    removals: Seq<Removal>,
)
    ensures
        ({
            let end = cleanup_run(begun(paths), removals);
            &&& end.tally.chains_deleted + end.tally.chains_failed + end.remaining.len()
                == paths.len()
            &&& end.tally.chains_failed == 0 <==> end.tally.objects_failed == 0
        }),
{
    lemma_run_holds(paths, begun(paths), removals);
}

/// Throughout a cleanup, the full backup of a chain is deleted only once all incrementals of the
/// chain are gone without a failure.
pub proof fn law_full_backups_go_last(paths: Seq<DoomedModel>, removals: Seq<Removal>)
    ensures
        ({
            let state = cleanup_run(begun(paths), removals);
            !state.is_done() && state.left == 0 ==> state.failures == 0
        }),
{
    lemma_run_holds(paths, begun(paths), removals);
}

/// Where an incremental of a chain could not be deleted, the chain's full backup is not touched:
/// the cleanup goes on with the remaining incrementals, and then with the next chain.
pub proof fn law_failed_chains_keep_their_full_backup(state: CleanupModel, removal: Removal)
    requires
        state.well_formed(),
        !state.is_done(),
        state.left > 0,
        state.failures + removal.failed > 0,
    ensures
        ({
            let after = after_removal(state, removal);
            ||| after.remaining == state.remaining && after.left == state.left - 1 && after.left > 0
                && after.failures > 0
            ||| after.remaining == state.remaining.skip(1) && after.tally.chains_failed
                == state.tally.chains_failed + 1
        }),
{
}

/// How many paths are still to be deleted at most.
spec fn targets_left(state: CleanupModel) -> nat
    decreases state.remaining.len(),
{
    if state.remaining.len() == 0 {
        0
    } else {
        state.left + 1 + targets_left(state.past_chain(state.tally))
    }
}

/// How many paths these chains have.
pub open spec fn path_count(paths: Seq<DoomedModel>) -> nat
    decreases paths.len(),
{
    if paths.len() == 0 {
        0
    } else {
        paths[0].incrementals.len() + 1 + path_count(paths.skip(1))
    }
}

proof fn lemma_targets_left(state: CleanupModel)
    ensures
        state.remaining.len() > 0 ==> targets_left(state) == state.left + 1 + path_count(
            state.remaining.skip(1),
        ),
        state.remaining.len() == 0 ==> targets_left(state) == 0,
    decreases state.remaining.len(),
{
    if state.remaining.len() > 0 {
        lemma_targets_left(state.past_chain(state.tally));
    }
}

proof fn lemma_run_comes_to_its_end(state: CleanupModel, removals: Seq<Removal>)
    requires
        state.well_formed(),
        removals.len() >= targets_left(state),
    ensures
        cleanup_run(state, removals).is_done(),
    decreases removals.len(),
{
    lemma_targets_left(state);
    if !state.is_done() {
        let after = after_removal(state, removals[0]);
        lemma_targets_left(after);
        lemma_run_comes_to_its_end(after, removals.skip(1));
    }
}

/// A cleanup comes to its end: it deletes each path of the selected chains at most once.
pub proof fn law_cleanup_ends(paths: Seq<DoomedModel>, removals: Seq<Removal>)
    requires
        removals.len() >= path_count(paths),
    ensures
        cleanup_run(begun(paths), removals).is_done(),
{
    lemma_targets_left(begun(paths));
    lemma_run_comes_to_its_end(begun(paths), removals);
}

/// All objects that were deleted.
pub open spec fn deleted_in(removals: Seq<Removal>) -> nat
    decreases removals.len(),
{
    if removals.len() == 0 {
        0
    } else {
        removals[0].deleted + deleted_in(removals.skip(1))
    }
}

/// All objects that failed to be deleted.
pub open spec fn failed_in(removals: Seq<Removal>) -> nat
    decreases removals.len(),
{
    if removals.len() == 0 {
        0
    } else {
        removals[0].failed + failed_in(removals.skip(1))
    }
}

proof fn lemma_run_counts(state: CleanupModel, removals: Seq<Removal>)
    requires
        removals.len() > 0 ==> !cleanup_run(state, removals.drop_last()).is_done(),
        state.well_formed(),
        state.is_done() ==> state.failures == 0,
    ensures
        ({
            let end = cleanup_run(state, removals);
            &&& end.tally.objects_deleted == state.tally.objects_deleted + deleted_in(removals)
            &&& end.tally.objects_failed + end.failures == state.tally.objects_failed
                + state.failures + failed_in(removals)
        }),
    decreases removals.len(),
{
    if removals.len() > 0 {
        if state.is_done() {
            assert(cleanup_run(state, removals.drop_last()) == state);
        } else {
            let after = after_removal(state, removals[0]);
            if removals.len() > 1 {
                assert(removals.skip(1).drop_last() =~= removals.drop_last().skip(1));
                assert(removals.drop_last()[0] == removals[0]);
            }
            lemma_run_counts(after, removals.skip(1));
        }
    }
}

/// The report counts what happened: every object that was deleted, and every one that failed to
/// be, whichever path it stood at.
pub proof fn law_reports_count_objects(paths: Seq<DoomedModel>, removals: Seq<Removal>)
    requires
        removals.len() > 0 ==> !cleanup_run(begun(paths), removals.drop_last()).is_done(),
    ensures
        ({
            let end = cleanup_run(begun(paths), removals);
            &&& end.tally.objects_deleted == deleted_in(removals)
            &&& end.is_done() ==> end.tally.objects_failed == failed_in(removals)
        }),
{
    lemma_run_counts(begun(paths), removals);
    lemma_done_has_no_failures(begun(paths), removals);
}

proof fn lemma_done_has_no_failures(state: CleanupModel, removals: Seq<Removal>)
    requires
        state.is_done() ==> state.failures == 0,
    ensures
        cleanup_run(state, removals).is_done() ==> cleanup_run(state, removals).failures == 0,
    decreases removals.len(),
{
    if removals.len() > 0 && !state.is_done() {
        lemma_done_has_no_failures(after_removal(state, removals[0]), removals.skip(1));
    }
}

/// Whether the newest backup of a chain, which is its last incremental or else its full backup,
/// was made at least so many days before `now`, where that is asked for.
spec fn newest_is_old(chain: ChainModel, keep_days: Option<u32>, now: Timestamp) -> bool {
    keep_days matches Some(days) ==> {
        let n = chain.incrementals.len() as int;
        let newest = if n > 0 {
            chain.incrementals[n - 1].1.timestamp
        } else {
            chain.full.timestamp
        };
        now.nanos_since(newest) >= days * 86_400_000_000_000
    }
}

/// A chain is selected exactly where it stands behind as many chains as are kept and its newest
/// restore point, the last incremental or else the full backup, was made at least `keep_days` days
/// before now. Without `keep_days` the age does not count.
pub proof fn law_chains_go_by_place_and_newest_restore_point(
    chains: Seq<ChainModel>,
    keep: nat,
    keep_days: Option<u32>,
    now: Timestamp,
    c: ChainModel,
)
    ensures
        doomed(chains, keep, keep_days, now).contains(c) <==> exists|k: int|
            keep <= k < chains.len() && #[trigger] chains[k] == c && (keep_days matches Some(days)
                ==> (if c.incrementals.len() > 0 {
                now.nanos_since(c.incrementals[c.incrementals.len() - 1].1.timestamp)
            } else {
                now.nanos_since(c.full.timestamp)
            }) >= days * 86_400_000_000_000),
        keep_days is None ==> doomed(chains, keep, keep_days, now) == if keep < chains.len() {
            chains.subrange(keep as int, chains.len() as int)
        } else {
            Seq::empty()
        },
{
    let expired = |chain: ChainModel| is_expired(chain, keep_days, now);
    let rest = beyond(chains, keep);
    if doomed(chains, keep, keep_days, now).contains(c) {
        let i = choose|i: int|
            0 <= i < doomed(chains, keep, keep_days, now).len() && doomed(
                chains,
                keep,
                keep_days,
                now,
            )[i] == c;
        law_retention_is_respected(chains, keep, keep_days, now, i);
        assert(newest_is_old(c, keep_days, now));
    }
    if exists|k: int|
        keep <= k < chains.len() && #[trigger] chains[k] == c && newest_is_old(c, keep_days, now) {
        let k = choose|k: int|
            keep <= k < chains.len() && #[trigger] chains[k] == c && newest_is_old(
                c,
                keep_days,
                now,
            );
        assert(is_expired(chains[k], keep_days, now));
        law_expired_chains_are_selected(chains, keep, keep_days, now, k);
    }
    if keep_days is None {
        lemma_filter_all(rest, expired);
        if keep < chains.len() {
            assert(rest =~= chains.subrange(keep as int, chains.len() as int));
        }
    }
}

proof fn lemma_filter_all(s: Seq<ChainModel>, p: spec_fn(ChainModel) -> bool)
    requires
        forall|i: int| 0 <= i < s.len() ==> p(#[trigger] s[i]),
    ensures
        s.filter(p) == s,
    decreases s.len(),
{
    reveal(Seq::filter);
    if s.len() > 0 {
        assert forall|i: int| 0 <= i < s.drop_last().len() implies p(
            #[trigger] s.drop_last()[i],
        ) by {
            assert(s.drop_last()[i] == s[i]);
        }
        lemma_filter_all(s.drop_last(), p);
        assert(p(s[s.len() - 1]));
        assert(s.drop_last().push(s.last()) =~= s);
    }
}

/// With `keep_days` set, no chain is selected that holds a younger backup, full or incremental:
/// each was made at least `keep_days` days before now, where incrementals stand oldest first
/// behind their full backup and no leap second is involved. Conversely, a chain behind those that
/// are kept of which all backups are that old is selected.
pub proof fn law_no_young_backup_is_deleted(
    chains: Seq<ChainModel>,
    keep: nat,
    days: u32,
    now: Timestamp,
    k: int,
)
    requires
        0 <= k < chains.len(),
    ensures
        ({
            let c = chains[k];
            let n = c.incrementals.len() as int;
            let span = days * 86_400_000_000_000;
            let picked = doomed(chains, keep, Some(days), now);
            &&& picked.contains(c) && is_ordered(c.incrementals) && (n > 0
                ==> c.full.timestamp.instant() <= c.incrementals[0].1.timestamp.instant())
                && now.valid() && now.nanos() < 1_000_000_000 && (forall|j: int|
                0 <= j <= n ==> !falls_into_leap_second(#[trigger] backup_at(c, j).1)) ==> forall|
                j: int,
            |
                0 <= j <= n ==> now.nanos_since((#[trigger] backup_at(c, j)).1.timestamp) >= span
            &&& keep <= k && (forall|j: int|
                0 <= j <= n ==> now.nanos_since((#[trigger] backup_at(c, j)).1.timestamp) >= span)
                ==> picked.contains(c)
        }),
{
    let c = chains[k];
    let n = c.incrementals.len() as int;
    let span = days * 86_400_000_000_000;
    law_chains_go_by_place_and_newest_restore_point(chains, keep, Some(days), now, c);
    let newest = backup_at(c, n);
    if doomed(chains, keep, Some(days), now).contains(c) && is_ordered(c.incrementals) && (n > 0
        ==> c.full.timestamp.instant() <= c.incrementals[0].1.timestamp.instant()) && now.valid()
        && now.nanos() < 1_000_000_000 && (forall|j: int|
        0 <= j <= n ==> !falls_into_leap_second(#[trigger] backup_at(c, j).1)) {
        assert forall|j: int| 0 <= j <= n implies now.nanos_since(
            (#[trigger] backup_at(c, j)).1.timestamp,
        ) >= span by {
            let b = backup_at(c, j);
            assert(!falls_into_leap_second(b.1) && !falls_into_leap_second(newest.1));
            if n > 0 {
                if 0 < j && j < n {
                    assert(c.incrementals[j - 1].ranks_before(c.incrementals[n - 1]));
                } else if j == 0 && n > 1 {
                    assert(c.incrementals[0].ranks_before(c.incrementals[n - 1]));
                }
            }
            assert(b.1.timestamp.instant() <= newest.1.timestamp.instant());
        }
    }
    if keep <= k && (forall|j: int|
        0 <= j <= n ==> now.nanos_since((#[trigger] backup_at(c, j)).1.timestamp) >= span) {
        assert(now.nanos_since(newest.1.timestamp) >= span);
    }
}

/// Whether a backup was made in a leap second.
pub open spec fn falls_into_leap_second(meta: BackupMetadata) -> bool {
    !(0 <= meta.timestamp.nanos() < 1_000_000_000)
}

/// A cleanup goes by the configured bounds: it sets out to delete chains behind the first
/// `keep_full_backups`, each with all of its paths, and only such whose newest restore point is as
/// old as `keep_days` asks for. A dry run deletes nothing and reports how many chains would go.
pub proof fn law_cleanups_follow_the_configuration(
    config: Config,
    chains: Seq<ChainModel>,
    dry_run: bool,
    now: Timestamp,
    state: Cleanup,
    step: CleanupStep,
)
    requires
        starts_cleanup(config, chains, dry_run, now, state, step),
    ensures
        ({
            let picked = doomed(
                chains,
                config.retention.keep_full_backups as nat,
                config.retention.keep_days,
                now,
            );
            &&& dry_run ==> (step matches CleanupStep::Finished(report) && report.chains_deleted
                == picked.len() && report.chains_failed == 0 && report.objects_deleted == 0
                && report.objects_failed == 0)
            &&& !dry_run ==> {
                &&& state@.remaining.len() == picked.len()
                &&& forall|i: int|
                    0 <= i < picked.len() ==> (#[trigger] state@.remaining[i]).full_path
                        == picked[i].full_path && state@.remaining[i].incrementals.len()
                        == picked[i].incrementals.len()
                &&& forall|i: int, j: int|
                    0 <= i < picked.len() && 0 <= j < picked[i].incrementals.len() ==> (
                    #[trigger] state@.remaining[i].incrementals[j])
                        == picked[i].incrementals[j].0@
                &&& picked.len() > 0 ==> (step matches CleanupStep::Delete(path) && path@ == if
                    picked[0].incrementals.len() > 0 {
                    picked[0].incrementals[picked[0].incrementals.len() - 1].0@
                } else {
                    picked[0].full_path
                })
                &&& picked.len() == 0 ==> (step matches CleanupStep::Finished(report)
                    && report.chains_deleted == 0 && report.chains_failed == 0
                    && report.objects_deleted == 0 && report.objects_failed == 0)
            }
        }),
{
    let picked = doomed(
        chains,
        config.retention.keep_full_backups as nat,
        config.retention.keep_days,
        now,
    );
    let paths = doomed_paths(config, chains, now);
    assert(paths.len() == picked.len());
    if picked.len() > 0 {
        assert(paths[0] == chain_paths(picked[0]));
    }
}

/// The incrementals of a chain go from the newest to the oldest, whether or not one of them fails
/// to; the full backup has its turn behind them, and only where none failed.
pub proof fn law_incrementals_go_newest_first(
    paths: Seq<DoomedModel>,
    removals: Seq<Removal>,
)
    requires
        paths.len() > 0,
        removals.len() <= paths[0].incrementals.len(),
    ensures
        ({
            let state = cleanup_run(begun(paths), removals);
            let n = paths[0].incrementals.len() as int;
            let done = removals.len() as int;
            &&& done < n ==> !state.is_done() && state.remaining == paths && state.target()
                == paths[0].incrementals[n - 1 - done]
            &&& done == n && failed_in(removals) == 0 ==> !state.is_done() && state.remaining
                == paths && state.target() == paths[0].full_path
            &&& done == n && n > 0 && failed_in(removals) > 0 ==> state.remaining == paths.skip(1)
                && state.tally.chains_failed == 1 && state.tally.chains_deleted == 0
        }),
    decreases removals.len(),
{
    if removals.len() > 0 {
        let first = removals.drop_last();
        law_incrementals_go_newest_first(paths, first);
        if first.len() > 0 {
            law_incrementals_go_newest_first(paths, first.drop_last());
        }
        lemma_run_counts(begun(paths), first);
        lemma_cleanup_run_step(begun(paths), removals);
        lemma_tally_before_end(paths, first);
        lemma_failed_in_last(removals);
        lemma_left_counts_down(paths, first);
        let before = cleanup_run(begun(paths), first);
        assert(before.failures == failed_in(first));
        assert(before.left == paths[0].incrementals.len() - first.len());
    }
}

/// Each removal among the incrementals of the first chain leaves one less.
proof fn lemma_left_counts_down(paths: Seq<DoomedModel>, removals: Seq<Removal>)
    requires
        paths.len() > 0,
        removals.len() < paths[0].incrementals.len(),
    ensures
        cleanup_run(begun(paths), removals).left == paths[0].incrementals.len() - removals.len(),
        cleanup_run(begun(paths), removals).remaining == paths,
    decreases removals.len(),
{
    if removals.len() > 0 {
        lemma_left_counts_down(paths, removals.drop_last());
        lemma_cleanup_run_step(begun(paths), removals);
    }
}

proof fn lemma_failed_in_last(removals: Seq<Removal>)
    requires
        removals.len() > 0,
    ensures
        failed_in(removals) == failed_in(removals.drop_last()) + removals.last().failed,
    decreases removals.len(),
{
    reveal_with_fuel(failed_in, 2);
    if removals.len() > 1 {
        lemma_failed_in_last(removals.skip(1));
        assert(removals.skip(1).drop_last() =~= removals.drop_last().skip(1));
        assert(removals.skip(1).last() == removals.last());
        assert(removals.drop_last()[0] == removals[0]);
    } else {
        assert(removals.skip(1).len() == 0);
    }
}

/// As long as the first chain is not dealt with, no chain counts as deleted or failed.
proof fn lemma_tally_before_end(paths: Seq<DoomedModel>, removals: Seq<Removal>)
    requires
        paths.len() > 0,
        cleanup_run(begun(paths), removals).remaining == paths,
    ensures
        cleanup_run(begun(paths), removals).tally.chains_deleted == 0,
        cleanup_run(begun(paths), removals).tally.chains_failed == 0,
        cleanup_run(begun(paths), removals).tally.objects_failed == 0,
{
    lemma_run_holds(paths, begun(paths), removals);
}

/// The last removal of a run is dealt with after all others.
proof fn lemma_cleanup_run_step(state: CleanupModel, removals: Seq<Removal>)
    requires
        removals.len() > 0,
    ensures
        ({
            let before = cleanup_run(state, removals.drop_last());
            cleanup_run(state, removals) == if before.is_done() {
                before
            } else {
                after_removal(before, removals.last())
            }
        }),
    decreases removals.len(),
{
    if !state.is_done() {
        let after = after_removal(state, removals[0]);
        if removals.len() > 1 {
            assert(removals.skip(1).drop_last() =~= removals.drop_last().skip(1));
            assert(removals.drop_last()[0] == removals[0]);
            lemma_cleanup_run_step(after, removals.skip(1));
        } else {
            assert(cleanup_run(after, removals.skip(1)) == after);
        }
    }
}

/// What the deletion of a path counts for: the objects that went and those that did not, or one
/// failure where the path could not even be listed.
pub proof fn law_removals_count_objects(outcome: DeleteOutcome, error: ClickVaultError)
    ensures
        removal(Ok(outcome)).deleted == outcome.deleted,
        removal(Ok(outcome)).failed == outcome.failed,
        removal(Err(error)).deleted == 0,
        removal(Err(error)).failed == 1,
{
}

/// Each chain is decided on by itself, in its place: one more chain behind all others changes
/// nothing about these, and is selected at the end exactly where it stands behind as many chains as
/// are kept and its newest restore point is as old as `keep_days` asks for.
pub proof fn law_chains_are_selected_in_their_order(
    chains: Seq<ChainModel>,
    c: ChainModel,
    keep: nat,
    keep_days: Option<u32>,
    now: Timestamp,
)
    ensures
        ({
            let newest = if c.incrementals.len() > 0 {
                c.incrementals[c.incrementals.len() - 1].1.timestamp
            } else {
                c.full.timestamp
            };
            let goes = keep <= chains.len() && (keep_days matches Some(days) ==> now.nanos_since(
                newest,
            ) >= days * 86_400_000_000_000);
            doomed(chains.push(c), keep, keep_days, now) == if goes {
                doomed(chains, keep, keep_days, now).push(c)
            } else {
                doomed(chains, keep, keep_days, now)
            }
        }),
        doomed(Seq::empty(), keep, keep_days, now) == Seq::<ChainModel>::empty(),
{
    reveal(Seq::filter);
    assert(newest_is_old(c, keep_days, now) == is_expired(c, keep_days, now));
    let all = beyond(chains.push(c), keep);
    let before = beyond(chains, keep);
    if keep <= chains.len() {
        assert(all =~= before.push(c));
        assert(all.drop_last() =~= before);
    } else {
        assert(all =~= before);
    }
    assert(beyond(Seq::empty(), keep) =~= Seq::<ChainModel>::empty());
}

/// The end of a chain: once its full backup was dealt with, the chain counts as deleted where
/// nothing was left behind, and as failed otherwise, and the next chain starts with all of its
/// incrementals.
pub proof fn law_chains_end_with_their_full_backup(state: CleanupModel, removal: Removal)
    requires
        state.well_formed(),
        !state.is_done(),
        state.left == 0,
    ensures
        ({
            let after = after_removal(state, removal);
            &&& after.remaining == state.remaining.skip(1)
            &&& after.remaining.len() > 0 ==> after.left == after.remaining[0].incrementals.len()
            &&& after.failures == 0
            &&& removal.failed == 0 ==> after.tally.chains_deleted == state.tally.chains_deleted + 1
                && after.tally.chains_failed == state.tally.chains_failed
                && after.tally.objects_failed == state.tally.objects_failed
            &&& removal.failed > 0 ==> after.tally.chains_deleted == state.tally.chains_deleted
                && after.tally.chains_failed == state.tally.chains_failed + 1
                && after.tally.objects_failed == state.tally.objects_failed + removal.failed
            &&& after.tally.objects_deleted == state.tally.objects_deleted + removal.deleted
        }),
{
}

} // verus!
