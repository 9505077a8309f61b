//! Which backups exist, and which chains they form.
use vstd::prelude::*;

use super::chain_laws::{
    law_direct_incrementals_join, law_every_full_starts_one_chain,
    law_incrementals_stand_oldest_first,
};
use super::{BackupChain, BackupMetadata, ChainModel};
use crate::error::{ClickVaultError, MetadataReadError};
use crate::order::{Ranked, Sortable, sort, sorted};
use crate::text::{has_suffix_char, trim_end_char, trimmed_end};
use crate::time::Timestamp;

verus! {

impl Ranked for (String, BackupMetadata) {
    /// Backups are put in order by their timestamps, oldest first.
    open spec fn ranks_before(self, other: Self) -> bool {
        self.1.timestamp.instant() <= other.1.timestamp.instant()
    }

    proof fn rank_is_total(a: Self, b: Self) {
    }

    proof fn rank_is_transitive(a: Self, b: Self, c: Self) {
    }
}

impl Sortable for (String, BackupMetadata) {
    fn may_precede(&self, other: &Self) -> (r: bool) {
        self.1.timestamp.is_at_most(&other.1.timestamp)
    }
}

impl Ranked for ChainModel {
    /// Chains are put in order by the timestamps of their full backups, newest first.
    open spec fn ranks_before(self, other: Self) -> bool {
        self.full.timestamp.instant() >= other.full.timestamp.instant()
    }

    proof fn rank_is_total(a: Self, b: Self) {
    }

    proof fn rank_is_transitive(a: Self, b: Self, c: Self) {
    }
}

impl Ranked for BackupChain {
    /// Chains are put in order by the timestamps of their full backups, newest first.
    open spec fn ranks_before(self, other: Self) -> bool {
        self@.ranks_before(other@)
    }

    proof fn rank_is_total(a: Self, b: Self) {
    }

    proof fn rank_is_transitive(a: Self, b: Self, c: Self) {
    }
}

impl Sortable for BackupChain {
    fn may_precede(&self, other: &Self) -> (r: bool) {
        other.full.timestamp.is_at_most(&self.full.timestamp)
    }
}

/// What each of the chains holds.
pub open spec fn models(chains: Seq<BackupChain>) -> Seq<ChainModel> {
    chains.map_values(|c: BackupChain| c@)
}

/// Whether two S3 paths name the same place: slashes at the end do not count.
pub open spec fn same_path(a: Seq<char>, b: Seq<char>) -> bool {
    trimmed_end(a, '/') == trimmed_end(b, '/')
}

fn is_same_path(a: &str, b: &str) -> (r: bool)
    ensures
        r == same_path(a@, b@),
{
    let x = trim_end_char(a, '/');
    let y = trim_end_char(b, '/');
    x == y
}

/// An incremental backup within a chain, as far as tracing looks at it.
pub struct Link {
    /// The path of the chain's full backup.
    pub full_path: Seq<char>,
    pub path: Seq<char>,
    pub base: Option<Seq<char>>,
}

/// The incremental backups of one chain.
pub open spec fn chain_links(chain: ChainModel) -> Seq<Link> {
    chain.incrementals.map_values(
        |e: (String, BackupMetadata)|
            Link { full_path: chain.full_path, path: e.0@, base: e.1.base() },
    )
}

/// The incremental backups of all chains, one chain after the other.
pub open spec fn links(chains: Seq<ChainModel>) -> Seq<Link>
    decreases chains.len(),
{
    if chains.len() == 0 {
        Seq::empty()
    } else {
        chain_links(chains[0]) + links(chains.skip(1))
    }
}

/// Where one walk along the incremental backups ends.
pub enum Walk {
    /// The chain was found; this is the path of its full backup.
    Found(Seq<char>),
    /// The walk came to its end looking for `base`; `moved` tells whether it took any step back.
    At { base: Seq<char>, moved: bool },
}

/// Walks along `links` once, looking for `base`. Where a link has that path, the walk ends if the
/// link's own base is the chain's full backup or is not recorded, and otherwise goes on looking
/// for the link's base.
pub open spec fn walk(links: Seq<Link>, base: Seq<char>, moved: bool) -> Walk
    decreases links.len(),
{
    if links.len() == 0 {
        Walk::At { base, moved }
    } else if !same_path(links[0].path, base) {
        walk(links.skip(1), base, moved)
    } else {
        match links[0].base {
            None => Walk::Found(links[0].full_path),
            Some(next) => if same_path(links[0].full_path, next) {
                Walk::Found(links[0].full_path)
            } else {
                walk(links.skip(1), next, true)
            },
        }
    }
}

/// Walks along `links` until the chain is found, at most `passes` times, and only as long as each
/// walk takes a step back.
pub open spec fn trace(links: Seq<Link>, base: Seq<char>, passes: nat) -> Option<Seq<char>>
    decreases passes,
{
    if passes == 0 {
        None
    } else {
        match walk(links, base, false) {
            Walk::Found(full_path) => Some(full_path),
            Walk::At { base: next, moved } => if moved {
                trace(links, next, (passes - 1) as nat)
            } else {
                None
            },
        }
    }
}

/// The path of the first full backup that `base` names.
pub open spec fn full_named(chains: Seq<ChainModel>, base: Seq<char>) -> Option<Seq<char>>
    decreases chains.len(),
{
    if chains.len() == 0 {
        None
    } else if same_path(chains[0].full_path, base) {
        Some(chains[0].full_path)
    } else {
        full_named(chains.skip(1), base)
    }
}

/// The path of the full backup of the chain that a backup with this metadata belongs to.
///
/// One walk more than there are incremental backups reaches as far back as links lead, and comes
/// to an end where they lead in a circle.
pub open spec fn chain_of(chains: Seq<ChainModel>, meta: BackupMetadata) -> Option<Seq<char>> {
    match meta.base() {
        None => None,
        Some(base) => match full_named(chains, base) {
            Some(full_path) => Some(full_path),
            None => trace(links(chains), base, links(chains).len() + 1),
        },
    }
}

/// The text in an optional string.
pub open spec fn opt_text(s: Option<String>) -> Option<Seq<char>> {
    match s {
        Some(t) => Some(t@),
        None => None,
    }
}

/// Where one executed walk along the incremental backups ended.
enum WalkEnd {
    Found(String),
    At(String, bool),
}

/// Walks along the incremental backups of all chains once.
fn walk_chains(chains: &[BackupChain], base: &str) -> (r: WalkEnd)
    ensures
        match (r, walk(links(models(chains@)), base@, false)) {
            (WalkEnd::Found(path), Walk::Found(full_path)) => path@ == full_path,
            (WalkEnd::At(text, m), Walk::At { base: next, moved }) => text@ == next && m == moved,
            _ => false,
        },
{
    let ghost all = models(chains@);
    let ghost whole = walk(links(all), base@, false);
    let mut current: String = base.to_owned();
    let mut moved: bool = false;
    let mut i: usize = 0;
    assert(all.skip(0) =~= all);
    while i < chains.len()
        invariant
            i <= chains@.len(),
            all == models(chains@),
            whole == walk(links(models(chains@)), base@, false),
            whole == walk(links(all.skip(i as int)), current@, moved),
        decreases chains@.len() - i,
    {
        let chain = &chains[i];
        let ghost here = chain_links(chain@);
        let ghost after = links(all.skip(i + 1));
        proof {
            assert(all.skip(i as int)[0] == chain@);
            assert(all.skip(i as int).skip(1) =~= all.skip(i + 1));
            assert(here.skip(0) =~= here);
        }
        let mut j: usize = 0;
        while j < chain.incrementals.len()
            invariant
                j <= chain.incrementals@.len(),
                here == chain_links(chain@),
                whole == walk(links(models(chains@)), base@, false),
                whole == walk(here.skip(j as int) + after, current@, moved),
            decreases chain.incrementals@.len() - j,
        {
            let entry = &chain.incrementals[j];
            proof {
                let rest = here.skip(j as int) + after;
                assert(rest[0] == here[j as int]);
                assert(rest.skip(1) =~= here.skip(j + 1) + after);
            }
            if is_same_path(entry.0.as_str(), current.as_str()) {
                match &entry.1.base_backup_path {
                    Some(next) => {
                        if is_same_path(chain.full_path.as_str(), next.as_str()) {
                            return WalkEnd::Found(chain.full_path.clone());
                        }
                        current = next.clone();
                        moved = true;
                    },
                    None => {
                        return WalkEnd::Found(chain.full_path.clone());
                    },
                }
            }
            j = j + 1;
        }
        assert(here.skip(j as int) + after =~= after);
        i = i + 1;
    }
    assert(links(all.skip(i as int)).len() == 0);
    WalkEnd::At(current, moved)
}

/// How many incremental backups the chains have.
fn count_links(chains: &[BackupChain]) -> (r: u128)
    ensures
        r == links(models(chains@)).len(),
        r < u128::MAX,
{
    let ghost all = models(chains@);
    let mut total: u128 = 0;
    let mut i: usize = 0;
    assert(all.skip(0) =~= all);
    while i < chains.len()
        invariant
            i <= chains@.len(),
            all == models(chains@),
            links(all).len() == total + links(all.skip(i as int)).len(),
            total <= i * 0xffff_ffff_ffff_ffff,
        decreases chains@.len() - i,
    {
        assert(all.skip(i as int)[0] == chains@[i as int]@);
        assert(all.skip(i as int).skip(1) =~= all.skip(i + 1));
        total = total + chains[i].incrementals.len() as u128;
        i = i + 1;
    }
    assert(links(all.skip(i as int)).len() == 0);
    total
}

/// Traces an incremental backup's chain back to find which full backup it belongs to.
pub fn find_chain_for_incremental(
    chains: &[BackupChain],
    _incr_path: &str,
    incr_meta: &BackupMetadata,
) -> (r: Option<String>)
    ensures
        opt_text(r) == chain_of(models(chains@), *incr_meta),
{
    let base: String = match &incr_meta.base_backup_path {
        Some(base) => base.clone(),
        None => {
            return None;
        },
    };
    let ghost all = models(chains@);
    let mut i: usize = 0;
    assert(all.skip(0) =~= all);
    while i < chains.len()
        invariant
            i <= chains@.len(),
            all == models(chains@),
            incr_meta.base() == Some(base@),
            full_named(all, base@) == full_named(all.skip(i as int), base@),
        decreases chains@.len() - i,
    {
        assert(all.skip(i as int)[0] == chains@[i as int]@);
        assert(all.skip(i as int).skip(1) =~= all.skip(i + 1));
        if is_same_path(chains[i].full_path.as_str(), base.as_str()) {
            return Some(chains[i].full_path.clone());
        }
        i = i + 1;
    }
    let mut current: String = base;
    let most: u128 = count_links(chains) + 1;
    let mut passes: u128 = 0;
    while passes < most
        invariant
            passes <= most,
            all == models(chains@),
            chain_of(all, *incr_meta) == trace(
                links(all),
                current@,
                (most - passes) as nat,
            ),
        decreases most - passes,
    {
        match walk_chains(chains, current.as_str()) {
            WalkEnd::Found(full_path) => {
                return Some(full_path);
            },
            WalkEnd::At(next, moved) => {
                if !moved {
                    return None;
                }
                current = next;
            },
        }
        passes = passes + 1;
    }
    None
}

/// The place of the first chain whose full backup has exactly this path.
pub open spec fn chain_position(chains: Seq<ChainModel>, full_path: Seq<char>) -> nat
    decreases chains.len(),
{
    if chains.len() == 0 || chains[0].full_path == full_path {
        0
    } else {
        1 + chain_position(chains.skip(1), full_path)
    }
}

/// The chain with one more incremental backup at its end.
pub open spec fn extended(chain: ChainModel, backup: (String, BackupMetadata)) -> ChainModel {
    ChainModel { incrementals: chain.incrementals.push(backup), ..chain }
}

/// The chains after an incremental backup was added to the one it belongs to. An orphan, which
/// belongs to none, changes nothing.
pub open spec fn attached(chains: Seq<ChainModel>, backup: (String, BackupMetadata)) -> Seq<
    ChainModel,
> {
    match chain_of(chains, backup.1) {
        None => chains,
        Some(full_path) => {
            let at = chain_position(chains, full_path) as int;
            if at < chains.len() {
                chains.update(at, extended(chains[at], backup))
            } else {
                chains
            }
        },
    }
}

/// The chains after the incremental backups were added one after the other.
pub open spec fn all_attached(
    chains: Seq<ChainModel>,
    backups: Seq<(String, BackupMetadata)>,
) -> Seq<ChainModel>
    decreases backups.len(),
{
    if backups.len() == 0 {
        chains
    } else {
        attached(all_attached(chains, backups.drop_last()), backups.last())
    }
}

/// The full backups, each as a chain without incrementals.
pub open spec fn bare_chains(fulls: Seq<(String, BackupMetadata)>) -> Seq<ChainModel> {
    fulls.map_values(
        |e: (String, BackupMetadata)|
            ChainModel { full_path: e.0@, full: e.1, incrementals: Seq::empty() },
    )
}

/// The chains that full and incremental backups form: every full backup starts a chain, the
/// incrementals are added oldest first, and the chains stand newest first.
pub open spec fn grouped(
    fulls: Seq<(String, BackupMetadata)>,
    incrementals: Seq<(String, BackupMetadata)>,
) -> Seq<ChainModel> {
    sorted(all_attached(bare_chains(fulls), sorted(incrementals)))
}

/// Adds an incremental backup to the chain that it belongs to, if there is one.
fn attach(chains: &mut Vec<BackupChain>, backup: (String, BackupMetadata))
    ensures
        models(final(chains)@) == attached(models(old(chains)@), backup),
{
    let ghost before = models(chains@);
    match find_chain_for_incremental(chains.as_slice(), backup.0.as_str(), &backup.1) {
        None => {},
        Some(full_path) => {
            let mut i: usize = 0;
            assert(before.skip(0) =~= before);
            while i < chains.len() && chains[i].full_path != full_path
                invariant
                    chains@ == old(chains)@,
                    before == models(chains@),
                    i <= chains@.len(),
                    chain_position(before, full_path@) == i + chain_position(
                        before.skip(i as int),
                        full_path@,
                    ),
                decreases chains@.len() - i,
            {
                assert(before.skip(i as int)[0] == chains@[i as int]@);
                assert(before.skip(i as int).skip(1) =~= before.skip(i + 1));
                i = i + 1;
            }
            proof {
                if i < chains@.len() {
                    assert(before.skip(i as int)[0] == chains@[i as int]@);
                }
            }
            if i < chains.len() {
                chains[i].incrementals.push(backup);
                assert(models(chains@) =~= before.update(i as int, extended(before[i as int], backup)));
            }
        },
    }
}

/// Groups incrementals under their full backups by tracing chain links.
///
/// Returned chains are sorted newest-first; incrementals within each chain are sorted
/// oldest-first.
pub fn group_chains(
    fulls: Vec<(String, BackupMetadata)>,
    incrementals: Vec<(String, BackupMetadata)>,
) -> (r: Vec<BackupChain>)
    ensures
        models(r@) == grouped(fulls@, incrementals@),
{
    let ghost all_fulls = fulls@;
    let mut fulls = fulls;
    let mut chains: Vec<BackupChain> = Vec::new();
    let ghost mut n: int = 0;
    assert(models(chains@) =~= bare_chains(all_fulls.take(0)));
    while fulls.len() > 0
        invariant
            0 <= n <= all_fulls.len(),
            fulls@ == all_fulls.skip(n),
            models(chains@) == bare_chains(all_fulls.take(n)),
        decreases fulls@.len(),
    {
        let (path, meta) = fulls.remove(0);
        let ghost before = models(chains@);
        let chain = BackupChain { full_path: path, full: meta, incrementals: Vec::new() };
        chains.push(chain);
        proof {
            assert(fulls@ =~= all_fulls.skip(n + 1));
            assert(chain@.incrementals =~= Seq::<(String, BackupMetadata)>::empty());
            assert(chain@ == bare_chains(all_fulls)[n]);
            assert(models(chains@) =~= before.push(chain@));
            assert(bare_chains(all_fulls.take(n + 1)) =~= bare_chains(all_fulls.take(n)).push(
                bare_chains(all_fulls)[n],
            ));
            n = n + 1;
        }
    }
    assert(all_fulls.take(n) =~= all_fulls);
    let ghost bare = models(chains@);
    let mut ordered = sort(incrementals);
    let ghost all_incrementals = ordered@;
    proof {
        n = 0;
        assert(all_incrementals.take(0) =~= Seq::<(String, BackupMetadata)>::empty());
    }
    while ordered.len() > 0
        invariant
            0 <= n <= all_incrementals.len(),
            ordered@ == all_incrementals.skip(n),
            models(chains@) == all_attached(bare, all_incrementals.take(n)),
        decreases ordered@.len(),
    {
        let backup = ordered.remove(0);
        attach(&mut chains, backup);
        proof {
            assert(ordered@ =~= all_incrementals.skip(n + 1));
            assert(all_incrementals.take(n + 1).drop_last() =~= all_incrementals.take(n));
            n = n + 1;
        }
    }
    assert(all_incrementals.take(n) =~= all_incrementals);
    proof {
        crate::order::lemma_sorted_map(chains@, |c: BackupChain| c@);
    }
    sort(chains)
}

/// What came of reading the metadata sidecar of one listed backup.
#[derive(Debug)]
pub struct BackupRead {
    pub path: String,
    pub outcome: Result<BackupMetadata, MetadataReadError>,
}

/// The backups whose metadata could be read, in the order in which they were listed.
pub open spec fn readable(reads: Seq<BackupRead>) -> Seq<(String, BackupMetadata)>
    decreases reads.len(),
{
    if reads.len() == 0 {
        Seq::empty()
    } else {
        match reads.last().outcome {
            Ok(meta) => readable(reads.drop_last()).push((reads.last().path, meta)),
            Err(_) => readable(reads.drop_last()),
        }
    }
}

/// Whether a backup exists whose metadata cannot be had. A missing sidecar is an orphan, which is
/// no backup.
pub open spec fn is_unavailable(read: BackupRead) -> bool {
    read.outcome matches Err(e) && !(e is Missing)
}

/// The place of the first backup whose metadata cannot be had; the length where there is none.
pub open spec fn first_unavailable(reads: Seq<BackupRead>) -> nat
    decreases reads.len(),
{
    if reads.len() == 0 || is_unavailable(reads[0]) {
        0
    } else {
        1 + first_unavailable(reads.skip(1))
    }
}

/// The backups in order by their timestamps, oldest first.
pub open spec fn listed(reads: Seq<BackupRead>) -> Seq<(String, BackupMetadata)> {
    sorted(readable(reads))
}

/// What stands in the way of listing backups: the listing failed or, where it has to be complete,
/// a backup has an invalid or unreadable sidecar; the first of these counts.
pub open spec fn listing_error(
    listing: Result<Vec<BackupRead>, ClickVaultError>,
    strict: bool,
) -> Option<ClickVaultError> {
    match listing {
        Err(e) => Some(e),
        Ok(reads) => {
            let at = first_unavailable(reads@) as int;
            if strict && at < reads@.len() {
                Some(
                    ClickVaultError::MetadataUnavailable {
                        path: reads@[at].path,
                        source: reads@[at].outcome->Err_0,
                    },
                )
            } else {
                None
            }
        },
    }
}

/// What a listing of backups comes to: its error, or else the backups whose metadata could be
/// read.
pub open spec fn listing_is(
    listing: Result<Vec<BackupRead>, ClickVaultError>,
    strict: bool,
    r: Result<Vec<(String, BackupMetadata)>, ClickVaultError>,
) -> bool {
    match listing_error(listing, strict) {
        Some(e) => r == Err::<Vec<(String, BackupMetadata)>, ClickVaultError>(e),
        None => r matches Ok(backups) && backups@ == listed(listing->Ok_0@),
    }
}

fn list_backups(listing: Result<Vec<BackupRead>, ClickVaultError>, strict: bool) -> (r: Result<
    Vec<(String, BackupMetadata)>,
    ClickVaultError,
>)
    ensures
        listing_is(listing, strict, r),
{
    let mut reads = match listing {
        Ok(reads) => reads,
        Err(e) => {
            return Err(e);
        },
    };
    let ghost all = reads@;
    let ghost mut n: int = 0;
    let mut backups: Vec<(String, BackupMetadata)> = Vec::new();
    proof {
        assert(all.take(0) =~= Seq::<BackupRead>::empty());
        assert(all.skip(0) =~= all);
    }
    while reads.len() > 0
        invariant
            0 <= n <= all.len(),
            listing matches Ok(given) && given@ == all,
            reads@ == all.skip(n),
            backups@ == readable(all.take(n)),
            strict ==> first_unavailable(all) == n + first_unavailable(all.skip(n)),
        decreases reads@.len(),
    {
        let read = reads.remove(0);
        proof {
            assert(read == all[n]);
            assert(all.skip(n)[0] == all[n]);
            assert(all.skip(n).skip(1) =~= all.skip(n + 1));
            assert(reads@ =~= all.skip(n + 1));
            assert(all.take(n + 1).drop_last() =~= all.take(n));
        }
        match read.outcome {
            Ok(meta) => {
                backups.push((read.path, meta));
            },
            Err(MetadataReadError::Missing) => {},
            Err(e) => {
                if strict {
                    return Err(
                        ClickVaultError::MetadataUnavailable { path: read.path, source: e },
                    );
                }
            },
        }
        proof {
            n = n + 1;
        }
    }
    assert(all.take(n) =~= all);
    Ok(sort(backups))
}

/// Lists all full backups. Returns (path, metadata) pairs sorted by timestamp.
pub fn list_full_backups(listing: Result<Vec<BackupRead>, ClickVaultError>, strict: bool) -> (r:
    Result<Vec<(String, BackupMetadata)>, ClickVaultError>)
    ensures
        listing_is(listing, strict, r),
{
    list_backups(listing, strict)
}

/// Lists all incremental backups. Returns (path, metadata) pairs sorted by timestamp.
pub fn list_incremental_backups(
    listing: Result<Vec<BackupRead>, ClickVaultError>,
    strict: bool,
) -> (r: Result<Vec<(String, BackupMetadata)>, ClickVaultError>)
    ensures
        listing_is(listing, strict, r),
{
    list_backups(listing, strict)
}

/// What discovery comes to, given the two listings: the error of the first listing that has one,
/// and otherwise the chains that the listed backups form.
pub open spec fn discovery_is(
    fulls: Result<Vec<BackupRead>, ClickVaultError>,
    incrementals: Result<Vec<BackupRead>, ClickVaultError>,
    strict: bool,
    r: Result<Vec<BackupChain>, ClickVaultError>,
) -> bool {
    match (listing_error(fulls, strict), listing_error(incrementals, strict)) {
        (Some(e), _) => r == Err::<Vec<BackupChain>, ClickVaultError>(e),
        (None, Some(e)) => r == Err::<Vec<BackupChain>, ClickVaultError>(e),
        (None, None) => r matches Ok(chains) && models(chains@) == grouped(
            listed(fulls->Ok_0@),
            listed(incrementals->Ok_0@),
        ),
    }
}

fn discover(
    fulls: Result<Vec<BackupRead>, ClickVaultError>,
    incrementals: Result<Vec<BackupRead>, ClickVaultError>,
    strict: bool,
) -> (r: Result<Vec<BackupChain>, ClickVaultError>)
    ensures
        discovery_is(fulls, incrementals, strict, r),
{
    let f = list_full_backups(fulls, strict);
    let i = list_incremental_backups(incrementals, strict);
    match f {
        Err(e) => Err(e),
        Ok(f) => match i {
            Err(e) => Err(e),
            Ok(i) => Ok(group_chains(f, i)),
        },
    }
}

/// Discovers all backup chains by grouping incrementals under their full backup, leaving out
/// backups whose metadata cannot be read. Chains are sorted newest-first.
pub fn discover_chains(
    fulls: Result<Vec<BackupRead>, ClickVaultError>,
    incrementals: Result<Vec<BackupRead>, ClickVaultError>,
) -> (r: Result<Vec<BackupChain>, ClickVaultError>)
    ensures
        discovery_is(fulls, incrementals, false, r),
{
    discover(fulls, incrementals, false)
}

/// Discovers all backup chains, but refuses to do so on an incomplete view: a backup whose
/// metadata exists and cannot be read is an error. Chains are sorted newest-first.
pub fn discover_chains_strict(
    fulls: Result<Vec<BackupRead>, ClickVaultError>,
    incrementals: Result<Vec<BackupRead>, ClickVaultError>,
) -> (r: Result<Vec<BackupChain>, ClickVaultError>)
    ensures
        discovery_is(fulls, incrementals, true, r),
{
    discover(fulls, incrementals, true)
}

/// Strict discovery succeeds only on a complete view: every listed backup that is no orphan was
/// read.
pub proof fn law_strict_discovery_sees_everything(
    fulls: Vec<BackupRead>,
    incrementals: Vec<BackupRead>,
    chains: Vec<BackupChain>,
)
    requires
        discovery_is(Ok(fulls), Ok(incrementals), true, Ok(chains)),
    ensures
        forall|k: int| 0 <= k < fulls@.len() ==> !is_unavailable(#[trigger] fulls@[k]),
        forall|k: int| 0 <= k < incrementals@.len() ==> !is_unavailable(
            #[trigger] incrementals@[k],
        ),
        models(chains@) == grouped(listed(fulls@), listed(incrementals@)),
{
    lemma_first_unavailable(fulls@);
    lemma_first_unavailable(incrementals@);
}

proof fn lemma_first_unavailable(reads: Seq<BackupRead>)
    ensures
        first_unavailable(reads) <= reads.len(),
        forall|k: int| 0 <= k < first_unavailable(reads) ==> !is_unavailable(#[trigger] reads[k]),
    decreases reads.len(),
{
    if reads.len() > 0 && !is_unavailable(reads[0]) {
        lemma_first_unavailable(reads.skip(1));
        assert forall|k: int| 0 <= k < first_unavailable(reads) implies !is_unavailable(
            #[trigger] reads[k],
        ) by {
            if k > 0 {
                assert(reads[k] == reads.skip(1)[k - 1]);
            }
        }
    }
}

/// The path and the metadata of one backup of a chain: the full backup at 0, and the incrementals
/// behind it.
pub open spec fn backup_at(chain: ChainModel, j: int) -> (Seq<char>, BackupMetadata) {
    if j == 0 {
        (chain.full_path, chain.full)
    } else {
        (chain.incrementals[j - 1].0@, chain.incrementals[j - 1].1)
    }
}

/// Whether chain `k` has a backup `j`.
pub open spec fn has_backup(chains: Seq<ChainModel>, k: int, j: int) -> bool {
    0 <= k < chains.len() && 0 <= j <= chains[k].incrementals.len()
}

/// When a backup was made.
pub open spec fn made_at(chains: Seq<ChainModel>, k: int, j: int) -> int {
    backup_at(chains[k], j).1.timestamp.instant()
}

/// Whether backup `j` of chain `k` is the latest one across all chains: no backup is newer. Of
/// several that are equally new, it is the last one in the first of their chains.
pub open spec fn is_latest(chains: Seq<ChainModel>, k: int, j: int) -> bool {
    &&& has_backup(chains, k, j)
    &&& forall|i: int, m: int|
        has_backup(chains, i, m) ==> #[trigger] made_at(chains, i, m) <= made_at(chains, k, j)
    &&& forall|i: int, m: int|
        has_backup(chains, i, m) && (i < k || (i == k && m > j)) ==> #[trigger] made_at(
            chains,
            i,
            m,
        ) < made_at(chains, k, j)
}

/// Whether this is the latest backup across all chains, if there is any.
pub open spec fn latest_is(
    chains: Seq<ChainModel>,
    latest: Option<(String, BackupMetadata)>,
) -> bool {
    match latest {
        None => chains.len() == 0,
        Some(backup) => exists|k: int, j: int| #[trigger]
            is_latest(chains, k, j) && backup.0@ == backup_at(chains[k], j).0 && backup.1
                == backup_at(chains[k], j).1,
    }
}

fn metadata_at(chain: &BackupChain, j: usize) -> (r: &BackupMetadata)
    requires
        j <= chain.incrementals@.len(),
    ensures
        *r == backup_at(chain@, j as int).1,
{
    if j == 0 {
        &chain.full
    } else {
        &chain.incrementals[j - 1].1
    }
}

/// Whether a backup was looked at, where chains are gone through in order, and each of them from
/// its last backup on, and backup `j` of chain `k` was the last to be looked at.
spec fn is_seen(chains: Seq<ChainModel>, k: int, j: int, i: int, m: int) -> bool {
    has_backup(chains, i, m) && (i < k || (i == k && m >= j))
}

/// Whether a backup is the latest one of those that were looked at.
spec fn is_latest_seen(chains: Seq<ChainModel>, k: int, j: int, at: int, n: int) -> bool {
    &&& is_seen(chains, k, j, at, n)
    &&& forall|i: int, m: int|
        is_seen(chains, k, j, i, m) ==> #[trigger] made_at(chains, i, m) <= made_at(chains, at, n)
    &&& forall|i: int, m: int|
        is_seen(chains, k, j, i, m) && (i < at || (i == at && m > n)) ==> #[trigger] made_at(
            chains,
            i,
            m,
        ) < made_at(chains, at, n)
}

/// The latest backup of all chains (could be full or incremental).
pub fn latest_across(chains: &[BackupChain]) -> (r: Option<(String, BackupMetadata)>)
    ensures
        latest_is(models(chains@), r),
{
    if chains.len() == 0 {
        return None;
    }
    let ghost all = models(chains@);
    let mut at: usize = 0;
    let mut n: usize = chains[0].incrementals.len();
    let mut k: usize = 0;
    assert(all[0] == chains@[0]@);
    while k < chains.len()
        invariant
            k <= chains@.len(),
            at < chains@.len(),
            all == models(chains@),
            k == 0 ==> at == 0 && n == all[0].incrementals.len(),
            has_backup(all, at as int, n as int),
            k > 0 ==> is_latest_seen(all, k - 1, 0, at as int, n as int),
        decreases chains@.len() - k,
    {
        let chain = &chains[k];
        assert(all[k as int] == chain@);
        let mut j: usize = chain.incrementals.len();
        if !metadata_at(chain, j).timestamp.is_at_most(&metadata_at(&chains[at], n).timestamp) {
            at = k;
            n = j;
        }
        assert(is_latest_seen(all, k as int, j as int, at as int, n as int));
        while j > 0
            invariant
                k < chains@.len(),
                at < chains@.len(),
                j <= chain.incrementals@.len(),
                all == models(chains@),
                *chain == chains@[k as int],
                all[k as int] == chain@,
                is_latest_seen(all, k as int, j as int, at as int, n as int),
            decreases j,
        {
            j = j - 1;
            assert(all[at as int] == chains@[at as int]@);
            let newer: bool = !metadata_at(chain, j).timestamp.is_at_most(
                &metadata_at(&chains[at], n).timestamp,
            );
            assert(newer == (made_at(all, k as int, j as int) > made_at(
                all,
                at as int,
                n as int,
            )));
            if newer {
                at = k;
                n = j;
            }
            assert(forall|i: int, m: int|
                is_seen(all, k as int, j as int, i, m) ==> is_seen(all, k as int, j + 1, i, m) || (i
                    == k && m == j));
        }
        k = k + 1;
    }
    proof {
        assert(is_latest(all, at as int, n as int));
        assert(all[at as int] == chains@[at as int]@);
    }
    let chain = &chains[at];
    if n == 0 {
        Some((chain.full_path.clone(), chain.full.clone()))
    } else {
        let entry = &chain.incrementals[n - 1];
        Some((entry.0.clone(), entry.1.clone()))
    }
}

/// Finds the latest backup across all chains (could be full or incremental).
pub fn latest_backup(
    fulls: Result<Vec<BackupRead>, ClickVaultError>,
    incrementals: Result<Vec<BackupRead>, ClickVaultError>,
) -> (r: Result<Option<(String, BackupMetadata)>, ClickVaultError>)
    ensures
        match (listing_error(fulls, false), listing_error(incrementals, false)) {
            (Some(e), _) => r == Err::<Option<(String, BackupMetadata)>, ClickVaultError>(e),
            (None, Some(e)) => r == Err::<Option<(String, BackupMetadata)>, ClickVaultError>(e),
            (None, None) => r matches Ok(latest) && latest_is(
                grouped(listed(fulls->Ok_0@), listed(incrementals->Ok_0@)),
                latest,
            ),
        },
{
    match discover_chains(fulls, incrementals) {
        Err(e) => Err(e),
        Ok(chains) => Ok(latest_across(chains.as_slice())),
    }
}

/// Whether a full backup is due at `now`: there is none yet, or the latest one is at least
/// `interval_days` days old.
pub open spec fn full_is_due(
    latest_full: Option<BackupMetadata>,
    interval_days: nat,
    now: Timestamp,
) -> bool {
    match latest_full {
        None => true,
        Some(meta) => now.nanos_since(meta.timestamp) >= interval_days * 86_400_000_000_000,
    }
}

/// The metadata behind an optional reference.
pub open spec fn referenced(meta: Option<&BackupMetadata>) -> Option<BackupMetadata> {
    match meta {
        None => None,
        Some(meta) => Some(*meta),
    }
}

/// Whether a full backup is due at `now`.
pub fn full_backup_due(
    latest_full: Option<&BackupMetadata>,
    interval_days: u32,
    now: &Timestamp,
) -> (r: bool)
    ensures
        r == full_is_due(referenced(latest_full), interval_days as nat, *now),
{
    match latest_full {
        None => true,
        Some(meta) => now.is_days_after(&meta.timestamp, interval_days),
    }
}

/// Determines if a full backup should be performed now, based on the configured interval.
pub fn should_do_full_backup(latest_full: Option<&BackupMetadata>, interval_days: u32) -> (r: bool)
    ensures
        exists|now: Timestamp|
            now.valid() && r == #[trigger] full_is_due(
                referenced(latest_full),
                interval_days as nat,
                now,
            ),
        latest_full is None ==> r,
{
    let now = Timestamp::now();
    full_backup_due(latest_full, interval_days, &now)
}

/// Whether this backup was read: the path was listed, and its sidecar held the metadata.
pub open spec fn was_read(read: BackupRead, backup: (String, BackupMetadata)) -> bool {
    read.path == backup.0 && read.outcome == Ok::<BackupMetadata, MetadataReadError>(backup.1)
}

proof fn lemma_readable_counts(reads: Seq<BackupRead>, backup: (String, BackupMetadata))
    ensures
        readable(reads).to_multiset().count(backup) == reads.filter(
            |read: BackupRead| was_read(read, backup),
        ).len(),
    decreases reads.len(),
{
    broadcast use vstd::seq_lib::group_to_multiset_ensures;

    reveal(Seq::filter);
    if reads.len() > 0 {
        lemma_readable_counts(reads.drop_last(), backup);
    } else {
        assert(readable(reads).len() == 0);
    }
}

proof fn lemma_readable_len(reads: Seq<BackupRead>)
    ensures
        readable(reads).len() == reads.filter(|read: BackupRead| read.outcome is Ok).len(),
    decreases reads.len(),
{
    reveal(Seq::filter);
    if reads.len() > 0 {
        lemma_readable_len(reads.drop_last());
    }
}

/// Listing loses nothing and invents nothing: a backup is listed exactly as often as it was read,
/// whatever its metadata say, and nothing but whether the sidecar could be read decides.
pub proof fn law_listing_loses_nothing(
    reads: Seq<BackupRead>,
    backup: (String, BackupMetadata),
    k: int,
)
    ensures
        listed(reads).to_multiset().count(backup) == reads.filter(
            |read: BackupRead| was_read(read, backup),
        ).len(),
        listed(reads).len() == reads.filter(|read: BackupRead| read.outcome is Ok).len(),
        0 <= k < reads.len() && (reads[k].outcome matches Ok(meta) && backup == (
            reads[k].path,
            meta,
        )) ==> listed(reads).contains(backup),
        listed(reads).contains(backup) ==> exists|i: int|
            0 <= i < reads.len() && (#[trigger] reads[i]).path == backup.0
                && reads[i].outcome == Ok::<BackupMetadata, MetadataReadError>(backup.1),
{
    broadcast use vstd::seq_lib::group_to_multiset_ensures;

    crate::order::lemma_sorted(readable(reads));
    lemma_readable_counts(reads, backup);
    lemma_readable_len(reads);
    let p = |read: BackupRead| was_read(read, backup);
    if 0 <= k < reads.len() && was_read(reads[k], backup) {
        reads.lemma_filter_contains(p, k);
        assert(listed(reads).to_multiset().count(backup) > 0);
    }
    if listed(reads).contains(backup) {
        assert(reads.filter(p).len() > 0);
        let e = reads.filter(p)[0];
        reads.lemma_filter_pred(p, 0);
        assert(reads.filter(p).contains(e));
        reads.lemma_filter_contains_rev(p, e);
        let i = choose|i: int| 0 <= i < reads.len() && reads[i] == e;
        assert(reads[i].path == backup.0);
    }
}

/// After a discovery that succeeds, every full backup whose sidecar was read starts a chain, with
/// that path and those metadata, and there are no more chains than such backups.
pub proof fn law_every_read_full_backup_starts_a_chain(
    fulls: Vec<BackupRead>,
    incrementals: Vec<BackupRead>,
    strict: bool,
    chains: Vec<BackupChain>,
    k: int,
)
    requires
        discovery_is(Ok(fulls), Ok(incrementals), strict, Ok(chains)),
        0 <= k < fulls@.len(),
    ensures
        fulls@[k].outcome matches Ok(meta) ==> exists|i: int|
            0 <= i < chains@.len() && (#[trigger] chains@[i]).full_path@ == fulls@[k].path@
                && chains@[i].full == meta,
        chains@.len() == fulls@.filter(|read: BackupRead| read.outcome is Ok).len(),
{
    let f = listed(fulls@);
    let i = listed(incrementals@);
    law_every_full_starts_one_chain(f, i);
    let g = grouped(f, i);
    assert(models(chains@) == g);
    assert(chains@.len() == g.len());
    match fulls@[k].outcome {
        Ok(meta) => {
            let b = (fulls@[k].path, meta);
            law_listing_loses_nothing(fulls@, b, k);
            let n = choose|n: int| 0 <= n < f.len() && f[n] == b;
            assert(f[n].0@ == b.0@);
            let x = choose|x: int|
                0 <= x < g.len() && (#[trigger] g[x]).full_path == f[n].0@ && g[x].full == f[n].1;
            assert(g[x] == chains@[x]@);
            assert(chains@[x].full_path@ == fulls@[k].path@);
        },
        Err(_) => {
            law_listing_loses_nothing(fulls@, arbitrary(), k);
        },
    }
}

/// An incremental in a chain was read too, with its own metadata.
pub proof fn law_chained_incrementals_were_read(
    fulls: Vec<BackupRead>,
    incrementals: Vec<BackupRead>,
    strict: bool,
    chains: Vec<BackupChain>,
    i: int,
    j: int,
)
    requires
        discovery_is(Ok(fulls), Ok(incrementals), strict, Ok(chains)),
        0 <= i < chains@.len(),
        0 <= j < chains@[i].incrementals@.len(),
    ensures
        exists|k: int|
            0 <= k < incrementals@.len() && (#[trigger] incrementals@[k]).path
                == chains@[i].incrementals@[j].0 && incrementals@[k].outcome == Ok::<
                BackupMetadata,
                MetadataReadError,
            >(chains@[i].incrementals@[j].1),
{
    let f = listed(fulls@);
    let l = listed(incrementals@);
    let e = chains@[i].incrementals@[j];
    assert(models(chains@)[i] == chains@[i]@);
    law_incrementals_stand_oldest_first(f, l, i);
    assert(l.contains(grouped(f, l)[i].incrementals[j]));
    law_listing_loses_nothing(incrementals@, e, 0);
}

/// A listing that has to be complete fails exactly where a sidecar exists that cannot be had, and
/// names the first such backup; one that need not be complete never fails for that reason.
pub proof fn law_only_strict_listings_mind_unreadable_sidecars(reads: Vec<BackupRead>, k: int)
    ensures
        listing_error(Ok(reads), false) is None,
        0 <= k < reads@.len() && (reads@[k].outcome matches Err(e) && !(e is Missing)) && (forall|
            i: int,
        |
            0 <= i < k ==> ((#[trigger] reads@[i]).outcome is Ok || reads@[i].outcome->Err_0
                is Missing)) ==> listing_error(Ok(reads), true) == Some(
            ClickVaultError::MetadataUnavailable {
                path: reads@[k].path,
                source: reads@[k].outcome->Err_0,
            },
        ),
        (forall|i: int|
            0 <= i < reads@.len() ==> ((#[trigger] reads@[i]).outcome is Ok
                || reads@[i].outcome->Err_0 is Missing)) ==> listing_error(Ok(reads), true) is None,
{
    lemma_first_unavailable(reads@);
    lemma_unavailable_is_first(reads@);
    let at = first_unavailable(reads@) as int;
    if at < reads@.len() {
        assert(is_unavailable(reads@[at]));
    }
    if 0 <= k < reads@.len() && k < at {
        assert(!is_unavailable(reads@[k]));
    }
}

proof fn lemma_unavailable_is_first(reads: Seq<BackupRead>)
    ensures
        first_unavailable(reads) < reads.len() ==> is_unavailable(
            reads[first_unavailable(reads) as int],
        ),
    decreases reads.len(),
{
    if reads.len() > 0 && !is_unavailable(reads[0]) {
        lemma_unavailable_is_first(reads.skip(1));
    }
}

/// A full backup is due exactly where there is none yet, or where as many seconds as the interval
/// has passed since the latest one.
pub proof fn law_full_backups_are_due_after_the_interval(
    meta: BackupMetadata,
    interval_days: nat,
    now: Timestamp,
)
    ensures
        full_is_due(None, interval_days, now),
        full_is_due(Some(meta), interval_days, now) <==> now.nanos_since(meta.timestamp) >= 0
            && crate::time::whole_seconds(now.nanos_since(meta.timestamp)) >= interval_days
            * 86_400,
{
}

/// Slashes at the end of a path do not count, and everything else does.
pub proof fn law_only_slashes_at_the_end_do_not_count(a: Seq<char>, b: Seq<char>)
    ensures
        same_path(a.push('/'), a),
        !has_suffix_char(a, '/') && !has_suffix_char(b, '/') ==> (same_path(a, b) <==> a == b),
        same_path(a, b) ==> same_path(b, a),
{
    assert(a.push('/').drop_last() =~= a);
}

/// The latest backup is one of the chains' backups, and none of them is newer.
pub proof fn law_no_backup_is_newer_than_the_latest(
    chains: Seq<ChainModel>,
    backup: (String, BackupMetadata),
    k: int,
)
    requires
        latest_is(chains, Some(backup)),
        0 <= k < chains.len(),
    ensures
        chains[k].full.timestamp.instant() <= backup.1.timestamp.instant(),
        forall|j: int|
            0 <= j < chains[k].incrementals.len() ==> (
            #[trigger] chains[k].incrementals[j]).1.timestamp.instant()
                <= backup.1.timestamp.instant(),
        exists|c: int|
            0 <= c < chains.len() && ((#[trigger] chains[c]).full == backup.1
                && chains[c].full_path == backup.0@ || exists|j: int|
                0 <= j < chains[c].incrementals.len() && (
                #[trigger] chains[c].incrementals[j]).1 == backup.1
                    && chains[c].incrementals[j].0@ == backup.0@),
{
    let (c, j) = choose|c: int, j: int| #[trigger]
        is_latest(chains, c, j) && backup.0@ == backup_at(chains[c], j).0 && backup.1 == backup_at(
            chains[c],
            j,
        ).1;
    assert(made_at(chains, k, 0) <= made_at(chains, c, j));
    assert forall|m: int| 0 <= m < chains[k].incrementals.len() implies (
    #[trigger] chains[k].incrementals[m]).1.timestamp.instant() <= backup.1.timestamp.instant() by {
        assert(has_backup(chains, k, m + 1));
        assert(made_at(chains, k, m + 1) <= made_at(chains, c, j));
    }
    if j > 0 {
        assert(chains[c].incrementals[j - 1].1 == backup.1);
    } else {
        assert(chains[c].full == backup.1);
    }
}

/// The latest backup of a chain is its last incremental, or its full backup where it has none.
pub proof fn law_chains_end_in_their_last_incremental(
    chain: ChainModel,
    backup: (String, BackupMetadata),
)
    ensures
        extended(chain, backup).latest_path() == backup.0@,
        extended(chain, backup).latest() == backup.1,
        extended(chain, backup).full_path == chain.full_path,
        extended(chain, backup).full == chain.full,
        chain.incrementals.len() == 0 ==> chain.latest_path() == chain.full_path && chain.latest()
            == chain.full,
{
}

proof fn lemma_full_named(chains: Seq<ChainModel>, base: Seq<char>, k: int)
    requires
        0 <= k < chains.len(),
        same_path(chains[k].full_path, base),
    ensures
        full_named(chains, base) is Some,
        same_path(full_named(chains, base)->0, base),
    decreases chains.len(),
{
    if !same_path(chains[0].full_path, base) {
        assert(chains.skip(1)[k - 1] == chains[k]);
        lemma_full_named(chains.skip(1), base, k - 1);
    }
}

/// After a discovery that succeeds, an incremental backup whose sidecar was read stands in the
/// chain of the full backup that it is based on, if that one's sidecar was read too; slashes at
/// the end of the path do not count.
pub proof fn law_every_read_incremental_joins_its_full_backup(
    fulls: Vec<BackupRead>,
    incrementals: Vec<BackupRead>,
    strict: bool,
    chains: Vec<BackupChain>,
    k: int,
    n: int,
)
    requires
        discovery_is(Ok(fulls), Ok(incrementals), strict, Ok(chains)),
        0 <= k < fulls@.len(),
        0 <= n < incrementals@.len(),
        fulls@[k].outcome is Ok,
        incrementals@[n].outcome is Ok,
        incrementals@[n].outcome->Ok_0.base_backup_path is Some,
        same_path(fulls@[k].path@, incrementals@[n].outcome->Ok_0.base_backup_path->0@),
    ensures
        exists|i: int|
            0 <= i < chains@.len() && same_path(
                (#[trigger] chains@[i]).full_path@,
                fulls@[k].path@,
            ) && chains@[i].incrementals@.contains(
                (incrementals@[n].path, incrementals@[n].outcome->Ok_0),
            ),
{
    let f = listed(fulls@);
    let l = listed(incrementals@);
    let full = (fulls@[k].path, fulls@[k].outcome->Ok_0);
    let new = (incrementals@[n].path, incrementals@[n].outcome->Ok_0);
    let base = new.1.base()->0;
    law_listing_loses_nothing(fulls@, full, k);
    law_listing_loses_nothing(incrementals@, new, n);
    let a = choose|a: int| 0 <= a < f.len() && f[a] == full;
    let b = choose|b: int| 0 <= b < l.len() && l[b] == new;
    assert(bare_chains(f)[a].full_path == full.0@);
    lemma_full_named(bare_chains(f), base, a);
    law_direct_incrementals_join(f, l, b);
    let g = grouped(f, l);
    let i = choose|i: int|
        0 <= i < g.len() && (#[trigger] g[i]).full_path == full_named(bare_chains(f), base)->0
            && g[i].incrementals.contains(l[b]);
    assert(models(chains@) == g);
    assert(models(chains@)[i] == chains@[i]@);
    assert(same_path(chains@[i].full_path@, fulls@[k].path@));
}

/// Discovery fails exactly where one of the two listings failed or, where it has to be complete,
/// where one of them holds a backup whose sidecar exists but cannot be had. A listing that failed
/// is reported with its own error, the full backups first.
pub proof fn law_discovery_fails_only_with_its_listings(
    fulls: Result<Vec<BackupRead>, ClickVaultError>,
    incrementals: Result<Vec<BackupRead>, ClickVaultError>,
    strict: bool,
    r: Result<Vec<BackupChain>, ClickVaultError>,
)
    requires
        discovery_is(fulls, incrementals, strict, r),
    ensures
        fulls matches Err(e) ==> r == Err::<Vec<BackupChain>, ClickVaultError>(e),
        fulls is Ok && !strict ==> (incrementals matches Err(e) ==> r == Err::<
            Vec<BackupChain>,
            ClickVaultError,
        >(e)),
        fulls is Ok && incrementals is Ok && !strict ==> r is Ok,
        fulls is Ok && incrementals is Ok && strict ==> (r is Ok <==> (forall|i: int|
            0 <= i < fulls->Ok_0@.len() ==> ((#[trigger] fulls->Ok_0@[i]).outcome is Ok
                || fulls->Ok_0@[i].outcome->Err_0 is Missing)) && (forall|i: int|
            0 <= i < incrementals->Ok_0@.len() ==> ((#[trigger] incrementals->Ok_0@[i]).outcome
                is Ok || incrementals->Ok_0@[i].outcome->Err_0 is Missing))),
        r is Ok ==> fulls is Ok && incrementals is Ok,
{
    if fulls is Ok && incrementals is Ok {
        let f = fulls->Ok_0;
        let l = incrementals->Ok_0;
        lemma_first_unavailable(f@);
        lemma_unavailable_is_first(f@);
        lemma_first_unavailable(l@);
        lemma_unavailable_is_first(l@);
        law_only_strict_listings_mind_unreadable_sidecars(f, 0);
        law_only_strict_listings_mind_unreadable_sidecars(l, 0);
        let a = first_unavailable(f@) as int;
        let b = first_unavailable(l@) as int;
        if a < f@.len() {
            assert(is_unavailable(f@[a]));
        }
        if b < l@.len() {
            assert(is_unavailable(l@[b]));
        }
    }
}

/// A listing of one kind of backups hands on what was read, oldest first.
pub proof fn law_listings_stand_oldest_first(
    reads: Vec<BackupRead>,
    strict: bool,
    backups: Vec<(String, BackupMetadata)>,
    i: int,
    j: int,
)
    requires
        listing_is(Ok(reads), strict, Ok(backups)),
        0 <= i < j < backups@.len(),
    ensures
        backups@[i].1.timestamp.instant() <= backups@[j].1.timestamp.instant(),
        backups@ == listed(reads@),
{
    crate::order::lemma_sorted(readable(reads@));
    assert(backups@[i].ranks_before(backups@[j]));
}

} // verus!
