//! Laws on how chains grow: what a run records is what the next discovery finds.
use vstd::prelude::*;

use super::chain_laws::{
    distinct_fulls, distinct_paths, has_base_in_chain, is_sound,
    law_incrementals_stand_oldest_first, lemma_all_attached_holds_in_order,
    lemma_all_attached_is_sound, lemma_all_attached_keeps_fulls, lemma_chain_position,
    lemma_full_named, lemma_grouped_chain, lemma_link_origin, lemma_link_place,
    lemma_links_lead_back, lemma_permuted_paths_are_distinct, lemma_trace_reaches, names_one_of,
};
use super::discovery::{
    Link, Walk, all_attached, attached, backup_at, bare_chains, chain_links, chain_of,
    chain_position, extended, full_named, grouped, has_backup, is_latest, links, made_at,
    same_path, trace, walk,
};
use super::{BackupMetadata, ChainModel};
use crate::order::{
    Ranked, is_ordered, lemma_rank_position, lemma_same_values, lemma_sorted, lemma_sorted_map,
    rank_position, sorted,
};

verus! {

/// The path that names a full backup names no other.
proof fn lemma_full_named_is(chains: Seq<ChainModel>, k: int, base: Seq<char>)
    requires
        forall|x: int, y: int|
            0 <= x < y < chains.len() ==> !same_path(
                (#[trigger] chains[x]).full_path,
                (#[trigger] chains[y]).full_path,
            ),
        0 <= k < chains.len(),
        same_path(chains[k].full_path, base),
    ensures
        full_named(chains, base) == Some(chains[k].full_path),
    decreases chains.len(),
{
    if k > 0 {
        assert(!same_path(chains[0].full_path, chains[k].full_path));
        let rest = chains.skip(1);
        assert forall|x: int, y: int| 0 <= x < y < rest.len() implies !same_path(
            (#[trigger] rest[x]).full_path,
            (#[trigger] rest[y]).full_path,
        ) by {
            assert(!same_path(chains[x + 1].full_path, chains[y + 1].full_path));
        }
        lemma_full_named_is(rest, k - 1, base);
    }
}

proof fn lemma_full_named_by_none(chains: Seq<ChainModel>, base: Seq<char>)
    requires
        forall|i: int|
            0 <= i < chains.len() ==> !same_path((#[trigger] chains[i]).full_path, base),
    ensures
        full_named(chains, base) is None,
    decreases chains.len(),
{
    if chains.len() > 0 {
        assert forall|i: int| 0 <= i < chains.skip(1).len() implies !same_path(
            (#[trigger] chains.skip(1)[i]).full_path,
            base,
        ) by {
            assert(chains.skip(1)[i] == chains[i + 1]);
        }
        lemma_full_named_by_none(chains.skip(1), base);
    }
}

/// A backup belongs to the chain that its base stands in.
pub(crate) proof fn lemma_base_names_chain(
    chains: Seq<ChainModel>,
    k: int,
    backup: (String, BackupMetadata),
)
    requires
        is_sound(chains),
        stand_apart(chains),
        0 <= k < chains.len(),
        has_base_in_chain(chains[k], backup, chains[k].incrementals.len() as int),
    ensures
        chain_of(chains, backup.1) == Some(chains[k].full_path),
        chain_position(chains, chains[k].full_path) == k,
{
    let base = backup.1.base()->0;
    if same_path(chains[k].full_path, base) {
        lemma_full_named_is(chains, k, base);
    } else {
        let j = choose|j: int|
            0 <= j < chains[k].incrementals.len() && same_path(
                (#[trigger] chains[k].incrementals[j]).0@,
                base,
            );
        assert forall|i: int| 0 <= i < chains.len() implies !same_path(
            (#[trigger] chains[i]).full_path,
            base,
        ) by {
            assert(!same_path(chains[i].full_path, chains[k].incrementals[j].0@));
        }
        lemma_full_named_by_none(chains, base);
        lemma_links_lead_back(chains);
        let s = links(chains);
        let at = lemma_link_place(chains, k, j);
        lemma_trace_reaches(s, base, at, s.len() + 1);
    }
    lemma_chain_position(chains, chains[k].full_path);
    let at = chain_position(chains, chains[k].full_path) as int;
    if at < k {
        assert(chains[at].full_path != chains[k].full_path);
    }
    if k < at {
        assert(chains[k].full_path != chains[k].full_path);
    }
}

/// Whether no path names two full backups, or both a full and an incremental backup.
pub(crate) open spec fn stand_apart(chains: Seq<ChainModel>) -> bool {
    &&& forall|x: int, y: int|
        0 <= x < y < chains.len() ==> !same_path(
            (#[trigger] chains[x]).full_path,
            (#[trigger] chains[y]).full_path,
        )
    &&& forall|i: int, k: int, j: int|
        0 <= i < chains.len() && 0 <= k < chains.len() && 0 <= j < chains[k].incrementals.len()
            ==> !same_path((#[trigger] chains[i]).full_path, (#[trigger] chains[k].incrementals[j]).0@)
}

/// Whether all backups have distinct paths.
pub open spec fn all_paths_are_distinct(
    fulls: Seq<(String, BackupMetadata)>,
    incrementals: Seq<(String, BackupMetadata)>,
) -> bool {
    &&& distinct_paths(fulls)
    &&& distinct_paths(incrementals)
    &&& forall|i: int|
        0 <= i < incrementals.len() ==> !names_one_of((#[trigger] incrementals[i]).0@, fulls)
}

/// Where all backups have distinct paths, so have the backups in the chains.
pub(crate) proof fn lemma_chains_stand_apart(
    fulls: Seq<(String, BackupMetadata)>,
    backups: Seq<(String, BackupMetadata)>,
)
    requires
        all_paths_are_distinct(fulls, backups),
        is_ordered(backups),
    ensures
        is_sound(all_attached(bare_chains(fulls), backups)),
        stand_apart(all_attached(bare_chains(fulls), backups)),
{
    let bare = bare_chains(fulls);
    let all = all_attached(bare, backups);
    assert forall|x: int, y: int| 0 <= x < y < bare.len() implies (#[trigger] bare[x]).full_path != (
    #[trigger] bare[y]).full_path by {
        assert(!same_path(fulls[x].0@, fulls[y].0@));
    }
    lemma_all_attached_is_sound(bare, backups);
    lemma_all_attached_keeps_fulls(bare, backups);
    lemma_all_attached_holds_in_order(bare, backups);
    assert forall|x: int, y: int| 0 <= x < y < all.len() implies !same_path(
        (#[trigger] all[x]).full_path,
        (#[trigger] all[y]).full_path,
    ) by {
        assert(all[x].full_path == bare[x].full_path && all[y].full_path == bare[y].full_path);
        assert(!same_path(fulls[x].0@, fulls[y].0@));
    }
    assert forall|i: int, k: int, j: int|
        0 <= i < all.len() && 0 <= k < all.len() && 0 <= j < all[k].incrementals.len()
            implies !same_path(
        (#[trigger] all[i]).full_path,
        (#[trigger] all[k].incrementals[j]).0@,
    ) by {
        let e = all[k].incrementals[j];
        assert(backups.contains(e));
        let m = choose|m: int| 0 <= m < backups.len() && backups[m] == e;
        assert(all[i].full_path == bare[i].full_path);
        assert(!names_one_of(backups[m].0@, fulls));
        assert(!same_path(fulls[i].0@, e.0@));
    }
}

/// What is newer than everything stands at the end of a sorted sequence.
proof fn lemma_sorted_with_last<T: Ranked>(s: Seq<T>, x: T)
    requires
        forall|i: int| 0 <= i < s.len() ==> (#[trigger] s[i]).ranks_before(x),
    ensures
        sorted(s.push(x)) == sorted(s).push(x),
{
    lemma_sorted(s);
    let before = sorted(s);
    lemma_rank_position(before, x);
    let at = rank_position(before, x) as int;
    if at < before.len() {
        assert(before.contains(before[at]));
        lemma_same_values(before, s, before[at]);
        let i = choose|i: int| 0 <= i < s.len() && s[i] == before[at];
        assert(s[i].ranks_before(x));
    }
    assert(s.push(x).drop_last() =~= s);
    assert(before.insert(at, x) =~= before.push(x));
}

/// All backups have distinct paths, in whatever order the incrementals stand.
pub(crate) proof fn lemma_permuted_apart(
    fulls: Seq<(String, BackupMetadata)>,
    a: Seq<(String, BackupMetadata)>,
    b: Seq<(String, BackupMetadata)>,
)
    requires
        all_paths_are_distinct(fulls, a),
        a.to_multiset() == b.to_multiset(),
    ensures
        all_paths_are_distinct(fulls, b),
{
    lemma_permuted_paths_are_distinct(a, b);
    assert forall|i: int| 0 <= i < b.len() implies !names_one_of((#[trigger] b[i]).0@, fulls) by {
        assert(b.contains(b[i]));
        lemma_same_values(b, a, b[i]);
        let m = choose|m: int| 0 <= m < a.len() && a[m] == b[i];
        assert(!names_one_of(a[m].0@, fulls));
    }
}

/// A recorded incremental backup extends the newest chain: where it is based on the latest backup
/// of that chain, as every run plans it, and is not older than the other incrementals, discovery
/// finds it at the end of that chain, and finds everything else as before.
pub proof fn law_new_incrementals_extend_the_newest_chain(
    fulls: Seq<(String, BackupMetadata)>,
    incrementals: Seq<(String, BackupMetadata)>,
    new: (String, BackupMetadata),
)
    requires
        all_paths_are_distinct(fulls, incrementals),
        forall|i: int| 0 <= i < incrementals.len() ==> (#[trigger] incrementals[i]).ranks_before(new),
        grouped(fulls, incrementals).len() > 0,
        new.1.base() == Some(grouped(fulls, incrementals)[0].latest_path()),
    ensures
        grouped(fulls, incrementals.push(new)) == grouped(fulls, incrementals).update(
            0,
            extended(grouped(fulls, incrementals)[0], new),
        ),
        grouped(fulls, incrementals.push(new))[0].latest_path() == new.0@,
{
    let chains = grouped(fulls, incrementals);
    let bare = bare_chains(fulls);
    let ordered = sorted(incrementals);
    let all = all_attached(bare, ordered);
    lemma_sorted(incrementals);
    lemma_sorted_with_last(incrementals, new);
    lemma_permuted_apart(fulls, incrementals, sorted(incrementals));
    lemma_chains_stand_apart(fulls, ordered);
    assert(ordered.push(new).drop_last() =~= ordered);
    assert(all_attached(bare, sorted(incrementals.push(new))) == attached(all, new));

    let k = lemma_grouped_chain(fulls, incrementals, 0);
    let count = all[k].incrementals.len() as int;
    assert(has_base_in_chain(all[k], new, count)) by {
        if count > 0 {
            assert(same_path(all[k].incrementals[count - 1].0@, new.1.base()->0));
        }
    }
    lemma_base_names_chain(all, k, new);
    let full_path = all[k].full_path;
    let grow = |c: ChainModel|
        if c.full_path == full_path {
            extended(c, new)
        } else {
            c
        };
    assert(attached(all, new) =~= all.map_values(grow)) by {
        assert forall|i: int| 0 <= i < all.len() implies attached(all, new)[i] == grow(all[i]) by {
            if i < k {
                assert(all[i].full_path != all[k].full_path);
            } else if k < i {
                assert(all[k].full_path != all[i].full_path);
            }
        }
    }
    lemma_sorted_map(all, grow);
    lemma_sorted(all);
    let after = grouped(fulls, incrementals.push(new));
    assert(after == chains.map_values(grow));
    assert forall|i: int| 0 <= i < chains.len() implies chains.map_values(grow)[i]
        == chains.update(0, extended(chains[0], new))[i] by {
        if i > 0 {
            lemma_other_chains(fulls, incrementals, i);
        }
    }
    assert(after =~= chains.update(0, extended(chains[0], new)));
    assert(after[0].incrementals.last() == new);
}

/// The chains behind the first have other full backups.
proof fn lemma_other_chains(
    fulls: Seq<(String, BackupMetadata)>,
    incrementals: Seq<(String, BackupMetadata)>,
    i: int,
)
    requires
        distinct_fulls(all_attached(bare_chains(fulls), sorted(incrementals))),
        0 < i < grouped(fulls, incrementals).len(),
    ensures
        grouped(fulls, incrementals)[i].full_path != grouped(fulls, incrementals)[0].full_path,
{
    broadcast use vstd::seq_lib::group_to_multiset_ensures;

    let all = all_attached(bare_chains(fulls), sorted(incrementals));
    let g = grouped(fulls, incrementals);
    let a = lemma_grouped_chain(fulls, incrementals, 0);
    let b = lemma_grouped_chain(fulls, incrementals, i);
    if all[a].full_path == all[b].full_path {
        assert(a == b) by {
            if a < b {
                assert(all[a].full_path != all[b].full_path);
            }
            if b < a {
                assert(all[b].full_path != all[a].full_path);
            }
        }
        assert(all.no_duplicates()) by {
            assert forall|x: int, y: int|
                0 <= x < all.len() && 0 <= y < all.len() && x != y implies all[x] != all[y] by {
                if x < y {
                    assert(all[x].full_path != all[y].full_path);
                } else {
                    assert(all[y].full_path != all[x].full_path);
                }
            }
        }
        lemma_sorted(all);
        all.lemma_multiset_has_no_duplicates();
        g.lemma_multiset_has_no_duplicates_conv();
    }
}

proof fn lemma_full_named_beside(chains: Seq<ChainModel>, c: ChainModel, base: Seq<char>)
    requires
        !same_path(c.full_path, base),
    ensures
        full_named(chains.push(c), base) == full_named(chains, base),
    decreases chains.len(),
{
    if chains.len() > 0 {
        assert(chains.push(c).skip(1) =~= chains.skip(1).push(c));
        lemma_full_named_beside(chains.skip(1), c, base);
    } else {
        assert(chains.push(c).skip(1) =~= Seq::<ChainModel>::empty());
        assert(full_named(chains.push(c).skip(1), base) is None);
    }
}

proof fn lemma_links_beside(chains: Seq<ChainModel>, c: ChainModel)
    requires
        c.incrementals.len() == 0,
    ensures
        links(chains.push(c)) == links(chains),
    decreases chains.len(),
{
    if chains.len() > 0 {
        assert(chains.push(c).skip(1) =~= chains.skip(1).push(c));
        lemma_links_beside(chains.skip(1), c);
    } else {
        assert(chains.push(c).skip(1) =~= Seq::<ChainModel>::empty());
        assert(links(chains.push(c).skip(1)) =~= Seq::<Link>::empty());
        assert(chain_links(chains.push(c)[0]) =~= Seq::<Link>::empty());
        assert(links(chains.push(c)) =~= Seq::<Link>::empty());
    }
}

/// A walk ends at a link, if it finds anything.
proof fn lemma_walk_finds_link(s: Seq<Link>, base: Seq<char>, moved: bool)
    ensures
        walk(s, base, moved) matches Walk::Found(full_path) ==> exists|k: int|
            0 <= k < s.len() && (#[trigger] s[k]).full_path == full_path,
    decreases s.len(),
{
    if s.len() > 0 {
        lemma_walk_finds_link(s.skip(1), base, moved);
        if s[0].base is Some {
            lemma_walk_finds_link(s.skip(1), s[0].base->0, true);
        }
        if walk(s, base, moved) is Found {
            let full_path = walk(s, base, moved)->Found_0;
            if s[0].full_path != full_path {
                let k = choose|k: int|
                    0 <= k < s.skip(1).len() && (#[trigger] s.skip(1)[k]).full_path == full_path;
                assert(s[k + 1].full_path == full_path);
            }
        }
    }
}

/// Tracing ends at a link, if it finds anything.
proof fn lemma_trace_finds_link(s: Seq<Link>, base: Seq<char>, passes: nat)
    ensures
        trace(s, base, passes) matches Some(full_path) ==> exists|k: int|
            0 <= k < s.len() && (#[trigger] s[k]).full_path == full_path,
    decreases passes,
{
    if passes > 0 {
        lemma_walk_finds_link(s, base, false);
        if walk(s, base, false) is At {
            lemma_trace_finds_link(s, walk(s, base, false)->base, (passes - 1) as nat);
        }
    }
}

/// The chain that a backup belongs to is one of the chains.
proof fn lemma_chain_of_is_there(chains: Seq<ChainModel>, meta: BackupMetadata)
    ensures
        chain_of(chains, meta) matches Some(full_path) ==> chain_position(chains, full_path)
            < chains.len(),
{
    if chain_of(chains, meta) is Some {
        let full_path = chain_of(chains, meta)->0;
        let base = meta.base()->0;
        lemma_chain_position(chains, full_path);
        lemma_full_named(chains, base);
        if full_named(chains, base) is None {
            lemma_trace_finds_link(links(chains), base, links(chains).len() + 1);
            let k = choose|k: int|
                0 <= k < links(chains).len() && (#[trigger] links(chains)[k]).full_path
                    == full_path;
            let (i, j) = lemma_link_origin(chains, k);
            assert(chains[i].full_path == full_path);
        }
        let i = choose|i: int|
            0 <= i < chains.len() && (#[trigger] chains[i]).full_path == full_path;
        if chain_position(chains, full_path) == chains.len() {
            assert(chains[i].full_path != full_path);
        }
    }
}

proof fn lemma_chain_position_beside(chains: Seq<ChainModel>, c: ChainModel, full_path: Seq<char>)
    requires
        chain_position(chains, full_path) < chains.len(),
    ensures
        chain_position(chains.push(c), full_path) == chain_position(chains, full_path),
    decreases chains.len(),
{
    if chains[0].full_path != full_path {
        assert(chains.push(c).skip(1) =~= chains.skip(1).push(c));
        lemma_chain_position_beside(chains.skip(1), c, full_path);
    }
}

/// Whether a backup is not based on the backup at this path.
pub open spec fn is_not_based_on(backup: (String, BackupMetadata), path: Seq<char>) -> bool {
    backup.1.base() matches Some(base) ==> !same_path(path, base)
}

/// A chain that nothing is based on stays as it is beside the others.
proof fn lemma_all_attached_beside(
    chains: Seq<ChainModel>,
    c: ChainModel,
    backups: Seq<(String, BackupMetadata)>,
)
    requires
        c.incrementals.len() == 0,
        forall|i: int|
            0 <= i < backups.len() ==> is_not_based_on(#[trigger] backups[i], c.full_path),
    ensures
        all_attached(chains.push(c), backups) == all_attached(chains, backups).push(c),
    decreases backups.len(),
{
    if backups.len() > 0 {
        let rest = backups.drop_last();
        let last = backups.last();
        assert forall|i: int| 0 <= i < rest.len() implies is_not_based_on(
            #[trigger] rest[i],
            c.full_path,
        ) by {
            assert(rest[i] == backups[i]);
        }
        lemma_all_attached_beside(chains, c, rest);
        let before = all_attached(chains, rest);
        assert(is_not_based_on(backups[backups.len() - 1], c.full_path));
        lemma_links_beside(before, c);
        if last.1.base() is Some {
            lemma_full_named_beside(before, c, last.1.base()->0);
        }
        assert(chain_of(before.push(c), last.1) == chain_of(before, last.1));
        lemma_chain_of_is_there(before, last.1);
        if chain_of(before, last.1) is Some {
            lemma_chain_position_beside(before, c, chain_of(before, last.1)->0);
        }
        assert(attached(before.push(c), last) =~= attached(before, last).push(c));
    }
}

/// A recorded full backup starts the newest chain: where it is newer than all other full backups
/// and nothing is based on it yet, discovery finds a chain of it alone in front of the chains that
/// it found before.
pub proof fn law_new_fulls_start_the_newest_chain(
    fulls: Seq<(String, BackupMetadata)>,
    incrementals: Seq<(String, BackupMetadata)>,
    new: (String, BackupMetadata),
)
    requires
        forall|i: int| 0 <= i < fulls.len() ==> !new.ranks_before(#[trigger] fulls[i]),
        forall|i: int|
            0 <= i < incrementals.len() ==> is_not_based_on(#[trigger] incrementals[i], new.0@),
    ensures
        grouped(fulls.push(new), incrementals) == seq![
            ChainModel { full_path: new.0@, full: new.1, incrementals: Seq::empty() },
        ] + grouped(fulls, incrementals),
{
    let bare = bare_chains(fulls);
    let c = ChainModel { full_path: new.0@, full: new.1, incrementals: Seq::empty() };
    let ordered = sorted(incrementals);
    lemma_sorted(incrementals);
    assert(bare_chains(fulls.push(new)) =~= bare.push(c));
    assert forall|i: int| 0 <= i < ordered.len() implies is_not_based_on(
        #[trigger] ordered[i],
        c.full_path,
    ) by {
        assert(ordered.contains(ordered[i]));
        lemma_same_values(ordered, incrementals, ordered[i]);
        let m = choose|m: int| 0 <= m < incrementals.len() && incrementals[m] == ordered[i];
        assert(is_not_based_on(incrementals[m], new.0@));
    }
    lemma_all_attached_beside(bare, c, ordered);
    let all = all_attached(bare, ordered);
    let before = sorted(all);
    lemma_sorted(all);
    lemma_rank_position(before, c);
    let at = rank_position(before, c) as int;
    if at > 0 {
        assert(before[0].ranks_before(c));
        assert(before.contains(before[0]));
        lemma_same_values(before, all, before[0]);
        let k = choose|k: int| 0 <= k < all.len() && all[k] == before[0];
        lemma_all_attached_keeps_fulls(bare, ordered);
        assert(all[k].full == fulls[k].1);
        assert(!new.ranks_before(fulls[k]));
    }
    assert(all.push(c).drop_last() =~= all);
    assert(before.insert(0, c) =~= seq![c] + before);
}

/// Whether a backup is newer than all of the others.
pub open spec fn is_newer_than_all(
    backup: (String, BackupMetadata),
    others: Seq<(String, BackupMetadata)>,
) -> bool {
    forall|i: int|
        0 <= i < others.len() ==> (#[trigger] others[i]).1.timestamp.instant()
            < backup.1.timestamp.instant()
}

/// Whatever is newer than all given backups is newer than all backups in their chains.
proof fn lemma_newer_than_grouped(
    fulls: Seq<(String, BackupMetadata)>,
    incrementals: Seq<(String, BackupMetadata)>,
    new: (String, BackupMetadata),
    i: int,
    m: int,
)
    requires
        is_newer_than_all(new, fulls),
        is_newer_than_all(new, incrementals),
        has_backup(grouped(fulls, incrementals), i, m),
    ensures
        made_at(grouped(fulls, incrementals), i, m) < new.1.timestamp.instant(),
{
    let g = grouped(fulls, incrementals);
    if m == 0 {
        let k = lemma_grouped_chain(fulls, incrementals, i);
        let all = all_attached(bare_chains(fulls), sorted(incrementals));
        lemma_all_attached_keeps_fulls(bare_chains(fulls), sorted(incrementals));
        assert(all[k].full == bare_chains(fulls)[k].full);
        assert(fulls[k].1.timestamp.instant() < new.1.timestamp.instant());
    } else {
        law_incrementals_stand_oldest_first(fulls, incrementals, i);
        let e = g[i].incrementals[m - 1];
        assert(incrementals.contains(e));
        let k = choose|k: int| 0 <= k < incrementals.len() && incrementals[k] == e;
        assert(incrementals[k].1.timestamp.instant() < new.1.timestamp.instant());
    }
}

/// A recorded incremental backup is the latest backup of all: where it is newer than all others
/// and based on the latest backup of the newest chain, the end of the newest chain is the latest
/// backup across all chains.
pub proof fn law_new_incrementals_are_the_latest_backup(
    fulls: Seq<(String, BackupMetadata)>,
    incrementals: Seq<(String, BackupMetadata)>,
    new: (String, BackupMetadata),
)
    requires
        all_paths_are_distinct(fulls, incrementals),
        is_newer_than_all(new, fulls),
        is_newer_than_all(new, incrementals),
        grouped(fulls, incrementals).len() > 0,
        new.1.base() == Some(grouped(fulls, incrementals)[0].latest_path()),
    ensures
        ({
            let chains = grouped(fulls, incrementals.push(new));
            let j = chains[0].incrementals.len() as int;
            is_latest(chains, 0, j) && backup_at(chains[0], j) == (new.0@, new.1)
        }),
{
    let before = grouped(fulls, incrementals);
    let chains = grouped(fulls, incrementals.push(new));
    law_new_incrementals_extend_the_newest_chain(fulls, incrementals, new);
    let j = chains[0].incrementals.len() as int;
    assert forall|i: int, m: int|
        has_backup(chains, i, m) && !(i == 0 && m == j) implies #[trigger] made_at(chains, i, m)
        < made_at(chains, 0, j) by {
        lemma_newer_than_grouped(fulls, incrementals, new, i, m);
        assert(backup_at(chains[i], m) == backup_at(before[i], m));
    }
}

/// A recorded full backup is the latest backup of all: where it is newer than all others and
/// nothing is based on it yet, it is the latest backup across all chains, and the newest chain
/// consists of it alone.
pub proof fn law_new_fulls_are_the_latest_backup(
    fulls: Seq<(String, BackupMetadata)>,
    incrementals: Seq<(String, BackupMetadata)>,
    new: (String, BackupMetadata),
)
    requires
        is_newer_than_all(new, fulls),
        is_newer_than_all(new, incrementals),
        forall|i: int|
            0 <= i < incrementals.len() ==> is_not_based_on(#[trigger] incrementals[i], new.0@),
    ensures
        ({
            let chains = grouped(fulls.push(new), incrementals);
            &&& is_latest(chains, 0, 0)
            &&& backup_at(chains[0], 0) == (new.0@, new.1)
            &&& chains[0].incrementals.len() == 0
        }),
{
    let before = grouped(fulls, incrementals);
    let chains = grouped(fulls.push(new), incrementals);
    law_new_fulls_start_the_newest_chain(fulls, incrementals, new);
    assert forall|i: int, m: int|
        has_backup(chains, i, m) && !(i == 0 && m == 0) implies #[trigger] made_at(chains, i, m)
        < made_at(chains, 0, 0) by {
        assert(chains[i] == before[i - 1]);
        lemma_newer_than_grouped(fulls, incrementals, new, i - 1, m);
    }
}

} // verus!
