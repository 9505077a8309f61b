//! Laws on which chain a backup stands in, and on what the chains depend on.
use vstd::prelude::*;

use super::chain_laws::{
    has_base_in_chain, is_sound, law_chains_stand_newest_first,
    law_incrementals_stand_oldest_first, law_incrementals_stand_once,
    lemma_all_attached_holds_in_order, lemma_all_attached_keeps_fulls, lemma_chain_of_holds_base,
    lemma_grouped_chain, lemma_permuted_paths_are_distinct, names_one_of,
};
use super::discovery::{
    all_attached, attached, bare_chains, chain_of, extended, grouped, same_path,
};
use super::growth_laws::{
    all_paths_are_distinct, lemma_base_names_chain, lemma_chains_stand_apart, lemma_permuted_apart,
    stand_apart,
};
use super::{BackupMetadata, ChainModel};
use crate::order::{
    Ranked, distinct_ranks, is_ordered, lemma_permuted_ranks_are_distinct, lemma_same_values,
    lemma_sorted, lemma_sorted_depends_on_values, lemma_sorted_keeps_images, same_rank, sorted,
};

verus! {

/// Whether the base of backup `k` of a route is the next backup of the route or, at the end of the
/// route, the full backup.
pub open spec fn goes_on(
    route: Seq<(String, BackupMetadata)>,
    k: int,
    full_path: Seq<char>,
) -> bool {
    route[k].1.base() matches Some(base) && same_path(
        if k + 1 < route.len() {
            route[k + 1].0@
        } else {
            full_path
        },
        base,
    )
}

/// Whether a route goes from base to base over the given incrementals, and ends at the full backup.
pub open spec fn is_route(
    incrementals: Seq<(String, BackupMetadata)>,
    route: Seq<(String, BackupMetadata)>,
    full_path: Seq<char>,
) -> bool {
    &&& route.len() > 0
    &&& forall|k: int|
        0 <= k < route.len() ==> incrementals.contains(#[trigger] route[k]) && goes_on(
            route,
            k,
            full_path,
        )
}

/// Whether the base links of a backup, followed over any number of the given incrementals, lead to
/// the full backup.
pub open spec fn leads_to(
    incrementals: Seq<(String, BackupMetadata)>,
    backup: (String, BackupMetadata),
    full_path: Seq<char>,
) -> bool {
    exists|route: Seq<(String, BackupMetadata)>| #[trigger]
        is_route(incrementals, route, full_path) && route[0] == backup
}

/// Whether every incremental is newer than the incremental that it is based on, if it is.
pub open spec fn bases_are_older(incrementals: Seq<(String, BackupMetadata)>) -> bool {
    forall|a: (String, BackupMetadata), b: (String, BackupMetadata)|
        #[trigger] incrementals.contains(a) && #[trigger] incrementals.contains(b) && (
        a.1.base() matches Some(base) && same_path(b.0@, base)) ==> b.1.timestamp.instant()
            < a.1.timestamp.instant()
}

/// A backup leads to a full backup exactly where its base is that backup, or is an incremental
/// that leads there.
proof fn lemma_leads_to(
    incrementals: Seq<(String, BackupMetadata)>,
    backup: (String, BackupMetadata),
    full_path: Seq<char>,
)
    requires
        incrementals.contains(backup),
    ensures
        leads_to(incrementals, backup, full_path) <==> (backup.1.base() matches Some(base) && (
        same_path(full_path, base) || exists|b: (String, BackupMetadata)|
            #[trigger] incrementals.contains(b) && same_path(b.0@, base) && leads_to(
                incrementals,
                b,
                full_path,
            ))),
{
    if leads_to(incrementals, backup, full_path) {
        let route = choose|route: Seq<(String, BackupMetadata)>| #[trigger]
            is_route(incrementals, route, full_path) && route[0] == backup;
        assert(goes_on(route, 0, full_path));
        if route.len() > 1 {
            let rest = route.skip(1);
            assert forall|k: int| 0 <= k < rest.len() implies incrementals.contains(
                #[trigger] rest[k],
            ) && goes_on(rest, k, full_path) by {
                assert(rest[k] == route[k + 1]);
                assert(goes_on(route, k + 1, full_path));
            }
            assert(is_route(incrementals, rest, full_path));
            assert(incrementals.contains(route[1]));
            assert(leads_to(incrementals, route[1], full_path));
        }
    }
    if backup.1.base() is Some {
        let base = backup.1.base()->0;
        if same_path(full_path, base) {
            let route = seq![backup];
            assert(is_route(incrementals, route, full_path));
        } else if exists|b: (String, BackupMetadata)|
            #[trigger] incrementals.contains(b) && same_path(b.0@, base) && leads_to(
                incrementals,
                b,
                full_path,
            ) {
            let b = choose|b: (String, BackupMetadata)|
                #[trigger] incrementals.contains(b) && same_path(b.0@, base) && leads_to(
                    incrementals,
                    b,
                    full_path,
                );
            let rest = choose|rest: Seq<(String, BackupMetadata)>| #[trigger]
                is_route(incrementals, rest, full_path) && rest[0] == b;
            let route = seq![backup] + rest;
            assert forall|k: int| 0 <= k < route.len() implies incrementals.contains(
                #[trigger] route[k],
            ) && goes_on(route, k, full_path) by {
                if k > 0 {
                    assert(route[k] == rest[k - 1]);
                    assert(goes_on(rest, k - 1, full_path));
                }
            }
            assert(is_route(incrementals, route, full_path));
        }
    }
}

/// Whether the chains hold those of the first `n` backups that lead to their full backups.
spec fn holds_what_leads_there(
    fulls: Seq<(String, BackupMetadata)>,
    backups: Seq<(String, BackupMetadata)>,
    n: int,
    chains: Seq<ChainModel>,
) -> bool {
    forall|k: int, j: int|
        0 <= k < chains.len() && 0 <= j < n ==> (#[trigger] chains[k].incrementals.contains(
            #[trigger] backups[j],
        ) <==> leads_to(backups, backups[j], fulls[k].0@))
}

/// The first backups of an ordered sequence with distinct paths are such a sequence.
proof fn lemma_first_stand_apart(
    fulls: Seq<(String, BackupMetadata)>,
    backups: Seq<(String, BackupMetadata)>,
    n: int,
)
    requires
        all_paths_are_distinct(fulls, backups),
        is_ordered(backups),
        0 <= n <= backups.len(),
    ensures
        all_paths_are_distinct(fulls, backups.take(n)),
        is_ordered(backups.take(n)),
{
    let first = backups.take(n);
    assert forall|i: int, j: int| 0 <= i < j < first.len() implies !same_path(
        (#[trigger] first[i]).0@,
        (#[trigger] first[j]).0@,
    ) && first[i].ranks_before(first[j]) by {
        assert(!same_path(backups[i].0@, backups[j].0@));
        assert(backups[i].ranks_before(backups[j]));
    }
    assert forall|i: int| 0 <= i < first.len() implies !names_one_of(
        (#[trigger] first[i]).0@,
        fulls,
    ) by {
        assert(!names_one_of(backups[i].0@, fulls));
    }
}

/// A backup is added to exactly the chain that its base stands in.
proof fn lemma_attached_where_base_stands(
    chains: Seq<ChainModel>,
    backup: (String, BackupMetadata),
    k: int,
)
    requires
        is_sound(chains),
        stand_apart(chains),
        0 <= k < chains.len(),
    ensures
        attached(chains, backup).len() == chains.len(),
        attached(chains, backup)[k] == if has_base_in_chain(
            chains[k],
            backup,
            chains[k].incrementals.len() as int,
        ) {
            extended(chains[k], backup)
        } else {
            chains[k]
        },
{
    if has_base_in_chain(chains[k], backup, chains[k].incrementals.len() as int) {
        lemma_base_names_chain(chains, k, backup);
    } else if chain_of(chains, backup.1) is Some {
        let at = lemma_chain_of_holds_base(chains, backup);
        assert(at != k);
    }
}

proof fn lemma_holds_what_leads_there(
    fulls: Seq<(String, BackupMetadata)>,
    backups: Seq<(String, BackupMetadata)>,
    n: int,
)
    requires
        all_paths_are_distinct(fulls, backups),
        is_ordered(backups),
        bases_are_older(backups),
        0 <= n <= backups.len(),
    ensures
        holds_what_leads_there(
            fulls,
            backups,
            n,
            all_attached(bare_chains(fulls), backups.take(n)),
        ),
    decreases n,
{
    let bare = bare_chains(fulls);
    if n > 0 {
        let rest = backups.take(n - 1);
        let b = backups[n - 1];
        let before = all_attached(bare, rest);
        let after = all_attached(bare, backups.take(n));
        assert(backups.take(n).drop_last() =~= rest);
        assert(after == attached(before, b));
        lemma_holds_what_leads_there(fulls, backups, n - 1);
        lemma_first_stand_apart(fulls, backups, n - 1);
        lemma_chains_stand_apart(fulls, rest);
        lemma_all_attached_keeps_fulls(bare, rest);
        lemma_all_attached_holds_in_order(bare, rest);
        assert(backups.contains(b));
        assert forall|k: int, j: int| 0 <= k < after.len() && 0 <= j < n implies (
        #[trigger] after[k].incrementals.contains(#[trigger] backups[j]) <==> leads_to(
            backups,
            backups[j],
            fulls[k].0@,
        )) by {
            lemma_attached_where_base_stands(before, b, k);
            let c = before[k].incrementals;
            let d = after[k].incrementals;
            assert(before[k].full_path == bare[k].full_path);
            if j < n - 1 {
                assert(!same_path(backups[j].0@, b.0@));
                assert(d.contains(backups[j]) <==> c.contains(backups[j])) by {
                    if c.contains(backups[j]) {
                        let x = choose|x: int| 0 <= x < c.len() && c[x] == backups[j];
                        assert(d[x] == backups[j]);
                    }
                    if d.contains(backups[j]) {
                        let x = choose|x: int| 0 <= x < d.len() && d[x] == backups[j];
                        assert(c[x] == backups[j]);
                    }
                }
                assert(before[k].incrementals.contains(backups[j]) <==> leads_to(
                    backups,
                    backups[j],
                    fulls[k].0@,
                ));
            } else {
                lemma_last_leads_there(fulls, backups, n, before, k);
                let stands = has_base_in_chain(before[k], b, c.len() as int);
                if stands {
                    assert(d[c.len() as int] == b);
                }
                if d.contains(b) && !stands {
                    let x = choose|x: int| 0 <= x < c.len() && c[x] == b;
                    assert(rest.contains(before[k].incrementals[x]));
                    let y = choose|y: int| 0 <= y < rest.len() && rest[y] == b;
                    assert(!same_path(backups[y].0@, backups[n - 1].0@));
                }
            }
        }
    }
}

/// The next backup leads to a full backup exactly where its base stands in that backup's chain.
proof fn lemma_last_leads_there(
    fulls: Seq<(String, BackupMetadata)>,
    backups: Seq<(String, BackupMetadata)>,
    n: int,
    chains: Seq<ChainModel>,
    k: int,
)
    requires
        is_ordered(backups),
        bases_are_older(backups),
        0 < n <= backups.len(),
        0 <= k < chains.len(),
        chains[k].full_path == fulls[k].0@,
        holds_what_leads_there(fulls, backups, n - 1, chains),
        forall|j: int|
            0 <= j < chains[k].incrementals.len() ==> backups.take(n - 1).contains(
                #[trigger] chains[k].incrementals[j],
            ),
    ensures
        has_base_in_chain(chains[k], backups[n - 1], chains[k].incrementals.len() as int)
            <==> leads_to(backups, backups[n - 1], fulls[k].0@),
{
    let b = backups[n - 1];
    let c = chains[k].incrementals;
    let rest = backups.take(n - 1);
    assert(backups.contains(b));
    lemma_leads_to(backups, b, fulls[k].0@);
    if b.1.base() is Some && !same_path(fulls[k].0@, b.1.base()->0) {
        let base = b.1.base()->0;
        if has_base_in_chain(chains[k], b, c.len() as int) {
            let x = choose|x: int| 0 <= x < c.len() && same_path((#[trigger] c[x]).0@, base);
            assert(rest.contains(chains[k].incrementals[x]));
            let j = choose|j: int| 0 <= j < rest.len() && rest[j] == c[x];
            assert(backups[j] == c[x]);
            assert(c.contains(backups[j]));
            assert(chains[k].incrementals.contains(backups[j]));
            assert(backups.contains(backups[j]));
        }
        if leads_to(backups, b, fulls[k].0@) {
            let e = choose|e: (String, BackupMetadata)|
                #[trigger] backups.contains(e) && same_path(e.0@, base) && leads_to(
                    backups,
                    e,
                    fulls[k].0@,
                );
            let j = choose|j: int| 0 <= j < backups.len() && backups[j] == e;
            assert(e.1.timestamp.instant() < b.1.timestamp.instant());
            assert(j < n - 1) by {
                if j > n - 1 {
                    assert(backups[n - 1].ranks_before(backups[j]));
                }
            }
            assert(chains[k].incrementals.contains(backups[j]));
            let x = choose|x: int| 0 <= x < c.len() && c[x] == e;
            assert(same_path(c[x].0@, base));
        }
    }
}

/// Where base links lead depends on which incrementals are given, and not on their order.
proof fn lemma_leads_to_permuted(
    a: Seq<(String, BackupMetadata)>,
    b: Seq<(String, BackupMetadata)>,
    backup: (String, BackupMetadata),
    full_path: Seq<char>,
)
    requires
        a.to_multiset() == b.to_multiset(),
        leads_to(a, backup, full_path),
    ensures
        leads_to(b, backup, full_path),
{
    let route = choose|route: Seq<(String, BackupMetadata)>| #[trigger]
        is_route(a, route, full_path) && route[0] == backup;
    assert forall|k: int| 0 <= k < route.len() implies b.contains(#[trigger] route[k]) && goes_on(
        route,
        k,
        full_path,
    ) by {
        lemma_same_values(a, b, route[k]);
    }
    assert(is_route(b, route, full_path));
}

/// An incremental stands in the chain of a full backup exactly where its base links lead to that
/// full backup, over any number of incrementals. One whose links end anywhere else stands in no
/// chain.
pub proof fn law_incrementals_stand_where_their_bases_lead(
    fulls: Seq<(String, BackupMetadata)>,
    incrementals: Seq<(String, BackupMetadata)>,
    i: int,
    backup: (String, BackupMetadata),
)
    requires
        all_paths_are_distinct(fulls, incrementals),
        bases_are_older(incrementals),
        0 <= i < grouped(fulls, incrementals).len(),
        incrementals.contains(backup),
    ensures
        grouped(fulls, incrementals)[i].incrementals.contains(backup) <==> leads_to(
            incrementals,
            backup,
            grouped(fulls, incrementals)[i].full_path,
        ),
{
    let ordered = sorted(incrementals);
    let bare = bare_chains(fulls);
    let n = ordered.len() as int;
    lemma_sorted(incrementals);
    lemma_permuted_apart(fulls, incrementals, ordered);
    assert forall|a: (String, BackupMetadata), b: (String, BackupMetadata)|
        #[trigger] ordered.contains(a) && #[trigger] ordered.contains(b) && (
        a.1.base() matches Some(base) && same_path(b.0@, base)) implies b.1.timestamp.instant()
        < a.1.timestamp.instant() by {
        lemma_same_values(ordered, incrementals, a);
        lemma_same_values(ordered, incrementals, b);
    }
    lemma_holds_what_leads_there(fulls, ordered, n);
    assert(ordered.take(n) =~= ordered);
    lemma_all_attached_keeps_fulls(bare, ordered);
    let all = all_attached(bare, ordered);
    let k = lemma_grouped_chain(fulls, incrementals, i);
    assert(all[k].full_path == bare[k].full_path);
    lemma_same_values(incrementals, ordered, backup);
    let j = choose|j: int| 0 <= j < ordered.len() && ordered[j] == backup;
    assert(all[k].incrementals.contains(ordered[j]) <==> leads_to(
        ordered,
        ordered[j],
        fulls[k].0@,
    ));
    if leads_to(ordered, backup, fulls[k].0@) {
        lemma_leads_to_permuted(ordered, incrementals, backup, fulls[k].0@);
    }
    if leads_to(incrementals, backup, fulls[k].0@) {
        lemma_leads_to_permuted(incrementals, ordered, backup, fulls[k].0@);
    }
}

/// Whether no two backups were made at the same time.
pub open spec fn distinct_timestamps(backups: Seq<(String, BackupMetadata)>) -> bool {
    forall|i: int, j: int|
        0 <= i < j < backups.len() ==> (#[trigger] backups[i]).1.timestamp.instant() != (
        #[trigger] backups[j]).1.timestamp.instant()
}

proof fn lemma_distinct_timestamps(backups: Seq<(String, BackupMetadata)>)
    requires
        distinct_timestamps(backups),
    ensures
        distinct_ranks(backups),
{
    assert forall|i: int, j: int| 0 <= i < j < backups.len() implies !same_rank(
        #[trigger] backups[i],
        #[trigger] backups[j],
    ) by {
        assert(backups[i].1.timestamp.instant() != backups[j].1.timestamp.instant());
    }
}

/// Chains whose full backups were made at distinct times have distinct places.
proof fn lemma_chain_ranks_are_distinct(
    fulls: Seq<(String, BackupMetadata)>,
    backups: Seq<(String, BackupMetadata)>,
)
    requires
        distinct_ranks(fulls),
    ensures
        distinct_ranks(all_attached(bare_chains(fulls), backups)),
{
    let bare = bare_chains(fulls);
    let all = all_attached(bare, backups);
    lemma_all_attached_keeps_fulls(bare, backups);
    assert forall|i: int, j: int| 0 <= i < j < all.len() implies !same_rank(
        #[trigger] all[i],
        #[trigger] all[j],
    ) by {
        assert(all[i].full == bare[i].full && all[j].full == bare[j].full);
        assert(!same_rank(fulls[i], fulls[j]));
    }
}

/// A full backup has the same chain, in whatever order the full backups are given.
proof fn lemma_chains_correspond(
    a: Seq<(String, BackupMetadata)>,
    b: Seq<(String, BackupMetadata)>,
    backups: Seq<(String, BackupMetadata)>,
)
    requires
        a.to_multiset() == b.to_multiset(),
        all_paths_are_distinct(a, backups),
        all_paths_are_distinct(b, backups),
        is_ordered(backups),
    ensures
        forall|x: int, y: int|
            0 <= x < a.len() && 0 <= y < b.len() && #[trigger] a[x] == #[trigger] b[y]
                ==> all_attached(bare_chains(a), backups)[x] == all_attached(
                bare_chains(b),
                backups,
            )[y],
    decreases backups.len(),
{
    if backups.len() == 0 {
        assert forall|x: int, y: int|
            0 <= x < a.len() && 0 <= y < b.len() && #[trigger] a[x] == #[trigger] b[y]
                implies bare_chains(a)[x] == bare_chains(b)[y] by {
        }
    } else {
        let rest = backups.drop_last();
        let last = backups.last();
        let n = backups.len() - 1;
        assert(rest =~= backups.take(n));
        lemma_first_stand_apart(a, backups, n);
        lemma_first_stand_apart(b, backups, n);
        lemma_chains_correspond(a, b, rest);
        lemma_chains_stand_apart(a, rest);
        lemma_chains_stand_apart(b, rest);
        lemma_all_attached_keeps_fulls(bare_chains(a), rest);
        lemma_all_attached_keeps_fulls(bare_chains(b), rest);
        let p = all_attached(bare_chains(a), rest);
        let q = all_attached(bare_chains(b), rest);
        assert forall|x: int, y: int|
            0 <= x < a.len() && 0 <= y < b.len() && #[trigger] a[x] == #[trigger] b[y]
                implies all_attached(bare_chains(a), backups)[x] == all_attached(
            bare_chains(b),
            backups,
        )[y] by {
            assert(p[x] == q[y]);
            lemma_attached_where_base_stands(p, last, x);
            lemma_attached_where_base_stands(q, last, y);
        }
    }
}

/// Distinct paths do not depend on the order of the full backups.
proof fn lemma_permuted_fulls_apart(
    a: Seq<(String, BackupMetadata)>,
    b: Seq<(String, BackupMetadata)>,
    incrementals: Seq<(String, BackupMetadata)>,
)
    requires
        a.to_multiset() == b.to_multiset(),
        all_paths_are_distinct(a, incrementals),
    ensures
        all_paths_are_distinct(b, incrementals),
{
    lemma_permuted_paths_are_distinct(a, b);
    assert forall|i: int| 0 <= i < incrementals.len() implies !names_one_of(
        (#[trigger] incrementals[i]).0@,
        b,
    ) by {
        let path = incrementals[i].0@;
        if names_one_of(path, b) {
            let k = choose|k: int| 0 <= k < b.len() && same_path((#[trigger] b[k]).0@, path);
            assert(b.contains(b[k]));
            lemma_same_values(b, a, b[k]);
            let m = choose|m: int| 0 <= m < a.len() && a[m] == b[k];
            assert(same_path(a[m].0@, path));
            assert(names_one_of(path, a));
        }
    }
}

/// The chains of one order of the full backups are among those of another.
proof fn lemma_chain_occurs(
    a: Seq<(String, BackupMetadata)>,
    b: Seq<(String, BackupMetadata)>,
    backups: Seq<(String, BackupMetadata)>,
    c: ChainModel,
)
    requires
        a.to_multiset() == b.to_multiset(),
        all_paths_are_distinct(a, backups),
        all_paths_are_distinct(b, backups),
        is_ordered(backups),
        all_attached(bare_chains(a), backups).contains(c),
    ensures
        all_attached(bare_chains(b), backups).contains(c),
{
    let p = all_attached(bare_chains(a), backups);
    let q = all_attached(bare_chains(b), backups);
    lemma_all_attached_keeps_fulls(bare_chains(a), backups);
    lemma_all_attached_keeps_fulls(bare_chains(b), backups);
    lemma_chains_correspond(a, b, backups);
    let x = choose|x: int| 0 <= x < p.len() && p[x] == c;
    assert(a.contains(a[x]));
    lemma_same_values(a, b, a[x]);
    let y = choose|y: int| 0 <= y < b.len() && b[y] == a[x];
    assert(q[y] == c);
}

/// The order in which backups are given does not matter: where no two full backups and no two
/// incrementals were made at the same time, and all paths are distinct, the same backups form the
/// same chains.
pub proof fn law_order_of_backups_does_not_matter(
    fulls: Seq<(String, BackupMetadata)>,
    incrementals: Seq<(String, BackupMetadata)>,
    other_fulls: Seq<(String, BackupMetadata)>,
    other_incrementals: Seq<(String, BackupMetadata)>,
)
    requires
        fulls.to_multiset() == other_fulls.to_multiset(),
        incrementals.to_multiset() == other_incrementals.to_multiset(),
        all_paths_are_distinct(fulls, incrementals),
        distinct_timestamps(fulls),
        distinct_timestamps(incrementals),
    ensures
        grouped(fulls, incrementals) == grouped(other_fulls, other_incrementals),
{
    lemma_distinct_timestamps(fulls);
    lemma_distinct_timestamps(incrementals);
    lemma_permuted_ranks_are_distinct(fulls, other_fulls);
    lemma_permuted_ranks_are_distinct(incrementals, other_incrementals);
    assert forall|x: (String, BackupMetadata)| #[trigger] incrementals.contains(x)
        <==> other_incrementals.contains(x) by {
        if incrementals.contains(x) {
            lemma_same_values(incrementals, other_incrementals, x);
        }
        if other_incrementals.contains(x) {
            lemma_same_values(other_incrementals, incrementals, x);
        }
    }
    lemma_sorted_depends_on_values(incrementals, other_incrementals);
    let ordered = sorted(incrementals);
    lemma_sorted(incrementals);
    lemma_permuted_apart(fulls, incrementals, ordered);
    lemma_permuted_fulls_apart(fulls, other_fulls, ordered);
    lemma_chain_ranks_are_distinct(fulls, ordered);
    lemma_chain_ranks_are_distinct(other_fulls, ordered);
    let p = all_attached(bare_chains(fulls), ordered);
    let q = all_attached(bare_chains(other_fulls), ordered);
    assert forall|c: ChainModel| #[trigger] p.contains(c) <==> q.contains(c) by {
        if p.contains(c) {
            lemma_chain_occurs(fulls, other_fulls, ordered, c);
        }
        if q.contains(c) {
            lemma_chain_occurs(other_fulls, fulls, ordered, c);
        }
    }
    lemma_sorted_depends_on_values(p, q);
}

/// The path and the metadata of a full backup.
pub open spec fn full_of(chain: ChainModel) -> (Seq<char>, BackupMetadata) {
    (chain.full_path, chain.full)
}

/// The path and the metadata of a backup.
pub open spec fn entry_of(backup: (String, BackupMetadata)) -> (Seq<char>, BackupMetadata) {
    (backup.0@, backup.1)
}

/// The full backups of the chains are exactly the given ones, each as often as it was given.
pub proof fn law_full_backups_are_kept(
    fulls: Seq<(String, BackupMetadata)>,
    incrementals: Seq<(String, BackupMetadata)>,
)
    ensures
        grouped(fulls, incrementals).map_values(|c: ChainModel| full_of(c)).to_multiset()
            == fulls.map_values(|e: (String, BackupMetadata)| entry_of(e)).to_multiset(),
{
    let bare = bare_chains(fulls);
    let all = all_attached(bare, sorted(incrementals));
    let f = |c: ChainModel| full_of(c);
    let g = |e: (String, BackupMetadata)| entry_of(e);
    lemma_all_attached_keeps_fulls(bare, sorted(incrementals));
    assert forall|i: int| 0 <= i < all.len() implies all.map_values(f)[i] == fulls.map_values(
        g,
    )[i] by {
        assert(all[i].full_path == bare[i].full_path);
    }
    assert(all.map_values(f) =~= fulls.map_values(g));
    lemma_sorted_keeps_images(all, f);
}

/// Distinct times put the chains strictly in order: full backups from the newest to the oldest,
/// and within a chain incrementals from the oldest to the newest.
pub proof fn law_distinct_timestamps_are_strictly_ordered(
    fulls: Seq<(String, BackupMetadata)>,
    incrementals: Seq<(String, BackupMetadata)>,
)
    requires
        all_paths_are_distinct(fulls, incrementals),
        distinct_timestamps(fulls),
        distinct_timestamps(incrementals),
    ensures
        forall|i: int, j: int|
            0 <= i < j < grouped(fulls, incrementals).len() ==> (#[trigger] grouped(
                fulls,
                incrementals,
            )[i]).full.timestamp.instant() > (#[trigger] grouped(
                fulls,
                incrementals,
            )[j]).full.timestamp.instant(),
        forall|i: int, x: int, y: int|
            0 <= i < grouped(fulls, incrementals).len() && 0 <= x < y < grouped(
                fulls,
                incrementals,
            )[i].incrementals.len() ==> (#[trigger] grouped(
                fulls,
                incrementals,
            )[i].incrementals[x]).1.timestamp.instant() < (#[trigger] grouped(
                fulls,
                incrementals,
            )[i].incrementals[y]).1.timestamp.instant(),
{
    let g = grouped(fulls, incrementals);
    let all = all_attached(bare_chains(fulls), sorted(incrementals));
    lemma_distinct_timestamps(fulls);
    lemma_chain_ranks_are_distinct(fulls, sorted(incrementals));
    lemma_sorted(all);
    lemma_permuted_ranks_are_distinct(all, g);
    law_chains_stand_newest_first(fulls, incrementals);
    assert forall|i: int, j: int| 0 <= i < j < g.len() implies (
    #[trigger] g[i]).full.timestamp.instant() > (#[trigger] g[j]).full.timestamp.instant() by {
        assert(!same_rank(g[i], g[j]));
    }
    assert forall|x: int, y: int| 0 <= x < y < fulls.len() implies (#[trigger] fulls[x]).0@ != (
    #[trigger] fulls[y]).0@ by {
        assert(!same_path(fulls[x].0@, fulls[y].0@));
    }
    assert forall|i: int, x: int, y: int|
        0 <= i < g.len() && 0 <= x < y < g[i].incrementals.len() implies (
    #[trigger] g[i].incrementals[x]).1.timestamp.instant() < (
    #[trigger] g[i].incrementals[y]).1.timestamp.instant() by {
        let c = g[i].incrementals;
        law_incrementals_stand_oldest_first(fulls, incrementals, i);
        assert(c[x].ranks_before(c[y]));
        assert(incrementals.contains(c[x]) && incrementals.contains(c[y]));
        let a = choose|a: int| 0 <= a < incrementals.len() && incrementals[a] == c[x];
        let b = choose|b: int| 0 <= b < incrementals.len() && incrementals[b] == c[y];
        if a == b {
            law_incrementals_stand_once(fulls, incrementals, i, x, i, y);
        } else if a < b {
            assert(incrementals[a].1.timestamp.instant() != incrementals[b].1.timestamp.instant());
        } else {
            assert(incrementals[b].1.timestamp.instant() != incrementals[a].1.timestamp.instant());
        }
    }
}

} // verus!
