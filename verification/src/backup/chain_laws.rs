//! What holds of the chains that backups are grouped into.
use vstd::prelude::*;

use super::discovery::{
    Link, Walk, all_attached, attached, bare_chains, chain_links, chain_of,
    chain_position, extended, full_named, grouped, links, same_path, trace, walk,
};
use super::{BackupMetadata, ChainModel};
use crate::order::{
    Ranked, is_ordered, lemma_permuted_are_unrelated, lemma_same_values, lemma_sorted, sorted,
};

verus! {

/// Whether no two of the backups have the same path.
pub open spec fn distinct_paths(backups: Seq<(String, BackupMetadata)>) -> bool {
    forall|i: int, j: int|
        0 <= i < j < backups.len() ==> !same_path(
            (#[trigger] backups[i]).0@,
            (#[trigger] backups[j]).0@,
        )
}

/// Whether every incremental of the chain is based on the chain's full backup or on an
/// incremental that stands before it in the chain.
pub open spec fn is_linked(chain: ChainModel) -> bool {
    forall|j: int|
        0 <= j < chain.incrementals.len() ==> has_base_in_chain(
            chain,
            #[trigger] chain.incrementals[j],
            j,
        )
}

/// Whether a backup is based on the chain's full backup or on one of its first `n` incrementals.
pub open spec fn has_base_in_chain(
    chain: ChainModel,
    backup: (String, BackupMetadata),
    n: int,
) -> bool {
    match backup.1.base() {
        None => false,
        Some(base) => {
            ||| same_path(chain.full_path, base)
            ||| exists|i: int|
                0 <= i < n && i < chain.incrementals.len() && same_path(
                    (#[trigger] chain.incrementals[i]).0@,
                    base,
                )
        },
    }
}

/// Whether every link leads to the full backup of its chain or to an earlier link of its chain.
pub(crate) open spec fn leads_back(s: Seq<Link>) -> bool {
    forall|k: int| 0 <= k < s.len() ==> leads_back_from(s, #[trigger] s[k], k)
}

pub(crate) open spec fn leads_back_from(s: Seq<Link>, link: Link, k: int) -> bool {
    match link.base {
        None => false,
        Some(base) => {
            ||| same_path(link.full_path, base)
            ||| exists|i: int|
                0 <= i < k && same_path((#[trigger] s[i]).path, base) && s[i].full_path
                    == link.full_path
        },
    }
}

/// Whether no two links have the same path.
pub(crate) open spec fn distinct_links(s: Seq<Link>) -> bool {
    forall|i: int, j: int|
        0 <= i < j < s.len() ==> !same_path((#[trigger] s[i]).path, (#[trigger] s[j]).path)
}

proof fn lemma_chain_links_lead_back(chain: ChainModel)
    requires
        is_linked(chain),
    ensures
        leads_back(chain_links(chain)),
{
    let s = chain_links(chain);
    assert forall|k: int| 0 <= k < s.len() implies leads_back_from(s, #[trigger] s[k], k) by {
        assert(has_base_in_chain(chain, chain.incrementals[k], k));
        let base = chain.incrementals[k].1.base()->0;
        if !same_path(chain.full_path, base) {
            let i = choose|i: int|
                0 <= i < k && i < chain.incrementals.len() && same_path(
                    (#[trigger] chain.incrementals[i]).0@,
                    base,
                );
            assert(same_path(s[i].path, base));
        }
    }
}

pub(crate) proof fn lemma_links_lead_back(chains: Seq<ChainModel>)
    requires
        forall|i: int| 0 <= i < chains.len() ==> is_linked(#[trigger] chains[i]),
    ensures
        leads_back(links(chains)),
    decreases chains.len(),
{
    if chains.len() > 0 {
        lemma_chain_links_lead_back(chains[0]);
        lemma_links_lead_back(chains.skip(1));
        let a = chain_links(chains[0]);
        let b = links(chains.skip(1));
        let s = links(chains);
        assert(s == a + b);
        assert forall|k: int| 0 <= k < s.len() implies leads_back_from(s, #[trigger] s[k], k) by {
            if k < a.len() {
                assert(leads_back_from(a, a[k], k));
                let base = a[k].base->0;
                if !same_path(a[k].full_path, base) {
                    let i = choose|i: int|
                        0 <= i < k && same_path((#[trigger] a[i]).path, base) && a[i].full_path
                            == a[k].full_path;
                    assert(s[i] == a[i]);
                }
            } else {
                let m = k - a.len();
                assert(leads_back_from(b, b[m], m));
                let base = b[m].base->0;
                if !same_path(b[m].full_path, base) {
                    let i = choose|i: int|
                        0 <= i < m && same_path((#[trigger] b[i]).path, base) && b[i].full_path
                            == b[m].full_path;
                    assert(s[i + a.len()] == b[i]);
                }
            }
        }
    }
}

/// A walk that meets no link of the path it looks for takes no step.
proof fn lemma_walk_nowhere(s: Seq<Link>, base: Seq<char>, moved: bool)
    requires
        forall|k: int| 0 <= k < s.len() ==> !same_path((#[trigger] s[k]).path, base),
    ensures
        walk(s, base, moved) == (Walk::At { base, moved }),
    decreases s.len(),
{
    if s.len() > 0 {
        assert forall|k: int| 0 <= k < s.skip(1).len() implies !same_path(
            (#[trigger] s.skip(1)[k]).path,
            base,
        ) by {
            assert(s.skip(1)[k] == s[k + 1]);
        }
        lemma_walk_nowhere(s.skip(1), base, moved);
    }
}

/// A walk goes past the links that have another path.
proof fn lemma_walk_skips(s: Seq<Link>, base: Seq<char>, moved: bool, n: int)
    requires
        0 <= n <= s.len(),
        forall|k: int| 0 <= k < n ==> !same_path((#[trigger] s[k]).path, base),
    ensures
        walk(s, base, moved) == walk(s.skip(n), base, moved),
    decreases n,
{
    if n == 0 {
        assert(s.skip(0) =~= s);
    } else {
        assert forall|k: int| 0 <= k < n - 1 implies !same_path(
            (#[trigger] s.skip(1)[k]).path,
            base,
        ) by {
            assert(s.skip(1)[k] == s[k + 1]);
        }
        assert(!same_path(s[0].path, base));
        lemma_walk_skips(s.skip(1), base, moved, n - 1);
        assert(s.skip(1).skip(n - 1) =~= s.skip(n));
    }
}

/// In links that lead back and have distinct paths, a walk from a link's path takes exactly the
/// step to that link's base.
proof fn lemma_walk_takes_one_step(s: Seq<Link>, base: Seq<char>, k: int)
    requires
        leads_back(s),
        distinct_links(s),
        0 <= k < s.len(),
        same_path(s[k].path, base),
    ensures
        s[k].base is Some,
        walk(s, base, false) == if same_path(s[k].full_path, s[k].base->0) {
            Walk::Found(s[k].full_path)
        } else {
            Walk::At { base: s[k].base->0, moved: true }
        },
{
    assert(leads_back_from(s, s[k], k));
    let next = s[k].base->0;
    assert forall|m: int| 0 <= m < k implies !same_path((#[trigger] s[m]).path, base) by {
        assert(!same_path(s[m].path, s[k].path));
    }
    lemma_walk_skips(s, base, false, k);
    let rest = s.skip(k);
    assert(rest[0] == s[k]);
    if !same_path(s[k].full_path, next) {
        let i = choose|i: int|
            0 <= i < k && same_path((#[trigger] s[i]).path, next) && s[i].full_path
                == s[k].full_path;
        assert forall|m: int| 0 <= m < rest.skip(1).len() implies !same_path(
            (#[trigger] rest.skip(1)[m]).path,
            next,
        ) by {
            assert(rest.skip(1)[m] == s[k + 1 + m]);
            assert(!same_path(s[i].path, s[k + 1 + m].path));
        }
        lemma_walk_nowhere(rest.skip(1), next, true);
    }
}

/// Tracing reaches the full backup of a link's chain within as many passes as there are links up
/// to that link.
pub(crate) proof fn lemma_trace_reaches(s: Seq<Link>, base: Seq<char>, k: int, passes: nat)
    requires
        leads_back(s),
        distinct_links(s),
        0 <= k < s.len(),
        k < passes,
        same_path(s[k].path, base),
    ensures
        trace(s, base, passes) == Some(s[k].full_path),
    decreases k,
{
    lemma_walk_takes_one_step(s, base, k);
    assert(leads_back_from(s, s[k], k));
    let next = s[k].base->0;
    if !same_path(s[k].full_path, next) {
        let i = choose|i: int|
            0 <= i < k && same_path((#[trigger] s[i]).path, next) && s[i].full_path
                == s[k].full_path;
        lemma_trace_reaches(s, next, i, (passes - 1) as nat);
    }
}

/// Tracing from a link's path gives the full backup of that link's chain, if it gives any.
proof fn lemma_trace_stays_in_chain(s: Seq<Link>, base: Seq<char>, passes: nat)
    requires
        leads_back(s),
        distinct_links(s),
        trace(s, base, passes) is Some,
    ensures
        exists|k: int|
            0 <= k < s.len() && same_path((#[trigger] s[k]).path, base) && s[k].full_path == trace(
                s,
                base,
                passes,
            )->0,
    decreases passes,
{
    if forall|k: int| 0 <= k < s.len() ==> !same_path((#[trigger] s[k]).path, base) {
        lemma_walk_nowhere(s, base, false);
    } else {
        let k = choose|k: int| 0 <= k < s.len() && same_path((#[trigger] s[k]).path, base);
        lemma_walk_takes_one_step(s, base, k);
        let next = s[k].base->0;
        if !same_path(s[k].full_path, next) {
            lemma_trace_stays_in_chain(s, next, (passes - 1) as nat);
            let m = choose|m: int|
                0 <= m < s.len() && same_path((#[trigger] s[m]).path, next) && s[m].full_path
                    == trace(s, next, (passes - 1) as nat)->0;
            assert(leads_back_from(s, s[k], k));
            let i = choose|i: int|
                0 <= i < k && same_path((#[trigger] s[i]).path, next) && s[i].full_path
                    == s[k].full_path;
            assert(i == m) by {
                if i < m {
                    assert(!same_path(s[i].path, s[m].path));
                }
                if m < i {
                    assert(!same_path(s[m].path, s[i].path));
                }
            }
        }
        assert(s[k].full_path == trace(s, base, passes)->0);
    }
}

/// A link of all chains is an incremental of one of them.
pub(crate) proof fn lemma_link_origin(chains: Seq<ChainModel>, k: int) -> (r: (int, int))
    requires
        0 <= k < links(chains).len(),
    ensures
        0 <= r.0 < chains.len(),
        0 <= r.1 < chains[r.0].incrementals.len(),
        links(chains)[k] == chain_links(chains[r.0])[r.1],
    decreases chains.len(),
{
    let a = chain_links(chains[0]);
    if k < a.len() {
        (0, k)
    } else {
        let r = lemma_link_origin(chains.skip(1), k - a.len());
        (r.0 + 1, r.1)
    }
}

/// An incremental of a chain is a link of all chains.
pub(crate) proof fn lemma_link_place(chains: Seq<ChainModel>, i: int, j: int) -> (k: int)
    requires
        0 <= i < chains.len(),
        0 <= j < chains[i].incrementals.len(),
    ensures
        0 <= k < links(chains).len(),
        links(chains)[k] == chain_links(chains[i])[j],
    decreases chains.len(),
{
    let a = chain_links(chains[0]);
    if i == 0 {
        j
    } else {
        let k = lemma_link_place(chains.skip(1), i - 1, j);
        k + a.len()
    }
}

/// The first chain with a path, where there is a chain with that path.
pub(crate) proof fn lemma_chain_position(chains: Seq<ChainModel>, path: Seq<char>)
    ensures
        chain_position(chains, path) <= chains.len(),
        chain_position(chains, path) < chains.len() ==> chains[chain_position(
            chains,
            path,
        ) as int].full_path == path,
        forall|i: int|
            0 <= i < chain_position(chains, path) ==> (#[trigger] chains[i]).full_path != path,
    decreases chains.len(),
{
    if chains.len() > 0 && chains[0].full_path != path {
        lemma_chain_position(chains.skip(1), path);
        assert forall|i: int| 0 <= i < chain_position(chains, path) implies (
        #[trigger] chains[i]).full_path != path by {
            if i > 0 {
                assert(chains[i] == chains.skip(1)[i - 1]);
            }
        }
    }
}

/// The full backup that a path names is that of one of the chains.
pub(crate) proof fn lemma_full_named(chains: Seq<ChainModel>, base: Seq<char>)
    ensures
        full_named(chains, base) matches Some(path) ==> same_path(path, base) && exists|i: int|
            0 <= i < chains.len() && (#[trigger] chains[i]).full_path == path,
    decreases chains.len(),
{
    if chains.len() > 0 {
        if same_path(chains[0].full_path, base) {
            assert(chains[0].full_path == full_named(chains, base)->0);
        } else {
            lemma_full_named(chains.skip(1), base);
            if full_named(chains, base) is Some {
                let path = full_named(chains, base)->0;
                let i = choose|i: int|
                    0 <= i < chains.skip(1).len() && (#[trigger] chains.skip(1)[i]).full_path
                        == path;
                assert(chains[i + 1].full_path == path);
            }
        }
    }
}

/// Whether no two of the chains have the same full backup.
pub(crate) open spec fn distinct_fulls(chains: Seq<ChainModel>) -> bool {
    forall|i: int, j: int|
        0 <= i < j < chains.len() ==> (#[trigger] chains[i]).full_path != (
        #[trigger] chains[j]).full_path
}

/// What holds of the chains while incrementals are added to them.
pub(crate) open spec fn is_sound(chains: Seq<ChainModel>) -> bool {
    &&& forall|i: int| 0 <= i < chains.len() ==> is_linked(#[trigger] chains[i])
    &&& distinct_links(links(chains))
    &&& distinct_fulls(chains)
}

/// The base of a backup that belongs to a chain stands in that chain.
pub(crate) proof fn lemma_chain_of_holds_base(
    chains: Seq<ChainModel>,
    backup: (String, BackupMetadata),
) -> (at: int)
    requires
        is_sound(chains),
        chain_of(chains, backup.1) is Some,
    ensures
        at == chain_position(chains, chain_of(chains, backup.1)->0),
        0 <= at < chains.len(),
        has_base_in_chain(chains[at], backup, chains[at].incrementals.len() as int),
{
    let base = backup.1.base()->0;
    let path = chain_of(chains, backup.1)->0;
    let at = chain_position(chains, path) as int;
    lemma_chain_position(chains, path);
    lemma_full_named(chains, base);
    if full_named(chains, base) is Some {
        let i = choose|i: int| 0 <= i < chains.len() && (#[trigger] chains[i]).full_path == path;
        assert(!(i < at));
    } else {
        lemma_links_lead_back(chains);
        let s = links(chains);
        lemma_trace_stays_in_chain(s, base, s.len() + 1);
        let k = choose|k: int|
            0 <= k < s.len() && same_path((#[trigger] s[k]).path, base) && s[k].full_path == path;
        let (i, j) = lemma_link_origin(chains, k);
        assert(chains[i].full_path == path);
        assert(!(i < at));
        assert(i == at) by {
            if at < i {
                assert(chains[at].full_path != chains[i].full_path);
            }
        }
        assert(same_path(chains[at].incrementals[j].0@, base));
    }
    at
}

/// Adding an incremental to a chain adds one link to the links of all chains.
proof fn lemma_links_extended(
    chains: Seq<ChainModel>,
    at: int,
    backup: (String, BackupMetadata),
) -> (p: int)
    requires
        0 <= at < chains.len(),
    ensures
        0 <= p <= links(chains).len(),
        links(chains.update(at, extended(chains[at], backup))) == links(chains).insert(
            p,
            Link { full_path: chains[at].full_path, path: backup.0@, base: backup.1.base() },
        ),
    decreases chains.len(),
{
    let more = chains.update(at, extended(chains[at], backup));
    let link = Link {
        full_path: chains[at].full_path,
        path: backup.0@,
        base: backup.1.base(),
    };
    let a = chain_links(chains[0]);
    let b = links(chains.skip(1));
    if at == 0 {
        assert(more.skip(1) =~= chains.skip(1));
        assert(chain_links(more[0]) =~= a.push(link));
        assert(links(more) =~= links(chains).insert(a.len() as int, link));
        a.len() as int
    } else {
        let p = lemma_links_extended(chains.skip(1), at - 1, backup);
        assert(more.skip(1) =~= chains.skip(1).update(
            at - 1,
            extended(chains.skip(1)[at - 1], backup),
        ));
        assert(links(more) =~= links(chains).insert(a.len() + p, link));
        a.len() + p
    }
}

/// Whether the chains hold only incrementals of `backups`, and hold them oldest first.
pub(crate) open spec fn holds_in_order(chains: Seq<ChainModel>, backups: Seq<(String, BackupMetadata)>) -> bool {
    &&& forall|i: int, j: int|
        0 <= i < chains.len() && 0 <= j < chains[i].incrementals.len() ==> backups.contains(
            #[trigger] chains[i].incrementals[j],
        )
    &&& forall|i: int| 0 <= i < chains.len() ==> is_ordered((#[trigger] chains[i]).incrementals)
}

proof fn lemma_attached_holds_in_order(
    chains: Seq<ChainModel>,
    backups: Seq<(String, BackupMetadata)>,
    backup: (String, BackupMetadata),
)
    requires
        holds_in_order(chains, backups),
        is_ordered(backups.push(backup)),
    ensures
        holds_in_order(attached(chains, backup), backups.push(backup)),
{
    let after = attached(chains, backup);
    let all = backups.push(backup);
    assert(all[backups.len() as int] == backup);
    assert forall|e: (String, BackupMetadata)| backups.contains(e) implies all.contains(e) by {
        let i = choose|i: int| 0 <= i < backups.len() && backups[i] == e;
        assert(all[i] == e);
    }
    assert forall|i: int, j: int|
        0 <= i < after.len() && 0 <= j < after[i].incrementals.len() implies all.contains(
        #[trigger] after[i].incrementals[j],
    ) by {
        if j < chains[i].incrementals.len() {
            assert(after[i].incrementals[j] == chains[i].incrementals[j]);
            assert(backups.contains(chains[i].incrementals[j]));
        } else {
            assert(after[i].incrementals[j] == backup);
        }
    }
    assert forall|i: int| 0 <= i < after.len() implies is_ordered(
        (#[trigger] after[i]).incrementals,
    ) by {
        let c = chains[i].incrementals;
        let d = after[i].incrementals;
        assert(is_ordered(c));
        assert forall|x: int, y: int| 0 <= x < y < d.len() implies (#[trigger] d[x]).ranks_before(
            #[trigger] d[y],
        ) by {
            if y < c.len() {
                assert(d[x] == c[x] && d[y] == c[y]);
                assert(c[x].ranks_before(c[y]));
            } else {
                assert(d[x] == c[x] && d[y] == backup);
                assert(backups.contains(chains[i].incrementals[x]));
                let m = choose|m: int| 0 <= m < backups.len() && backups[m] == c[x];
                assert(all[m].ranks_before(all[backups.len() as int]));
            }
        }
    }
}

/// The first backups of an ordered sequence are in order.
proof fn lemma_first_are_ordered(backups: Seq<(String, BackupMetadata)>)
    requires
        backups.len() > 0,
        is_ordered(backups),
    ensures
        is_ordered(backups.drop_last()),
        backups.drop_last().push(backups.last()) == backups,
{
    let rest = backups.drop_last();
    assert(rest.push(backups.last()) =~= backups);
    assert forall|i: int, j: int| 0 <= i < j < rest.len() implies (#[trigger] rest[i]).ranks_before(
        #[trigger] rest[j],
    ) by {
        assert(rest[i] == backups[i] && rest[j] == backups[j]);
    }
}

pub(crate) proof fn lemma_all_attached_holds_in_order(
    chains: Seq<ChainModel>,
    backups: Seq<(String, BackupMetadata)>,
)
    requires
        forall|i: int| 0 <= i < chains.len() ==> (#[trigger] chains[i]).incrementals.len() == 0,
        is_ordered(backups),
    ensures
        holds_in_order(all_attached(chains, backups), backups),
    decreases backups.len(),
{
    if backups.len() > 0 {
        let rest = backups.drop_last();
        lemma_first_are_ordered(backups);
        lemma_all_attached_holds_in_order(chains, rest);
        lemma_attached_holds_in_order(all_attached(chains, rest), rest, backups.last());
    }
}

proof fn lemma_attached_is_sound(
    chains: Seq<ChainModel>,
    backups: Seq<(String, BackupMetadata)>,
    backup: (String, BackupMetadata),
)
    requires
        is_sound(chains),
        holds_in_order(chains, backups),
        distinct_paths(backups.push(backup)),
    ensures
        is_sound(attached(chains, backup)),
{
    let after = attached(chains, backup);
    let all = backups.push(backup);
    if chain_of(chains, backup.1) is Some {
        let at = lemma_chain_of_holds_base(chains, backup);
        let c = chains[at];
        let d = extended(c, backup);
        assert(after == chains.update(at, d));
        assert forall|j: int| 0 <= j < d.incrementals.len() implies has_base_in_chain(
            d,
            #[trigger] d.incrementals[j],
            j,
        ) by {
            let n = c.incrementals.len();
            let base = d.incrementals[j].1.base()->0;
            if j < n {
                assert(has_base_in_chain(c, c.incrementals[j], j));
            }
            if !same_path(c.full_path, base) {
                let i = choose|i: int|
                    0 <= i < j && i < n && same_path((#[trigger] c.incrementals[i]).0@, base);
                assert(d.incrementals[i] == c.incrementals[i]);
            }
        }
        let p = lemma_links_extended(chains, at, backup);
        let s = links(chains);
        let t = links(after);
        assert forall|k: int| 0 <= k < s.len() implies !same_path(
            (#[trigger] s[k]).path,
            backup.0@,
        ) by {
            let (i, j) = lemma_link_origin(chains, k);
            assert(backups.contains(chains[i].incrementals[j]));
            let m = choose|m: int|
                0 <= m < backups.len() && backups[m] == chains[i].incrementals[j];
            assert(!same_path(all[m].0@, all[backups.len() as int].0@));
        }
        assert forall|i: int, j: int| 0 <= i < j < t.len() implies !same_path(
            (#[trigger] t[i]).path,
            (#[trigger] t[j]).path,
        ) by {
            let x = if i < p {
                i
            } else {
                i - 1
            };
            let y = if j < p {
                j
            } else {
                j - 1
            };
            if i != p {
                assert(t[i] == s[x]);
            }
            if j != p {
                assert(t[j] == s[y]);
            }
        }
    }
}

pub(crate) proof fn lemma_all_attached_is_sound(
    chains: Seq<ChainModel>,
    backups: Seq<(String, BackupMetadata)>,
)
    requires
        forall|i: int| 0 <= i < chains.len() ==> (#[trigger] chains[i]).incrementals.len() == 0,
        distinct_fulls(chains),
        distinct_paths(backups),
        is_ordered(backups),
    ensures
        is_sound(all_attached(chains, backups)),
    decreases backups.len(),
{
    if backups.len() == 0 {
        if links(chains).len() > 0 {
            let (i, j) = lemma_link_origin(chains, 0);
        }
    } else {
        let rest = backups.drop_last();
        lemma_first_are_ordered(backups);
        assert forall|i: int, j: int| 0 <= i < j < rest.len() implies !same_path(
            (#[trigger] rest[i]).0@,
            (#[trigger] rest[j]).0@,
        ) by {
            assert(rest[i] == backups[i] && rest[j] == backups[j]);
        }
        lemma_all_attached_is_sound(chains, rest);
        lemma_all_attached_holds_in_order(chains, rest);
        lemma_attached_is_sound(all_attached(chains, rest), rest, backups.last());
    }
}

/// A permutation of backups with distinct paths has distinct paths.
pub(crate) proof fn lemma_permuted_paths_are_distinct(
    a: Seq<(String, BackupMetadata)>,
    b: Seq<(String, BackupMetadata)>,
)
    requires
        a.to_multiset() == b.to_multiset(),
        distinct_paths(a),
    ensures
        distinct_paths(b),
{
    let related = |x: (String, BackupMetadata), y: (String, BackupMetadata)| same_path(x.0@, y.0@);
    assert forall|i: int, j: int| 0 <= i < j < a.len() implies !related(
        #[trigger] a[i],
        #[trigger] a[j],
    ) by {
        assert(!same_path(a[i].0@, a[j].0@));
    }
    lemma_permuted_are_unrelated(a, b, related);
    assert forall|i: int, j: int| 0 <= i < j < b.len() implies !same_path(
        (#[trigger] b[i]).0@,
        (#[trigger] b[j]).0@,
    ) by {
        assert(!related(b[i], b[j]));
    }
}

/// Every chain of the result is one of the chains that the incrementals were added to.
pub(crate) proof fn lemma_grouped_chain(
    fulls: Seq<(String, BackupMetadata)>,
    incrementals: Seq<(String, BackupMetadata)>,
    i: int,
) -> (k: int)
    requires
        0 <= i < grouped(fulls, incrementals).len(),
    ensures
        0 <= k < all_attached(bare_chains(fulls), sorted(incrementals)).len(),
        all_attached(bare_chains(fulls), sorted(incrementals))[k] == grouped(
            fulls,
            incrementals,
        )[i],
{
    let all = all_attached(bare_chains(fulls), sorted(incrementals));
    lemma_sorted(all);
    let c = grouped(fulls, incrementals)[i];
    assert(sorted(all).contains(c));
    lemma_same_values(sorted(all), all, c);
    choose|k: int| 0 <= k < all.len() && all[k] == c
}

/// Every chain that the incrementals were added to is one of the chains of the result.
proof fn lemma_chain_is_grouped(
    fulls: Seq<(String, BackupMetadata)>,
    incrementals: Seq<(String, BackupMetadata)>,
    k: int,
) -> (i: int)
    requires
        0 <= k < all_attached(bare_chains(fulls), sorted(incrementals)).len(),
    ensures
        0 <= i < grouped(fulls, incrementals).len(),
        all_attached(bare_chains(fulls), sorted(incrementals))[k] == grouped(
            fulls,
            incrementals,
        )[i],
{
    let all = all_attached(bare_chains(fulls), sorted(incrementals));
    lemma_sorted(all);
    assert(all.contains(all[k]));
    lemma_same_values(all, sorted(all), all[k]);
    choose|i: int| 0 <= i < sorted(all).len() && sorted(all)[i] == all[k]
}

/// Adding incrementals changes neither the number of the chains nor their full backups.
pub(crate) proof fn lemma_all_attached_keeps_fulls(
    chains: Seq<ChainModel>,
    backups: Seq<(String, BackupMetadata)>,
)
    ensures
        all_attached(chains, backups).len() == chains.len(),
        forall|i: int|
            0 <= i < chains.len() ==> (#[trigger] all_attached(chains, backups)[i]).full_path
                == chains[i].full_path && all_attached(chains, backups)[i].full == chains[i].full,
    decreases backups.len(),
{
    if backups.len() > 0 {
        lemma_all_attached_keeps_fulls(chains, backups.drop_last());
    }
}

/// Chains stand newest first: no chain has a newer full backup than one that stands before it.
pub proof fn law_chains_stand_newest_first(
    fulls: Seq<(String, BackupMetadata)>,
    incrementals: Seq<(String, BackupMetadata)>,
)
    ensures
        forall|i: int, j: int|
            0 <= i < j < grouped(fulls, incrementals).len() ==> (#[trigger] grouped(
                fulls,
                incrementals,
            )[i]).full.timestamp.instant() >= (#[trigger] grouped(
                fulls,
                incrementals,
            )[j]).full.timestamp.instant(),
{
    let g = grouped(fulls, incrementals);
    lemma_sorted(all_attached(bare_chains(fulls), sorted(incrementals)));
    assert forall|i: int, j: int| 0 <= i < j < g.len() implies (
    #[trigger] g[i]).full.timestamp.instant() >= (#[trigger] g[j]).full.timestamp.instant() by {
        assert(g[i].ranks_before(g[j]));
    }
}

/// Every full backup starts exactly one chain, and there are no other chains.
pub proof fn law_every_full_starts_one_chain(
    fulls: Seq<(String, BackupMetadata)>,
    incrementals: Seq<(String, BackupMetadata)>,
)
    ensures
        grouped(fulls, incrementals).len() == fulls.len(),
        forall|k: int|
            0 <= k < fulls.len() ==> exists|i: int|
                0 <= i < grouped(fulls, incrementals).len() && (#[trigger] grouped(
                    fulls,
                    incrementals,
                )[i]).full_path == (#[trigger] fulls[k]).0@ && grouped(fulls, incrementals)[i].full
                    == fulls[k].1,
        forall|i: int|
            0 <= i < grouped(fulls, incrementals).len() ==> exists|k: int|
                0 <= k < fulls.len() && (#[trigger] grouped(fulls, incrementals)[i]).full_path == (
                #[trigger] fulls[k]).0@ && grouped(fulls, incrementals)[i].full == fulls[k].1,
{
    let all = all_attached(bare_chains(fulls), sorted(incrementals));
    let g = grouped(fulls, incrementals);
    lemma_sorted(all);
    lemma_all_attached_keeps_fulls(bare_chains(fulls), sorted(incrementals));
    assert forall|k: int| 0 <= k < fulls.len() implies exists|i: int|
        0 <= i < g.len() && (#[trigger] g[i]).full_path == (#[trigger] fulls[k]).0@ && g[i].full
            == fulls[k].1 by {
        let i = lemma_chain_is_grouped(fulls, incrementals, k);
        assert(all[k].full_path == fulls[k].0@);
        assert(g[i].full_path == fulls[k].0@);
    }
    assert forall|i: int| 0 <= i < g.len() implies exists|k: int|
        0 <= k < fulls.len() && (#[trigger] g[i]).full_path == (#[trigger] fulls[k]).0@
            && g[i].full == fulls[k].1 by {
        let k = lemma_grouped_chain(fulls, incrementals, i);
        assert(all[k].full_path == bare_chains(fulls)[k].full_path);
        assert(g[i].full_path == fulls[k].0@);
    }
}

/// Within a chain the incrementals stand oldest first, and all of them were given.
pub proof fn law_incrementals_stand_oldest_first(
    fulls: Seq<(String, BackupMetadata)>,
    incrementals: Seq<(String, BackupMetadata)>,
    i: int,
)
    requires
        0 <= i < grouped(fulls, incrementals).len(),
    ensures
        is_ordered(grouped(fulls, incrementals)[i].incrementals),
        forall|j: int|
            0 <= j < grouped(fulls, incrementals)[i].incrementals.len() ==> incrementals.contains(
                #[trigger] grouped(fulls, incrementals)[i].incrementals[j],
            ),
{
    let k = lemma_grouped_chain(fulls, incrementals, i);
    lemma_sorted(incrementals);
    lemma_all_attached_holds_in_order(bare_chains(fulls), sorted(incrementals));
    let all = all_attached(bare_chains(fulls), sorted(incrementals));
    let c = grouped(fulls, incrementals)[i];
    assert(all[k] == c);
    assert forall|j: int| 0 <= j < c.incrementals.len() implies incrementals.contains(
        #[trigger] c.incrementals[j],
    ) by {
        assert(sorted(incrementals).contains(all[k].incrementals[j]));
        lemma_same_values(sorted(incrementals), incrementals, c.incrementals[j]);
    }
}

/// Where no two full backups and no two incrementals share a path, every incremental of a chain
/// is based on the chain's full backup or on an incremental that stands before it in the same
/// chain.
pub proof fn law_chains_are_linked(
    fulls: Seq<(String, BackupMetadata)>,
    incrementals: Seq<(String, BackupMetadata)>,
    i: int,
)
    requires
        0 <= i < grouped(fulls, incrementals).len(),
        forall|x: int, y: int|
            0 <= x < y < fulls.len() ==> (#[trigger] fulls[x]).0@ != (#[trigger] fulls[y]).0@,
        distinct_paths(incrementals),
    ensures
        is_linked(grouped(fulls, incrementals)[i]),
{
    let k = lemma_grouped_chain(fulls, incrementals, i);
    lemma_grouped_from_sound(fulls, incrementals);
}

proof fn lemma_grouped_from_sound(
    fulls: Seq<(String, BackupMetadata)>,
    incrementals: Seq<(String, BackupMetadata)>,
)
    requires
        forall|x: int, y: int|
            0 <= x < y < fulls.len() ==> (#[trigger] fulls[x]).0@ != (#[trigger] fulls[y]).0@,
        distinct_paths(incrementals),
    ensures
        is_sound(all_attached(bare_chains(fulls), sorted(incrementals))),
{
    lemma_sorted(incrementals);
    lemma_permuted_paths_are_distinct(incrementals, sorted(incrementals));
    let bare = bare_chains(fulls);
    assert forall|x: int, y: int| 0 <= x < y < bare.len() implies (#[trigger] bare[x]).full_path
        != (#[trigger] bare[y]).full_path by {
        assert(fulls[x].0@ != fulls[y].0@);
    }
    lemma_all_attached_is_sound(bare, sorted(incrementals));
}

/// Where no two full backups and no two incrementals share a path, no incremental stands in two
/// places.
pub proof fn law_incrementals_stand_once(
    fulls: Seq<(String, BackupMetadata)>,
    incrementals: Seq<(String, BackupMetadata)>,
    i: int,
    x: int,
    j: int,
    y: int,
)
    requires
        forall|x: int, y: int|
            0 <= x < y < fulls.len() ==> (#[trigger] fulls[x]).0@ != (#[trigger] fulls[y]).0@,
        distinct_paths(incrementals),
        0 <= i < grouped(fulls, incrementals).len(),
        0 <= j < grouped(fulls, incrementals).len(),
        0 <= x < grouped(fulls, incrementals)[i].incrementals.len(),
        0 <= y < grouped(fulls, incrementals)[j].incrementals.len(),
        same_path(
            grouped(fulls, incrementals)[i].incrementals[x].0@,
            grouped(fulls, incrementals)[j].incrementals[y].0@,
        ),
    ensures
        i == j && x == y,
{
    broadcast use vstd::seq_lib::group_to_multiset_ensures;

    let g = grouped(fulls, incrementals);
    let all = all_attached(bare_chains(fulls), sorted(incrementals));
    lemma_grouped_from_sound(fulls, incrementals);
    let k = lemma_grouped_chain(fulls, incrementals, i);
    let m = lemma_grouped_chain(fulls, incrementals, j);
    if k < m {
        lemma_links_are_distinct(all, k, x, m, y);
    } else if m < k {
        lemma_links_are_distinct(all, m, y, k, x);
    } else {
        if x < y {
            lemma_links_are_distinct(all, k, x, k, y);
        } else if y < x {
            lemma_links_are_distinct(all, k, y, k, x);
        }
        assert(g[i] == g[j]);
        assert(all.no_duplicates()) by {
            assert forall|a: int, b: int|
                0 <= a < all.len() && 0 <= b < all.len() && a != b implies all[a] != all[b] by {
                if a < b {
                    assert(all[a].full_path != all[b].full_path);
                } else {
                    assert(all[b].full_path != all[a].full_path);
                }
            }
        }
        lemma_sorted(all);
        all.lemma_multiset_has_no_duplicates();
        g.lemma_multiset_has_no_duplicates_conv();
    }
}

/// Two incrementals are two links of all chains.
proof fn lemma_links_are_distinct(chains: Seq<ChainModel>, i: int, x: int, j: int, y: int)
    requires
        distinct_links(links(chains)),
        0 <= i <= j < chains.len(),
        0 <= x < chains[i].incrementals.len(),
        0 <= y < chains[j].incrementals.len(),
        i == j ==> x < y,
    ensures
        !same_path(chains[i].incrementals[x].0@, chains[j].incrementals[y].0@),
    decreases chains.len(),
{
    let a = chain_links(chains[0]);
    let b = links(chains.skip(1));
    let s = links(chains);
    if i == 0 {
        assert(s[x] == a[x]);
        if j == 0 {
            assert(s[y] == a[y]);
            assert(!same_path(s[x].path, s[y].path));
        } else {
            let k = lemma_link_place(chains.skip(1), j - 1, y);
            assert(s[k + a.len()] == b[k]);
            assert(!same_path(s[x].path, s[k + a.len()].path));
        }
    } else {
        assert forall|m: int, n: int| 0 <= m < n < b.len() implies !same_path(
            (#[trigger] b[m]).path,
            (#[trigger] b[n]).path,
        ) by {
            assert(s[m + a.len()] == b[m] && s[n + a.len()] == b[n]);
        }
        lemma_links_are_distinct(chains.skip(1), i - 1, x, j - 1, y);
    }
}

/// Tracing finds nothing where no link has the path that it starts from.
proof fn lemma_trace_nowhere(s: Seq<Link>, base: Seq<char>, passes: nat)
    requires
        forall|k: int| 0 <= k < s.len() ==> !same_path((#[trigger] s[k]).path, base),
    ensures
        trace(s, base, passes) is None,
{
    lemma_walk_nowhere(s, base, false);
}

/// Whether a path names one of the backups.
pub open spec fn names_one_of(path: Seq<char>, backups: Seq<(String, BackupMetadata)>) -> bool {
    exists|k: int| 0 <= k < backups.len() && same_path((#[trigger] backups[k]).0@, path)
}

/// What holds of the bases of all incrementals that were added to chains.
spec fn bases_are_known(
    chains: Seq<ChainModel>,
    fulls: Seq<(String, BackupMetadata)>,
    backups: Seq<(String, BackupMetadata)>,
) -> bool {
    forall|i: int, j: int|
        0 <= i < chains.len() && 0 <= j < chains[i].incrementals.len() ==> base_is_known(
            #[trigger] chains[i].incrementals[j],
            fulls,
            backups,
        )
}

/// Whether a backup is based on one of the given full or incremental backups.
pub open spec fn base_is_known(
    backup: (String, BackupMetadata),
    fulls: Seq<(String, BackupMetadata)>,
    incrementals: Seq<(String, BackupMetadata)>,
) -> bool {
    match backup.1.base() {
        None => false,
        Some(base) => names_one_of(base, fulls) || names_one_of(base, incrementals),
    }
}

proof fn lemma_bases_are_known(
    fulls: Seq<(String, BackupMetadata)>,
    backups: Seq<(String, BackupMetadata)>,
)
    requires
        is_ordered(backups),
    ensures
        bases_are_known(all_attached(bare_chains(fulls), backups), fulls, backups),
    decreases backups.len(),
{
    let bare = bare_chains(fulls);
    if backups.len() > 0 {
        let rest = backups.drop_last();
        let last = backups.last();
        let before = all_attached(bare, rest);
        let after = all_attached(bare, backups);
        lemma_first_are_ordered(backups);
        lemma_bases_are_known(fulls, rest);
        lemma_all_attached_keeps_fulls(bare, rest);
        lemma_all_attached_holds_in_order(bare, rest);
        assert forall|path: Seq<char>| names_one_of(path, rest) implies names_one_of(
            path,
            backups,
        ) by {
            let k = choose|k: int| 0 <= k < rest.len() && same_path((#[trigger] rest[k]).0@, path);
            assert(same_path(backups[k].0@, path));
        }
        if chain_of(before, last.1) is Some {
            let base = last.1.base()->0;
            lemma_full_named(before, base);
            if full_named(before, base) is Some {
                let i = choose|i: int|
                    0 <= i < before.len() && (#[trigger] before[i]).full_path == full_named(
                        before,
                        base,
                    )->0;
                assert(before[i].full_path == bare[i].full_path);
                assert(same_path(fulls[i].0@, base));
            } else {
                let s = links(before);
                if forall|k: int| 0 <= k < s.len() ==> !same_path((#[trigger] s[k]).path, base) {
                    lemma_trace_nowhere(s, base, s.len() + 1);
                }
                let k = choose|k: int| 0 <= k < s.len() && same_path((#[trigger] s[k]).path, base);
                let (i, j) = lemma_link_origin(before, k);
                assert(rest.contains(before[i].incrementals[j]));
                let m = choose|m: int|
                    0 <= m < rest.len() && rest[m] == before[i].incrementals[j];
                assert(same_path(rest[m].0@, base));
                assert(names_one_of(base, rest));
            }
            assert(base_is_known(last, fulls, backups));
        }
        assert forall|i: int, j: int|
            0 <= i < after.len() && 0 <= j < after[i].incrementals.len() implies base_is_known(
            #[trigger] after[i].incrementals[j],
            fulls,
            backups,
        ) by {
            if j < before[i].incrementals.len() {
                assert(after[i].incrementals[j] == before[i].incrementals[j]);
                assert(base_is_known(before[i].incrementals[j], fulls, rest));
            } else {
                assert(after[i].incrementals[j] == last);
            }
        }
    }
}

/// An orphan stands in no chain: every incremental of a chain is based on a given backup.
pub proof fn law_orphans_are_dropped(
    fulls: Seq<(String, BackupMetadata)>,
    incrementals: Seq<(String, BackupMetadata)>,
    i: int,
    j: int,
)
    requires
        0 <= i < grouped(fulls, incrementals).len(),
        0 <= j < grouped(fulls, incrementals)[i].incrementals.len(),
    ensures
        base_is_known(grouped(fulls, incrementals)[i].incrementals[j], fulls, incrementals),
{
    let k = lemma_grouped_chain(fulls, incrementals, i);
    lemma_sorted(incrementals);
    lemma_bases_are_known(fulls, sorted(incrementals));
    let all = all_attached(bare_chains(fulls), sorted(incrementals));
    let e = all[k].incrementals[j];
    assert(base_is_known(e, fulls, sorted(incrementals)));
    let base = e.1.base()->0;
    if names_one_of(base, sorted(incrementals)) {
        let m = choose|m: int|
            0 <= m < sorted(incrementals).len() && same_path(
                (#[trigger] sorted(incrementals)[m]).0@,
                base,
            );
        let b = sorted(incrementals)[m];
        assert(sorted(incrementals).contains(b));
        lemma_same_values(sorted(incrementals), incrementals, b);
        let n = choose|n: int| 0 <= n < incrementals.len() && incrementals[n] == b;
        assert(same_path(incrementals[n].0@, base));
    }
}

/// Which full backup a path names depends on the full backups alone.
proof fn lemma_full_named_depends_on_fulls(
    a: Seq<ChainModel>,
    b: Seq<ChainModel>,
    base: Seq<char>,
)
    requires
        a.len() == b.len(),
        forall|i: int| 0 <= i < a.len() ==> (#[trigger] a[i]).full_path == b[i].full_path,
    ensures
        full_named(a, base) == full_named(b, base),
    decreases a.len(),
{
    if a.len() > 0 {
        assert(a[0].full_path == b[0].full_path);
        assert forall|i: int| 0 <= i < a.skip(1).len() implies (
        #[trigger] a.skip(1)[i]).full_path == b.skip(1)[i].full_path by {
            assert(a[i + 1].full_path == b[i + 1].full_path);
        }
        lemma_full_named_depends_on_fulls(a.skip(1), b.skip(1), base);
    }
}

/// Once a backup stands in a chain, it stays there.
proof fn lemma_direct_incremental_is_attached(
    fulls: Seq<(String, BackupMetadata)>,
    backups: Seq<(String, BackupMetadata)>,
    n: int,
) -> (i: int)
    requires
        0 <= n < backups.len(),
        backups[n].1.base() is Some,
        full_named(bare_chains(fulls), backups[n].1.base()->0) is Some,
    ensures
        0 <= i < all_attached(bare_chains(fulls), backups).len(),
        all_attached(bare_chains(fulls), backups)[i].full_path == full_named(
            bare_chains(fulls),
            backups[n].1.base()->0,
        )->0,
        all_attached(bare_chains(fulls), backups)[i].incrementals.contains(backups[n]),
    decreases backups.len(),
{
    let bare = bare_chains(fulls);
    let rest = backups.drop_last();
    let before = all_attached(bare, rest);
    let after = all_attached(bare, backups);
    let base = backups[n].1.base()->0;
    let path = full_named(bare, base)->0;
    lemma_all_attached_keeps_fulls(bare, rest);
    if n == backups.len() - 1 {
        lemma_full_named_depends_on_fulls(before, bare, base);
        lemma_full_named(before, base);
        lemma_chain_position(before, path);
        let at = chain_position(before, path) as int;
        let i = choose|i: int| 0 <= i < before.len() && (#[trigger] before[i]).full_path == path;
        assert(!(i < at));
        let c = before[at].incrementals;
        assert(after[at].incrementals == c.push(backups[n]));
        assert(after[at].incrementals[c.len() as int] == backups[n]);
        at
    } else {
        assert(rest[n] == backups[n]);
        let i = lemma_direct_incremental_is_attached(fulls, rest, n);
        let c = before[i].incrementals;
        let k = choose|k: int| 0 <= k < c.len() && c[k] == backups[n];
        assert(after[i].incrementals[k] == backups[n]);
        i
    }
}

/// An incremental that is based on a full backup stands in that full backup's chain.
pub proof fn law_direct_incrementals_join(
    fulls: Seq<(String, BackupMetadata)>,
    incrementals: Seq<(String, BackupMetadata)>,
    n: int,
)
    requires
        0 <= n < incrementals.len(),
        incrementals[n].1.base() is Some,
        full_named(bare_chains(fulls), incrementals[n].1.base()->0) is Some,
    ensures
        exists|i: int|
            0 <= i < grouped(fulls, incrementals).len() && (#[trigger] grouped(
                fulls,
                incrementals,
            )[i]).full_path == full_named(bare_chains(fulls), incrementals[n].1.base()->0)->0
                && grouped(fulls, incrementals)[i].incrementals.contains(incrementals[n]),
{
    lemma_sorted(incrementals);
    let b = incrementals[n];
    assert(incrementals.contains(b));
    lemma_same_values(incrementals, sorted(incrementals), b);
    let m = choose|m: int| 0 <= m < sorted(incrementals).len() && sorted(incrementals)[m] == b;
    let k = lemma_direct_incremental_is_attached(fulls, sorted(incrementals), m);
    let i = lemma_chain_is_grouped(fulls, incrementals, k);
    assert(grouped(fulls, incrementals)[i].incrementals.contains(b));
}

/// Whether each incremental is based on the one before it, and the first on the full backup.
pub open spec fn is_deep_chain(
    full: (String, BackupMetadata),
    incrementals: Seq<(String, BackupMetadata)>,
) -> bool {
    forall|k: int|
        0 <= k < incrementals.len() ==> (#[trigger] incrementals[k]).1.base() is Some && same_path(
            incrementals[k].1.base()->0,
            if k == 0 {
                full.0@
            } else {
                incrementals[k - 1].0@
            },
        )
}

/// A deep chain is found as a whole, however many incrementals it has: where each is based on the
/// one before it, all of them stand in the chain of the full backup that the first is based on.
pub proof fn law_deep_chains_are_found(
    full: (String, BackupMetadata),
    incrementals: Seq<(String, BackupMetadata)>,
)
    requires
        is_deep_chain(full, incrementals),
        is_ordered(incrementals),
        distinct_paths(incrementals),
        !names_one_of(full.0@, incrementals),
    ensures
        grouped(seq![full], incrementals) == seq![
            ChainModel { full_path: full.0@, full: full.1, incrementals },
        ],
{
    crate::order::lemma_sorted_is_unchanged(incrementals);
    lemma_deep_chain_grows(full, incrementals, incrementals.len() as int);
    assert(incrementals.take(incrementals.len() as int) =~= incrementals);
    crate::order::lemma_sorted_is_unchanged(
        seq![ChainModel { full_path: full.0@, full: full.1, incrementals }],
    );
}

proof fn lemma_deep_chain_grows(
    full: (String, BackupMetadata),
    incrementals: Seq<(String, BackupMetadata)>,
    n: int,
)
    requires
        0 <= n <= incrementals.len(),
        is_deep_chain(full, incrementals),
        distinct_paths(incrementals),
        !names_one_of(full.0@, incrementals),
    ensures
        all_attached(bare_chains(seq![full]), incrementals.take(n)) == seq![
            ChainModel { full_path: full.0@, full: full.1, incrementals: incrementals.take(n) },
        ],
    decreases n,
{
    let bare = bare_chains(seq![full]);
    let now = ChainModel {
        full_path: full.0@,
        full: full.1,
        incrementals: incrementals.take(n),
    };
    if n == 0 {
        assert(incrementals.take(0) =~= Seq::<(String, BackupMetadata)>::empty());
        assert(bare =~= seq![now]);
    } else {
        lemma_deep_chain_grows(full, incrementals, n - 1);
        let c = ChainModel {
            full_path: full.0@,
            full: full.1,
            incrementals: incrementals.take(n - 1),
        };
        let before = seq![c];
        let last = incrementals[n - 1];
        assert(incrementals.take(n).drop_last() =~= incrementals.take(n - 1));
        assert(incrementals.take(n).last() == last);
        let base = last.1.base()->0;
        assert(before.skip(1).len() == 0);
        assert(links(before.skip(1)) == Seq::<Link>::empty());
        assert(links(before) == chain_links(before[0]) + links(before.skip(1)));
        assert(links(before) =~= chain_links(c));
        let s = links(before);
        if n == 1 {
            assert(full_named(before, base) == Some(full.0@));
        } else {
            assert(same_path(base, incrementals[n - 2].0@));
            assert(!same_path(incrementals[n - 2].0@, full.0@));
            assert(full_named(before.skip(1), base) is None);
            assert(full_named(before, base) is None);
            assert forall|i: int, j: int| 0 <= i < j < s.len() implies !same_path(
                (#[trigger] s[i]).path,
                (#[trigger] s[j]).path,
            ) by {
                assert(!same_path(incrementals[i].0@, incrementals[j].0@));
            }
            assert forall|m: int| 0 <= m < s.len() implies (#[trigger] s[m]).full_path == full.0@
                && s[m].base is Some && same_path(
                s[m].base->0,
                if m == 0 {
                    full.0@
                } else {
                    s[m - 1].path
                },
            ) && leads_back_from(s, s[m], m) by {
                assert(incrementals[m].1.base() is Some);
                if m > 0 {
                    assert(same_path(s[m - 1].path, s[m].base->0));
                }
            }
            lemma_trace_reaches(s, base, n - 2, s.len() + 1);
        }
        assert(chain_of(before, last.1) == Some(full.0@));
        assert(chain_position(before, full.0@) == 0);
        assert(extended(c, last).incrementals =~= incrementals.take(n));
        assert(attached(before, last) =~= seq![now]);
    }
}

} // verus!
