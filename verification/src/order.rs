//! Stable sorting.
use vstd::prelude::*;

verus! {

/// A type whose values are put in order by a total preorder.
pub trait Ranked: Sized {
    /// Whether `self` may stand before `other`.
    spec fn ranks_before(self, other: Self) -> bool;

    /// Of two values, one may stand before the other.
    proof fn rank_is_total(a: Self, b: Self)
        ensures
            a.ranks_before(b) || b.ranks_before(a),
    ;

    /// What may stand before a value may stand before everything that this value may stand before.
    proof fn rank_is_transitive(a: Self, b: Self, c: Self)
        requires
            a.ranks_before(b),
            b.ranks_before(c),
        ensures
            a.ranks_before(c),
    ;
}

/// A type whose values can be put in order by executable code.
pub trait Sortable: Ranked {
    /// Whether `self` may stand before `other`.
    fn may_precede(&self, other: &Self) -> (r: bool)
        ensures
            r == self.ranks_before(*other),
    ;
}

/// Whether each value of `s` may stand before all that follow it.
pub open spec fn is_ordered<T: Ranked>(s: Seq<T>) -> bool {
    forall|i: int, j: int| 0 <= i < j < s.len() ==> #[trigger] s[i].ranks_before(#[trigger] s[j])
}

/// Whether `a` and `b` rank the same.
pub open spec fn same_rank<T: Ranked>(a: T, b: T) -> bool {
    a.ranks_before(b) && b.ranks_before(a)
}

/// The values of `s` that rank the same as `x`, in the order in which they stand in `s`.
pub open spec fn of_rank<T: Ranked>(s: Seq<T>, x: T) -> Seq<T> {
    s.filter(|e: T| same_rank(e, x))
}

/// How many values at the start of `s` may stand before `x`.
pub open spec fn rank_position<T: Ranked>(s: Seq<T>, x: T) -> nat
    decreases s.len(),
{
    if s.len() > 0 && s[0].ranks_before(x) {
        1 + rank_position(s.skip(1), x)
    } else {
        0
    }
}

/// `s` sorted: values that rank the same keep their order.
pub open spec fn sorted<T: Ranked>(s: Seq<T>) -> Seq<T>
    decreases s.len(),
{
    if s.len() == 0 {
        s
    } else {
        let before = sorted(s.drop_last());
        before.insert(rank_position(before, s.last()) as int, s.last())
    }
}

/// All values before the position of `x` may stand before `x`; the one at it may not.
pub proof fn lemma_rank_position<T: Ranked>(s: Seq<T>, x: T)
    ensures
        rank_position(s, x) <= s.len(),
        forall|i: int| 0 <= i < rank_position(s, x) ==> (#[trigger] s[i]).ranks_before(x),
        rank_position(s, x) < s.len() ==> !s[rank_position(s, x) as int].ranks_before(x),
    decreases s.len(),
{
    if s.len() > 0 && s[0].ranks_before(x) {
        lemma_rank_position(s.skip(1), x);
        assert forall|i: int| 0 <= i < rank_position(s, x) implies (#[trigger] s[i]).ranks_before(
            x,
        ) by {
            if i > 0 {
                assert(s[i] == s.skip(1)[i - 1]);
            }
        }
    }
}

/// A sorted sequence has its values in order, holds exactly the values of the unsorted one, and
/// keeps the order of values that rank the same.
pub proof fn lemma_sorted<T: Ranked>(s: Seq<T>)
    ensures
        is_ordered(sorted(s)),
        sorted(s).len() == s.len(),
        sorted(s).to_multiset() == s.to_multiset(),
        forall|x: T| #[trigger] of_rank(sorted(s), x) == of_rank(s, x),
    decreases s.len(),
{
    broadcast use vstd::seq_lib::group_to_multiset_ensures;

    if s.len() > 0 {
        let rest = s.drop_last();
        let last = s.last();
        let before = sorted(rest);
        let at = rank_position(before, last) as int;
        lemma_sorted(rest);
        lemma_rank_position(before, last);
        let r = sorted(s);
        assert(r == before.insert(at, last));
        assert forall|i: int| at <= i < before.len() implies last.ranks_before(#[trigger] before[i])
            && !before[i].ranks_before(last) by {
            T::rank_is_total(before[at], last);
            if i > at {
                T::rank_is_transitive(last, before[at], before[i]);
                if before[i].ranks_before(last) {
                    T::rank_is_transitive(before[at], before[i], last);
                }
            }
        }
        assert forall|i: int, j: int| 0 <= i < j < r.len() implies #[trigger] r[i].ranks_before(
            #[trigger] r[j],
        ) by {
            let a = if i < at {
                before[i]
            } else if i == at {
                last
            } else {
                before[i - 1]
            };
            let b = if j < at {
                before[j]
            } else if j == at {
                last
            } else {
                before[j - 1]
            };
            assert(r[i] == a && r[j] == b);
        }
        assert(rest.push(last) =~= s);
        assert forall|x: T| #[trigger] of_rank(r, x) == of_rank(s, x) by {
            let p = |e: T| same_rank(e, x);
            let head = before.take(at);
            let tail = before.skip(at);
            let one = seq![last];
            assert(r =~= head + one + tail);
            assert(before =~= head + tail);
            assert(s =~= rest + one);
            Seq::filter_distributes_over_add(head + one, tail, p);
            Seq::filter_distributes_over_add(head, one, p);
            Seq::filter_distributes_over_add(head, tail, p);
            Seq::filter_distributes_over_add(rest, one, p);
            assert(of_rank(before, x) == of_rank(rest, x));
            if p(last) {
                assert forall|i: int| 0 <= i < tail.len() implies !p(#[trigger] tail[i]) by {
                    assert(tail[i] == before[at + i]);
                    if p(tail[i]) {
                        T::rank_is_transitive(before[at + i], x, last);
                    }
                }
                lemma_filter_nothing(tail, p);
                assert(head.filter(p) + one.filter(p) + tail.filter(p) =~= head.filter(p)
                    + tail.filter(p) + one.filter(p));
            } else {
                reveal_with_fuel(Seq::filter, 2);
                assert(one.drop_last() =~= Seq::<T>::empty());
                assert(one.filter(p) =~= Seq::<T>::empty());
                assert(head.filter(p) + one.filter(p) + tail.filter(p) =~= head.filter(p)
                    + tail.filter(p) + one.filter(p));
            }
        }
    }
}

/// Sorting leaves a sequence that is in order as it is.
pub proof fn lemma_sorted_is_unchanged<T: Ranked>(s: Seq<T>)
    requires
        is_ordered(s),
    ensures
        sorted(s) == s,
    decreases s.len(),
{
    if s.len() > 0 {
        let rest = s.drop_last();
        assert forall|i: int, j: int| 0 <= i < j < rest.len() implies (
        #[trigger] rest[i]).ranks_before(#[trigger] rest[j]) by {
            assert(rest[i] == s[i] && rest[j] == s[j]);
        }
        lemma_sorted_is_unchanged(rest);
        lemma_rank_position(rest, s.last());
        let at = rank_position(rest, s.last()) as int;
        if at < rest.len() {
            assert(s[at].ranks_before(s[s.len() - 1]));
        }
        assert(rest.insert(at, s.last()) =~= s);
    }
}

proof fn lemma_rank_position_map<A: Ranked, B: Ranked>(s: Seq<A>, f: spec_fn(A) -> B, x: A)
    requires
        forall|a: A, b: A| #[trigger] a.ranks_before(b) == f(a).ranks_before(f(b)),
    ensures
        rank_position(s, x) == rank_position(s.map_values(f), f(x)),
    decreases s.len(),
{
    assert(s.len() > 0 ==> s[0].ranks_before(x) == f(s[0]).ranks_before(f(x)));
    if s.len() > 0 && s[0].ranks_before(x) {
        lemma_rank_position_map(s.skip(1), f, x);
        assert(s.map_values(f).skip(1) =~= s.skip(1).map_values(f));
    }
}

/// Sorting commutes with a change of representation that keeps the order.
pub proof fn lemma_sorted_map<A: Ranked, B: Ranked>(s: Seq<A>, f: spec_fn(A) -> B)
    requires
        forall|a: A, b: A| #[trigger] a.ranks_before(b) == f(a).ranks_before(f(b)),
    ensures
        sorted(s).map_values(f) == sorted(s.map_values(f)),
    decreases s.len(),
{
    if s.len() > 0 {
        let before = sorted(s.drop_last());
        let last = s.last();
        lemma_sorted_map(s.drop_last(), f);
        lemma_rank_position(before, last);
        lemma_rank_position_map(before, f, last);
        assert(s.map_values(f).drop_last() =~= s.drop_last().map_values(f));
        assert(before.insert(rank_position(before, last) as int, last).map_values(f)
            =~= before.map_values(f).insert(rank_position(before, last) as int, f(last)));
    } else {
        assert(s.map_values(f) =~= Seq::<B>::empty());
        assert(sorted(s).map_values(f) =~= Seq::<B>::empty());
    }
}

/// Sorting changes nothing about what the values stand for, however often that occurs.
pub proof fn lemma_sorted_keeps_images<T: Ranked, B>(s: Seq<T>, f: spec_fn(T) -> B)
    ensures
        sorted(s).map_values(f).to_multiset() == s.map_values(f).to_multiset(),
    decreases s.len(),
{
    broadcast use vstd::seq_lib::group_to_multiset_ensures;

    if s.len() > 0 {
        let before = sorted(s.drop_last());
        let last = s.last();
        let at = rank_position(before, last) as int;
        lemma_sorted_keeps_images(s.drop_last(), f);
        lemma_rank_position(before, last);
        assert(sorted(s).map_values(f) =~= before.map_values(f).insert(at, f(last)));
        assert(s.map_values(f) =~= s.drop_last().map_values(f).push(f(last)));
    } else {
        assert(sorted(s).map_values(f) =~= s.map_values(f));
    }
}

/// Whether no two values of `s` rank the same.
pub open spec fn distinct_ranks<T: Ranked>(s: Seq<T>) -> bool {
    forall|i: int, j: int|
        0 <= i < j < s.len() ==> !same_rank(#[trigger] s[i], #[trigger] s[j])
}

/// Two sequences with the same values hold them at some place each.
pub proof fn lemma_same_values<T>(a: Seq<T>, b: Seq<T>, x: T)
    requires
        a.to_multiset() == b.to_multiset(),
        a.contains(x),
    ensures
        b.contains(x),
{
    broadcast use vstd::seq_lib::group_to_multiset_ensures;

    assert(a.to_multiset().count(x) > 0);
}

/// Where no two values of a sequence are related, no two values of a sequence with the same values
/// are.
pub proof fn lemma_permuted_are_unrelated<T>(a: Seq<T>, b: Seq<T>, related: spec_fn(T, T) -> bool)
    requires
        a.to_multiset() == b.to_multiset(),
        forall|x: T| #[trigger] related(x, x),
        forall|x: T, y: T| #[trigger] related(x, y) ==> related(y, x),
        forall|i: int, j: int|
            0 <= i < j < a.len() ==> !related(#[trigger] a[i], #[trigger] a[j]),
    ensures
        forall|i: int, j: int|
            0 <= i < j < b.len() ==> !related(#[trigger] b[i], #[trigger] b[j]),
{
    assert(a.no_duplicates()) by {
        assert forall|i: int, j: int|
            0 <= i < a.len() && 0 <= j < a.len() && i != j implies a[i] != a[j] by {
            assert(related(a[i], a[i]));
            if i < j {
                assert(!related(a[i], a[j]));
            } else {
                assert(!related(a[j], a[i]));
            }
        }
    }
    a.lemma_multiset_has_no_duplicates();
    b.lemma_multiset_has_no_duplicates_conv();
    assert forall|i: int, j: int| 0 <= i < j < b.len() implies !related(
        #[trigger] b[i],
        #[trigger] b[j],
    ) by {
        assert(b.contains(b[i]) && b.contains(b[j]));
        lemma_same_values(b, a, b[i]);
        lemma_same_values(b, a, b[j]);
        let x = choose|x: int| 0 <= x < a.len() && a[x] == b[i];
        let y = choose|y: int| 0 <= y < a.len() && a[y] == b[j];
        assert(x != y);
        if x < y {
            assert(!related(a[x], a[y]));
        } else {
            assert(!related(a[y], a[x]));
        }
    }
}

/// A sequence with the same values as one in which no two rank the same is such a sequence.
pub proof fn lemma_permuted_ranks_are_distinct<T: Ranked>(a: Seq<T>, b: Seq<T>)
    requires
        a.to_multiset() == b.to_multiset(),
        distinct_ranks(a),
    ensures
        distinct_ranks(b),
{
    let related = |x: T, y: T| same_rank(x, y);
    assert forall|x: T| #[trigger] related(x, x) by {
        T::rank_is_total(x, x);
    }
    assert forall|i: int, j: int| 0 <= i < j < a.len() implies !related(
        #[trigger] a[i],
        #[trigger] a[j],
    ) by {
        assert(!same_rank(a[i], a[j]));
    }
    lemma_permuted_are_unrelated(a, b, related);
    assert forall|i: int, j: int| 0 <= i < j < b.len() implies !same_rank(
        #[trigger] b[i],
        #[trigger] b[j],
    ) by {
        assert(!related(b[i], b[j]));
    }
}

/// There is only one order for values of which no two rank the same.
proof fn lemma_order_is_unique<T: Ranked>(a: Seq<T>, b: Seq<T>)
    requires
        is_ordered(a),
        is_ordered(b),
        distinct_ranks(a),
        distinct_ranks(b),
        forall|x: T| #[trigger] a.contains(x) <==> b.contains(x),
    ensures
        a == b,
    decreases a.len(),
{
    if a.len() == 0 {
        if b.len() > 0 {
            assert(b.contains(b[0]));
            assert(a.contains(b[0]));
        }
        assert(a =~= b);
    } else {
        let x = a.last();
        assert(a[a.len() - 1] == x);
        assert(a.contains(x));
        let y = b.last();
        assert(b[b.len() - 1] == y);
        assert(b.contains(y));
        assert(a.contains(y));
        let p = choose|p: int| 0 <= p < b.len() && b[p] == x;
        let q = choose|q: int| 0 <= q < a.len() && a[q] == y;
        if x != y {
            assert(b[p].ranks_before(b[b.len() - 1]));
            assert(a[q].ranks_before(a[a.len() - 1]));
            assert(!same_rank(b[p], b[b.len() - 1]));
        }
        let c = a.drop_last();
        let d = b.drop_last();
        assert forall|e: T| #[trigger] c.contains(e) <==> d.contains(e) by {
            lemma_first_of_distinct(a, e);
            lemma_first_of_distinct(b, e);
        }
        assert forall|i: int, j: int| 0 <= i < j < c.len() implies (#[trigger] c[i]).ranks_before(
            #[trigger] c[j],
        ) && !same_rank(c[i], c[j]) by {
            assert(a[i].ranks_before(a[j]) && !same_rank(a[i], a[j]));
        }
        assert forall|i: int, j: int| 0 <= i < j < d.len() implies (#[trigger] d[i]).ranks_before(
            #[trigger] d[j],
        ) && !same_rank(d[i], d[j]) by {
            assert(b[i].ranks_before(b[j]) && !same_rank(b[i], b[j]));
        }
        lemma_order_is_unique(c, d);
        assert(a =~= c.push(x));
        assert(b =~= d.push(y));
    }
}

/// Without its last value, a sequence of which no two values rank the same holds the others.
proof fn lemma_first_of_distinct<T: Ranked>(s: Seq<T>, e: T)
    requires
        s.len() > 0,
        distinct_ranks(s),
    ensures
        s.drop_last().contains(e) <==> s.contains(e) && e != s.last(),
{
    let c = s.drop_last();
    if c.contains(e) {
        let i = choose|i: int| 0 <= i < c.len() && c[i] == e;
        assert(s[i] == e);
        assert(!same_rank(s[i], s[s.len() - 1]));
        T::rank_is_total(e, e);
    }
    if s.contains(e) && e != s.last() {
        let i = choose|i: int| 0 <= i < s.len() && s[i] == e;
        assert(c[i] == e);
    }
}

/// Where no two values rank the same, sorting does not depend on the order of what is sorted.
pub proof fn lemma_sorted_depends_on_values<T: Ranked>(a: Seq<T>, b: Seq<T>)
    requires
        distinct_ranks(a),
        distinct_ranks(b),
        forall|x: T| #[trigger] a.contains(x) <==> b.contains(x),
    ensures
        sorted(a) == sorted(b),
{
    lemma_sorted(a);
    lemma_sorted(b);
    lemma_permuted_ranks_are_distinct(a, sorted(a));
    lemma_permuted_ranks_are_distinct(b, sorted(b));
    assert forall|x: T| #[trigger] sorted(a).contains(x) <==> sorted(b).contains(x) by {
        if sorted(a).contains(x) {
            lemma_same_values(sorted(a), a, x);
            assert(a.contains(x));
            lemma_same_values(b, sorted(b), x);
        }
        if sorted(b).contains(x) {
            lemma_same_values(sorted(b), b, x);
            assert(a.contains(x));
            lemma_same_values(a, sorted(a), x);
        }
    }
    lemma_order_is_unique(sorted(a), sorted(b));
}

/// Nothing is left where no value meets the condition.
proof fn lemma_filter_nothing<T>(s: Seq<T>, p: spec_fn(T) -> bool)
    requires
        forall|i: int| 0 <= i < s.len() ==> !p(#[trigger] s[i]),
    ensures
        s.filter(p) == Seq::<T>::empty(),
    decreases s.len(),
{
    reveal(Seq::filter);
    if s.len() > 0 {
        lemma_filter_nothing(s.drop_last(), p);
    }
}

/// Sorts `items`; values that rank the same keep their order.
pub fn sort<T: Sortable>(items: Vec<T>) -> (r: Vec<T>)
    ensures
        r@ == sorted(items@),
{
    let ghost all = items@;
    let mut items = items;
    let mut r: Vec<T> = Vec::new();
    let ghost mut done: int = 0;
    assert(all.take(0) =~= Seq::<T>::empty());
    assert(all.skip(0) =~= all);
    while items.len() > 0
        invariant
            0 <= done <= all.len(),
            items@ == all.skip(done),
            r@ == sorted(all.take(done)),
        decreases items@.len(),
    {
        let item = items.remove(0);
        let mut at: usize = 0;
        let ghost before = r@;
        assert(before.skip(0) =~= before);
        while at < r.len() && r[at].may_precede(&item)
            invariant
                r@ == before,
                at <= r@.len(),
                rank_position(before, item) == at + rank_position(before.skip(at as int), item),
            decreases r@.len() - at,
        {
            assert(before.skip(at as int).skip(1) =~= before.skip(at + 1));
            at = at + 1;
        }
        r.insert(at, item);
        proof {
            assert(all.take(done + 1).drop_last() =~= all.take(done));
            assert(all.take(done + 1).last() == item);
            assert(all.skip(done).skip(1) =~= all.skip(done + 1));
            assert(items@ =~= all.skip(done + 1));
            done = done + 1;
        }
    }
    assert(all.take(done) =~= all);
    r
}

} // verus!
