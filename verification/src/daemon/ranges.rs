//! Address ranges: ordering, merging and coverage.
use vstd::prelude::*;
use vstd::relations::{antisymmetric, reflexive, sorted_by, strongly_connected, total_ordering, transitive};

verus! {

/// Pairs in the order of their first numbers, then their second.
pub open spec fn pair_leq() -> spec_fn((u64, u64), (u64, u64)) -> bool {
    |a: (u64, u64), b: (u64, u64)| a.0 < b.0 || (a.0 == b.0 && a.1 <= b.1)
}

/// The pairs of `v` in order.
pub open spec fn sorted_pairs(v: Seq<(u64, u64)>) -> Seq<(u64, u64)> {
    v.sort_by(pair_leq())
}

proof fn lemma_pair_order()
    ensures
        total_ordering(pair_leq()),
{
    let r = pair_leq();
    assert(reflexive(r));
    assert(antisymmetric(r));
    assert(transitive(r));
    assert(strongly_connected(r));
}

/// Sorting keeps the pairs, each as often as it was there, and orders them.
pub proof fn lemma_sorted_pairs(v: Seq<(u64, u64)>)
    ensures
        sorted_by(sorted_pairs(v), pair_leq()),
        sorted_pairs(v).len() == v.len(),
        forall|x: (u64, u64)| #[trigger] sorted_pairs(v).contains(x) <==> v.contains(x),
{
    broadcast use vstd::seq_lib::group_to_multiset_ensures;

    lemma_pair_order();
    v.lemma_sort_by_ensures(pair_leq());
    let s = sorted_pairs(v);
    assert(s.to_multiset() == v.to_multiset());
    assert(s.to_multiset().len() == s.len());
    assert forall|x: (u64, u64)| #[trigger] s.contains(x) <==> v.contains(x) by {
        assert(s.to_multiset().count(x) == v.to_multiset().count(x));
    }
}

/// Sorts pairs.
pub fn sort_pairs(v: &[(u64, u64)]) -> (r: Vec<(u64, u64)>)
    ensures
        r@ == sorted_pairs(v@),
{
    broadcast use vstd::seq_lib::group_to_multiset_ensures;

    let mut r: Vec<(u64, u64)> = Vec::new();
    let mut i: usize = 0;
    proof { assert(v@.take(0) =~= r@); }
    while i < v.len()
        invariant
            i <= v@.len(),
            sorted_by(r@, pair_leq()),
            r@.to_multiset() == v@.take(i as int).to_multiset(),
        decreases v@.len() - i,
    {
        let x = v[i];
        let ghost before = r@;
        let mut p: usize = 0;
        while p < r.len() && (r[p].0 < x.0 || (r[p].0 == x.0 && r[p].1 <= x.1))
            invariant
                r@ == before,
                sorted_by(r@, pair_leq()),
                p <= r@.len(),
                forall|j: int| 0 <= j < p ==> #[trigger] pair_leq()(r@[j], x),
            decreases r@.len() - p,
        {
            p = p + 1;
        }
        r.insert(p, x);
        proof {
            assert(v@.take(i + 1) =~= v@.take(i as int).push(x));
            let leq = pair_leq();
            assert forall|a: int, b: int| 0 <= a < b < r@.len() implies #[trigger] leq(
                r@[a],
                r@[b],
            ) by {
                let a2 = if a < p { a } else { a - 1 };
                let b2 = if b < p { b } else { b - 1 };
                if a != p {
                    assert(r@[a] == before[a2]);
                }
                if b != p {
                    assert(r@[b] == before[b2]);
                }
                if a == p {
                    assert(leq(x, before[p as int]));
                    if b2 > p {
                        assert(leq(before[p as int], before[b2]));
                    }
                } else if b == p {
                    assert(leq(before[a2], x));
                } else {
                    assert(leq(before[a2], before[b2]));
                }
            }
            vstd::seq_lib::to_multiset_insert(before, p as int, x);
            vstd::seq_lib::to_multiset_build(v@.take(i as int), x);
        }
        i = i + 1;
    }
    proof {
        assert(v@.take(v@.len() as int) =~= v@);
        lemma_pair_order();
        v@.lemma_sort_by_ensures(pair_leq());
        vstd::seq_lib::lemma_sorted_unique(r@, sorted_pairs(v@), pair_leq());
    }
    r
}

/// `v` without an element that equals the one before it.
pub open spec fn without_repeats(v: Seq<(u64, u64)>) -> Seq<(u64, u64)>
    decreases v.len(),
{
    if v.len() <= 1 {
        v
    } else {
        let front = without_repeats(v.drop_last());
        if v.last() == v[v.len() - 2] {
            front
        } else {
            front.push(v.last())
        }
    }
}

/// Leaving out repeats keeps every pair.
pub proof fn lemma_without_repeats(v: Seq<(u64, u64)>)
    ensures
        forall|x: (u64, u64)| #[trigger] without_repeats(v).contains(x) <==> v.contains(x),
    decreases v.len(),
{
    if v.len() > 1 {
        let front = without_repeats(v.drop_last());
        lemma_without_repeats(v.drop_last());
        assert forall|x: (u64, u64)| #[trigger] without_repeats(v).contains(x) <==> v.contains(x) by {
            if v.contains(x) {
                let i = choose|i: int| 0 <= i < v.len() && v[i] == x;
                if i < v.len() - 1 {
                    assert(v.drop_last()[i] == x);
                    assert(front.contains(x));
                } else {
                    if v.last() == v[v.len() - 2] {
                        assert(v.drop_last()[v.len() - 2] == x);
                        assert(front.contains(x));
                    }
                }
                if front.contains(x) && v.last() != v[v.len() - 2] {
                    let j = choose|j: int| 0 <= j < front.len() && front[j] == x;
                    assert(front.push(v.last())[j] == x);
                } else if !front.contains(x) {
                    assert(front.push(v.last())[front.len() as int] == x);
                }
            }
            if without_repeats(v).contains(x) {
                if front.contains(x) {
                    assert(v.drop_last().contains(x));
                    let j = choose|j: int| 0 <= j < v.len() - 1 && v.drop_last()[j] == x;
                    assert(v[j] == x);
                } else {
                    let j = choose|j: int|
                        0 <= j < without_repeats(v).len() && without_repeats(v)[j] == x;
                    if j < front.len() {
                        assert(front[j] == x);
                    }
                    assert(v[v.len() - 1] == x);
                }
            }
        }
    }
}

/// Drops repeats.
pub fn dedup_pairs(v: &[(u64, u64)]) -> (r: Vec<(u64, u64)>)
    ensures
        r@ == without_repeats(v@),
{
    let mut r: Vec<(u64, u64)> = Vec::new();
    let mut i: usize = 0;
    proof { assert(without_repeats(v@.take(0)) =~= r@); }
    while i < v.len()
        invariant
            i <= v@.len(),
            r@ == without_repeats(v@.take(i as int)),
        decreases v@.len() - i,
    {
        proof {
            assert(v@.take(i + 1).drop_last() =~= v@.take(i as int));
            assert(v@.take(i + 1).last() == v@[i as int]);
            if i == 0 {
                assert(v@.take(1) =~= seq![v@[0]]);
            }
        }
        if i == 0 || v[i].0 != v[i - 1].0 || v[i].1 != v[i - 1].1 {
            r.push(v[i]);
            proof {
                if i == 0 {
                    assert(r@ =~= v@.take(1));
                }
            }
        }
        i = i + 1;
    }
    proof { assert(v@.take(v@.len() as int) =~= v@); }
    r
}

/// Spans that start at or before the end of the one before joined to it.
pub open spec fn merged_spans(v: Seq<(u64, u64)>) -> Seq<(u64, u64)>
    decreases v.len(),
{
    if v.len() == 0 {
        Seq::empty()
    } else {
        let front = merged_spans(v.drop_last());
        let x = v.last();
        if front.len() > 0 && x.0 <= front.last().1 {
            front.drop_last().push(
                (
                    front.last().0,
                    if front.last().1 >= x.1 {
                        front.last().1
                    } else {
                        x.1
                    },
                ),
            )
        } else {
            front.push(x)
        }
    }
}

/// Joins spans, which are pairs of start and end, in order.
pub fn merge_spans(v: &[(u64, u64)]) -> (r: Vec<(u64, u64)>)
    ensures
        r@ == merged_spans(v@),
{
    let mut r: Vec<(u64, u64)> = Vec::new();
    let mut i: usize = 0;
    proof { assert(merged_spans(v@.take(0)) =~= r@); }
    while i < v.len()
        invariant
            i <= v@.len(),
            r@ == merged_spans(v@.take(i as int)),
        decreases v@.len() - i,
    {
        let ghost before = r@;
        proof {
            assert(v@.take(i + 1).drop_last() =~= v@.take(i as int));
            assert(v@.take(i + 1).last() == v@[i as int]);
        }
        let x = v[i];
        let n: usize = r.len();
        if n > 0 && x.0 <= r[n - 1].1 {
            let prior = r[n - 1];
            let end = if prior.1 >= x.1 {
                prior.1
            } else {
                x.1
            };
            r[n - 1] = (prior.0, end);
            proof { assert(r@ =~= before.drop_last().push((prior.0, end))); }
        } else {
            r.push(x);
        }
        i = i + 1;
    }
    proof { assert(v@.take(v@.len() as int) =~= v@); }
    r
}

/// Spans do not end before they start.
pub open spec fn proper(v: Seq<(u64, u64)>) -> bool {
    forall|i: int| 0 <= i < v.len() ==> (#[trigger] v[i]).0 <= v[i].1
}

/// The spans are in order and apart from each other.
pub open spec fn apart(v: Seq<(u64, u64)>) -> bool {
    forall|i: int, j: int|
        #![trigger v[i], v[j]]
        0 <= i < j < v.len() ==> v[i].1 < v[j].0
}

/// Some span of `v` holds the span `x`.
pub open spec fn held(v: Seq<(u64, u64)>, x: (u64, u64)) -> bool {
    exists|i: int| 0 <= i < v.len() && (#[trigger] v[i]).0 <= x.0 && x.1 <= v[i].1
}

/// Joined spans are proper, in order, apart, and hold all the spans they were
/// made of.
pub proof fn lemma_merged(v: Seq<(u64, u64)>)
    requires
        sorted_by(v, pair_leq()),
        proper(v),
    ensures
        proper(merged_spans(v)),
        apart(merged_spans(v)),
        forall|k: int| 0 <= k < v.len() ==> held(merged_spans(v), #[trigger] v[k]),
        v.len() > 0 ==> merged_spans(v).len() > 0 && merged_spans(v).last().0 <= v.last().0,
    decreases v.len(),
{
    if v.len() > 0 {
        let w = v.drop_last();
        let x = v.last();
        let front = merged_spans(w);
        let all = merged_spans(v);
        let n = front.len();
        assert(sorted_by(w, pair_leq())) by {
            assert forall|i: int, j: int| 0 <= i < j < w.len() implies #[trigger] pair_leq()(
                w[i],
                w[j],
            ) by {
                assert(pair_leq()(v[i], v[j]));
            }
        }
        assert(proper(w)) by {
            assert forall|i: int| 0 <= i < w.len() implies (#[trigger] w[i]).0 <= w[i].1 by {
                assert(v[i].0 <= v[i].1);
            }
        }
        lemma_merged(w);
        assert(v[v.len() - 1].0 <= v[v.len() - 1].1);
        if w.len() > 0 {
            assert(pair_leq()(v[v.len() - 2], v[v.len() - 1]));
            assert(w.last() == v[v.len() - 2]);
        } else {
            assert(front.len() == 0);
        }
        if n > 0 {
            assert(front[n - 1].0 <= front[n - 1].1);
        }
        lemma_joined(front, x, all);
        assert forall|k: int| 0 <= k < v.len() implies held(all, #[trigger] v[k]) by {
            if k < w.len() {
                assert(held(front, w[k]));
                lemma_joined_holds(front, x, all, v[k]);
            }
        }
    }
}

proof fn lemma_joined(front: Seq<(u64, u64)>, x: (u64, u64), all: Seq<(u64, u64)>)
    requires
        proper(front),
        apart(front),
        x.0 <= x.1,
        front.len() > 0 ==> front.last().0 <= x.0,
        all == if front.len() > 0 && x.0 <= front.last().1 {
            front.drop_last().push(
                (
                    front.last().0,
                    if front.last().1 >= x.1 {
                        front.last().1
                    } else {
                        x.1
                    },
                ),
            )
        } else {
            front.push(x)
        },
    ensures
        proper(all),
        apart(all),
        held(all, x),
        all.len() > 0,
        all.last().0 <= x.0,
{
    let n = front.len() as int;
    assert forall|i: int| 0 <= i < all.len() implies (#[trigger] all[i]).0 <= all[i].1 by {
        if i < n {
            assert(front[i].0 <= front[i].1);
        }
    }
    assert forall|i: int, j: int|
        #![trigger all[i], all[j]]
        0 <= i < j < all.len() implies all[i].1 < all[j].0 by {
        if j < n {
            assert(front[i].1 < front[j].0);
        } else if i < n - 1 {
            assert(front[i].1 < front[n - 1].0);
            assert(front[n - 1].0 <= front[n - 1].1);
        }
    }
    assert(all[all.len() - 1].0 <= x.0 && x.1 <= all[all.len() - 1].1);
}

proof fn lemma_joined_holds(
    front: Seq<(u64, u64)>,
    x: (u64, u64),
    all: Seq<(u64, u64)>,
    y: (u64, u64),
)
    requires
        held(front, y),
        all == if front.len() > 0 && x.0 <= front.last().1 {
            front.drop_last().push(
                (
                    front.last().0,
                    if front.last().1 >= x.1 {
                        front.last().1
                    } else {
                        x.1
                    },
                ),
            )
        } else {
            front.push(x)
        },
    ensures
        held(all, y),
{
    let i = choose|i: int|
        0 <= i < front.len() && (#[trigger] front[i]).0 <= y.0 && y.1 <= front[i].1;
    assert(all[i].0 <= y.0 && y.1 <= all[i].1);
}

/// Some span of `v` holds the address `a`.
pub open spec fn spanned(v: Seq<(u64, u64)>, a: int) -> bool {
    exists|i: int| 0 <= i < v.len() && (#[trigger] v[i]).0 <= a < v[i].1
}

/// Joined spans hold no address that the spans they were made of do not hold.
pub proof fn lemma_merged_adds_nothing(v: Seq<(u64, u64)>, a: int)
    requires
        spanned(merged_spans(v), a),
    ensures
        spanned(v, a),
    decreases v.len(),
{
    let all = merged_spans(v);
    let i = choose|i: int| 0 <= i < all.len() && (#[trigger] all[i]).0 <= a < all[i].1;
    let w = v.drop_last();
    let front = merged_spans(w);
    let x = v.last();
    if x.0 <= a < x.1 {
        assert(v[v.len() - 1].0 <= a < v[v.len() - 1].1);
    } else {
        assert(front[i].0 <= a < front[i].1);
        lemma_merged_adds_nothing(w, a);
        let k = choose|k: int| 0 <= k < w.len() && (#[trigger] w[k]).0 <= a < w[k].1;
        assert(v[k] == w[k]);
    }
}

/// The ends of joined spans are ends of the spans they were made of.
pub proof fn lemma_merged_ends(v: Seq<(u64, u64)>, p: spec_fn(u64) -> bool)
    requires
        forall|k: int| 0 <= k < v.len() ==> p((#[trigger] v[k]).0) && p(v[k].1),
    ensures
        forall|i: int|
            0 <= i < merged_spans(v).len() ==> p((#[trigger] merged_spans(v)[i]).0) && p(
                merged_spans(v)[i].1,
            ),
    decreases v.len(),
{
    if v.len() > 0 {
        let w = v.drop_last();
        assert forall|k: int| 0 <= k < w.len() implies p((#[trigger] w[k]).0) && p(w[k].1) by {
            assert(w[k] == v[k]);
        }
        lemma_merged_ends(w, p);
        let front = merged_spans(w);
        let all = merged_spans(v);
        assert(v[v.len() - 1] == v.last());
        assert forall|i: int| 0 <= i < all.len() implies p((#[trigger] all[i]).0) && p(all[i].1) by {
            if i < front.len() {
                assert(p(front[i].0) && p(front[i].1));
            }
        }
    }
}

} // verus!
