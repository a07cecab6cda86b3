//! Stable ranking: positions ordered by a key, highest first, ties in the given
//! order.

use vstd::prelude::*;

verus! {

/// Position `a` ranks before position `b`.
pub open spec fn before(keys: Seq<int>, a: int, b: int) -> bool {
    keys[a] > keys[b] || (keys[a] == keys[b] && a < b)
}

/// `order` lists every position of `keys` once, highest key first and equal
/// keys in their given order. There is exactly one such list.
pub open spec fn is_ranking(keys: Seq<int>, order: Seq<int>) -> bool {
    &&& order.len() == keys.len()
    &&& forall|i: int| 0 <= i < order.len() ==> 0 <= #[trigger] order[i] < keys.len()
    &&& forall|i: int, j: int|
        0 <= i < j < order.len() ==> before(keys, #[trigger] order[i], #[trigger] order[j])
}

/// The numbers in a list of signed integers.
pub open spec fn ints(v: Seq<i64>) -> Seq<int> {
    Seq::new(v.len(), |i: int| v[i] as int)
}

/// The numbers in a list of positions.
pub open spec fn positions(v: Seq<usize>) -> Seq<int> {
    Seq::new(v.len(), |i: int| v[i] as int)
}

/// Ranks the positions of `keys`.
pub fn rank_desc(keys: &Vec<i64>) -> (r: Vec<usize>)
    ensures
        is_ranking(ints(keys@), positions(r@)),
{
    let mut order: Vec<usize> = Vec::new();
    let ghost all = ints(keys@);
    let n: usize = keys.len();
    let mut i: usize = 0;
    while i < n
        invariant
            n == keys@.len(),
            all == ints(keys@),
            i <= n,
            order@.len() == i,
            forall|k: int| 0 <= k < i ==> 0 <= #[trigger] order@[k] < i,
            forall|j: int, k: int|
                0 <= j < k < i ==> before(
                    all,
                    (#[trigger] order@[j]) as int,
                    (#[trigger] order@[k]) as int,
                ),
        decreases n - i,
    {
        let mut at: usize = i;
        while at > 0 && keys[order[at - 1]] < keys[i]
            invariant
                n == keys@.len(),
                all == ints(keys@),
                i < n,
                at <= i,
                order@.len() == i,
                forall|k: int| 0 <= k < i ==> 0 <= #[trigger] order@[k] < i,
                forall|k: int| at <= k < i ==> all[(#[trigger] order@[k]) as int] < all[i as int],
            decreases at,
        {
            at -= 1;
        }
        let ghost old_order = order@;
        order.insert(at, i);
        proof {
            assert(order@ == old_order.insert(at as int, i));
            let source = |k: int|
                if k < at {
                    k
                } else {
                    k - 1
                };
            assert forall|k: int| 0 <= k < i + 1 implies 0 <= #[trigger] order@[k] < i + 1 by {
                if k != at {
                    assert(order@[k] == old_order[source(k)]);
                }
            }
            if at > 0 {
                assert(all[old_order[at - 1] as int] >= all[i as int]);
            }
            assert forall|j: int, k: int| 0 <= j < k < i + 1 implies before(
                all,
                (#[trigger] order@[j]) as int,
                (#[trigger] order@[k]) as int,
            ) by {
                if j != at {
                    assert(order@[j] == old_order[source(j)]);
                }
                if k != at {
                    assert(order@[k] == old_order[source(k)]);
                }
                if k == at {
                    if j < at - 1 {
                        assert(before(all, old_order[j] as int, old_order[at - 1] as int));
                    }
                } else if j == at {
                    assert(all[old_order[source(k)] as int] < all[i as int]);
                } else {
                    assert(before(all, old_order[source(j)] as int, old_order[source(k)] as int));
                }
            }
        }
        i += 1;
    }
    assert forall|j: int, k: int| 0 <= j < k < positions(order@).len() implies before(
        all,
        #[trigger] positions(order@)[j],
        #[trigger] positions(order@)[k],
    ) by {
        assert(before(all, order@[j] as int, order@[k] as int));
    }
    order
}

/// There is only one ranking of a list of keys.
pub proof fn ranking_is_unique(keys: Seq<int>, a: Seq<int>, b: Seq<int>)
    requires
        is_ranking(keys, a),
        is_ranking(keys, b),
    ensures
        a == b,
{
    assert forall|i: int| 0 <= i < a.len() implies a[i] == b[i] by {
        lemma_same_rank(keys, a, b, i);
    }
}

/// Every position occurs in a ranking.
pub proof fn ranking_covers(keys: Seq<int>, order: Seq<int>, p: int)
    requires
        is_ranking(keys, order),
        0 <= p < keys.len(),
    ensures
        order.contains(p),
{
    if !order.contains(p) {
        let without = Set::new(|q: int| 0 <= q < keys.len() && q != p);
        assert(order.no_duplicates()) by {
            assert forall|i: int, j: int| 0 <= i < order.len() && 0 <= j < order.len() && i
                != j implies order[i] != order[j] by {
                if i < j {
                    assert(before(keys, order[i], order[j]));
                } else {
                    assert(before(keys, order[j], order[i]));
                }
            }
        }
        order.unique_seq_to_set();
        let whole = vstd::set_lib::set_int_range(0, keys.len() as int);
        vstd::set_lib::lemma_int_range(0, keys.len() as int);
        assert(without =~= whole.remove(p));
        assert(order.to_set().subset_of(without)) by {
            assert forall|q: int| order.to_set().contains(q) implies without.contains(q) by {
                let i = choose|i: int| 0 <= i < order.len() && order[i] == q;
                assert(0 <= order[i] < keys.len());
            }
        }
        vstd::set_lib::lemma_len_subset(order.to_set(), without);
    }
}

proof fn lemma_same_rank(keys: Seq<int>, a: Seq<int>, b: Seq<int>, i: int)
    requires
        is_ranking(keys, a),
        is_ranking(keys, b),
        0 <= i < a.len(),
    ensures
        a[i] == b[i],
    decreases i,
{
    if a[i] != b[i] {
        ranking_covers(keys, b, a[i]);
        ranking_covers(keys, a, b[i]);
        let j = choose|j: int| 0 <= j < b.len() && b[j] == a[i];
        let k = choose|k: int| 0 <= k < a.len() && a[k] == b[i];
        if j < i {
            lemma_same_rank(keys, a, b, j);
            assert(a[j] == a[i]);
            assert(before(keys, a[j], a[i]));
        } else if k < i {
            lemma_same_rank(keys, a, b, k);
            assert(b[k] == b[i]);
            assert(before(keys, b[k], b[i]));
        } else {
            assert(before(keys, b[i], b[j]));
            assert(before(keys, a[i], a[k]));
        }
    }
}

} // verus!
