//! When facts that spread along pairs of keys have got everywhere: each round that
//! changes a map raises the rank of its pairs, and the rank is bounded.
use vstd::prelude::*;

verus! {

/// How much is known at a key.
pub open spec fn level<K, V>(map: Map<K, V>, key: K, weight: spec_fn(V) -> nat) -> nat {
    if map.dom().contains(key) {
        1 + weight(map[key])
    } else {
        0
    }
}

/// How much is known at the keys of the first `count` pairs.
pub open spec fn rank<K, V>(
    map: Map<K, V>,
    pairs: Seq<(K, K)>,
    weight: spec_fn(V) -> nat,
    count: int,
) -> nat
    decreases count,
{
    if count <= 0 {
        0
    } else {
        rank(map, pairs, weight, count - 1) + level(map, pairs[count - 1].0, weight) + level(
            map,
            pairs[count - 1].1,
            weight,
        )
    }
}

/// Whether nothing that is known is lost, and what weighs the same is the same.
pub open spec fn grows<K, V>(
    before: Map<K, V>,
    after: Map<K, V>,
    weight: spec_fn(V) -> nat,
) -> bool {
    forall|k: K| #[trigger]
        before.dom().contains(k) ==> after.dom().contains(k) && weight(before[k]) <= weight(
            after[k],
        ) && (weight(before[k]) == weight(after[k]) ==> before[k] == after[k])
}

/// Whether a key is in one of the pairs.
pub open spec fn is_end<K>(pairs: Seq<(K, K)>, key: K) -> bool {
    exists|i: int| 0 <= i < pairs.len() && ((#[trigger] pairs[i]).0 == key || pairs[i].1 == key)
}

/// Whether two maps are the same but for the keys of the pairs.
pub open spec fn same_beyond<K, V>(
    before: Map<K, V>,
    after: Map<K, V>,
    pairs: Seq<(K, K)>,
) -> bool {
    forall|k: K|
        !is_end(pairs, k) ==> (#[trigger] before.dom().contains(k) == after.dom().contains(k)) && (
        before.dom().contains(k) ==> before[k] == after[k])
}

pub proof fn lemma_grows_on<K, V>(
    a: Map<K, V>,
    b: Map<K, V>,
    c: Map<K, V>,
    weight: spec_fn(V) -> nat,
)
    requires
        grows(a, b, weight),
        grows(b, c, weight),
    ensures
        grows(a, c, weight),
{
    assert forall|k: K| #[trigger] a.dom().contains(k) implies c.dom().contains(k) && weight(a[k])
        <= weight(c[k]) && (weight(a[k]) == weight(c[k]) ==> a[k] == c[k]) by {
        assert(b.dom().contains(k));
    }
}

proof fn lemma_rank<K, V>(
    before: Map<K, V>,
    after: Map<K, V>,
    pairs: Seq<(K, K)>,
    weight: spec_fn(V) -> nat,
    count: int,
)
    requires
        grows(before, after, weight),
        0 <= count <= pairs.len(),
    ensures
        rank(before, pairs, weight, count) <= rank(after, pairs, weight, count),
        rank(before, pairs, weight, count) == rank(after, pairs, weight, count) ==> forall|i: int|
            0 <= i < count ==> level(before, (#[trigger] pairs[i]).0, weight) == level(
                after,
                pairs[i].0,
                weight,
            ) && level(before, pairs[i].1, weight) == level(after, pairs[i].1, weight),
    decreases count,
{
    if count > 0 {
        lemma_rank(before, after, pairs, weight, count - 1);
        let left = pairs[count - 1].0;
        let right = pairs[count - 1].1;
        assert(level(before, left, weight) <= level(after, left, weight)) by {
            if before.dom().contains(left) {
            }
        }
        assert(level(before, right, weight) <= level(after, right, weight)) by {
            if before.dom().contains(right) {
            }
        }
    }
}

/// A round that changes a map raises its rank.
pub proof fn lemma_round_raises<K, V>(
    before: Map<K, V>,
    after: Map<K, V>,
    pairs: Seq<(K, K)>,
    weight: spec_fn(V) -> nat,
)
    requires
        grows(before, after, weight),
        same_beyond(before, after, pairs),
    ensures
        before == after || rank(before, pairs, weight, pairs.len() as int) < rank(
            after,
            pairs,
            weight,
            pairs.len() as int,
        ),
{
    let count = pairs.len() as int;
    lemma_rank(before, after, pairs, weight, count);
    if rank(before, pairs, weight, count) == rank(after, pairs, weight, count) {
        assert forall|k: K| #[trigger] before.dom().contains(k) == after.dom().contains(k) && (
        before.dom().contains(k) ==> before[k] == after[k]) by {
            if is_end(pairs, k) {
                let i = choose|i: int|
                    0 <= i < pairs.len() && ((#[trigger] pairs[i]).0 == k || pairs[i].1 == k);
                assert(level(before, pairs[i].0, weight) == level(after, pairs[i].0, weight));
                assert(level(before, k, weight) == level(after, k, weight));
            }
        }
        assert(before =~= after);
    }
}

/// The rank is bounded by the number of pairs.
pub proof fn lemma_rank_bound<K, V>(
    map: Map<K, V>,
    pairs: Seq<(K, K)>,
    weight: spec_fn(V) -> nat,
    most: nat,
    count: int,
)
    requires
        forall|v: V| #[trigger] weight(v) <= most,
        0 <= count <= pairs.len(),
    ensures
        rank(map, pairs, weight, count) <= count * (2 * (1 + most)),
    decreases count,
{
    if count > 0 {
        lemma_rank_bound(map, pairs, weight, most, count - 1);
        assert(count * (2 * (1 + most)) == (count - 1) * (2 * (1 + most)) + 2 * (1 + most))
            by (nonlinear_arith);
    } else {
        assert(count * (2 * (1 + most)) == 0) by (nonlinear_arith)
            requires
                count == 0,
        ;
    }
}

} // verus!
