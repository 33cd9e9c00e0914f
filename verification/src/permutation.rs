//! Orders that visit every position exactly once, and what keeps them so.

use vstd::prelude::*;

verus! {

/// Whether every entry of `order` is a position below `count`.
pub open spec fn in_range(order: Seq<u32>, count: nat) -> bool {
    forall|k: int| 0 <= k < order.len() ==> #[trigger] order[k] < count
}

/// Whether no two entries of `order` are equal.
pub open spec fn all_distinct(order: Seq<u32>) -> bool {
    forall|i: int, j: int| 0 <= i < j < order.len() ==> order[i] != order[j]
}

/// Whether `order` visits each of the positions `0..count` exactly once: it
/// has `count` entries, each below `count`, and no two of them are equal.
pub open spec fn is_permutation(order: Seq<u32>, count: nat) -> bool {
    &&& order.len() == count
    &&& in_range(order, count)
    &&& all_distinct(order)
}

/// The positions `0..count` in rising order.
pub open spec fn identity_order(count: nat) -> Seq<u32> {
    Seq::new(count, |k: int| k as u32)
}

/// `order` with the positions `lo..=hi` in reverse order and every other
/// position untouched.
pub open spec fn reversed_segment(order: Seq<u32>, lo: int, hi: int) -> Seq<u32> {
    Seq::new(
        order.len(),
        |k: int|
            if lo <= k <= hi {
                order[lo + hi - k]
            } else {
                order[k]
            },
    )
}

/// Distinct entries below `count` that are fewer than `count` leave a
/// position out.
pub proof fn lemma_short_order_misses(order: Seq<u32>, count: nat)
    requires
        count <= u32::MAX,
        in_range(order, count),
        all_distinct(order),
        order.len() < count,
    ensures
        exists|v: u32| v < count && !order.contains(v),
    decreases count,
{
    let top = (count - 1) as u32;
    if !order.contains(top) {
        assert(top < count && !order.contains(top));
    } else {
        let at = choose|i: int| 0 <= i < order.len() && order[i] == top;
        let rest = order.remove(at);
        assert forall|k: int| 0 <= k < rest.len() implies #[trigger] rest[k] < (count - 1) as nat by {
            if k < at {
                assert(rest[k] == order[k]);
                assert(order[k] != order[at]);
            } else {
                assert(rest[k] == order[k + 1]);
                assert(order[at] != order[k + 1]);
            }
        }
        assert forall|i: int, j: int| 0 <= i < j < rest.len() implies rest[i] != rest[j] by {
            let from_i = if i < at { i } else { i + 1 };
            let from_j = if j < at { j } else { j + 1 };
            assert(rest[i] == order[from_i]);
            assert(rest[j] == order[from_j]);
        }
        lemma_short_order_misses(rest, (count - 1) as nat);
        let v = choose|v: u32| v < (count - 1) as nat && !rest.contains(v);
        if order.contains(v) {
            let i = choose|i: int| 0 <= i < order.len() && order[i] == v;
            assert(i != at);
            let k = if i < at { i } else { i - 1 };
            assert(rest[k] == v);
            assert(rest.contains(v));
        }
        assert(v < count && !order.contains(v));
    }
}

/// No position is left out: an order that visits the positions `0..count`
/// exactly once holds each of them.
pub proof fn lemma_permutation_covers(order: Seq<u32>, count: nat, position: u32)
    requires
        count <= u32::MAX,
        is_permutation(order, count),
        position < count,
    ensures
        order.contains(position),
    decreases count,
{
    if !order.contains(position) {
        // Exchange `position` and `count - 1` in the entries: what results is
        // still distinct, lies below `count - 1`, and is too long for that.
        let top = (count - 1) as u32;
        let moved = Seq::new(order.len(), |k: int| if order[k] == top { position } else { order[k] });
        assert forall|k: int| 0 <= k < moved.len() implies #[trigger] moved[k] < (count - 1) as nat by {
            assert(order[k] < count);
            assert(order.contains(order[k]));
        }
        assert forall|i: int, j: int| 0 <= i < j < moved.len() implies moved[i] != moved[j] by {
            assert(order[i] != order[j]);
            assert(order.contains(order[i]));
            assert(order.contains(order[j]));
        }
        lemma_distinct_order_fits(moved, (count - 1) as nat);
    }
}

/// Distinct entries below `count` are at most `count`.
pub proof fn lemma_distinct_order_fits(order: Seq<u32>, count: nat)
    requires
        count <= u32::MAX,
        in_range(order, count),
        all_distinct(order),
    ensures
        order.len() <= count,
    decreases count,
{
    if order.len() > 0 {
        if count == 0 {
            assert(order[0] < count);
        } else {
            let top = (count - 1) as u32;
            let rest = if order.contains(top) {
                order.remove(choose|i: int| 0 <= i < order.len() && order[i] == top)
            } else {
                order
            };
            if order.contains(top) {
                let at = choose|i: int| 0 <= i < order.len() && order[i] == top;
                assert forall|k: int| 0 <= k < rest.len() implies #[trigger] rest[k] < (count
                    - 1) as nat by {
                    if k < at {
                        assert(rest[k] == order[k]);
                        assert(order[k] != order[at]);
                    } else {
                        assert(rest[k] == order[k + 1]);
                        assert(order[at] != order[k + 1]);
                    }
                }
                assert forall|i: int, j: int| 0 <= i < j < rest.len() implies rest[i]
                    != rest[j] by {
                    let from_i = if i < at { i } else { i + 1 };
                    let from_j = if j < at { j } else { j + 1 };
                    assert(rest[i] == order[from_i]);
                    assert(rest[j] == order[from_j]);
                }
            } else {
                assert forall|k: int| 0 <= k < rest.len() implies #[trigger] rest[k] < (count
                    - 1) as nat by {
                    assert(order[k] < count);
                    assert(order.contains(order[k]));
                }
            }
            lemma_distinct_order_fits(rest, (count - 1) as nat);
        }
    }
}

/// Reversing a segment of an order that visits every position exactly once
/// gives an order that does so too.
pub proof fn lemma_reversal_keeps_permutation(order: Seq<u32>, count: nat, lo: int, hi: int)
    requires
        is_permutation(order, count),
        0 <= lo <= hi < order.len(),
    ensures
        is_permutation(reversed_segment(order, lo, hi), count),
{
    let turned = reversed_segment(order, lo, hi);
    assert forall|k: int| 0 <= k < turned.len() implies #[trigger] turned[k] < count by {
        let from = if lo <= k <= hi { lo + hi - k } else { k };
        assert(turned[k] == order[from]);
    }
    assert forall|i: int, j: int| 0 <= i < j < turned.len() implies turned[i] != turned[j] by {
        let from_i = if lo <= i <= hi { lo + hi - i } else { i };
        let from_j = if lo <= j <= hi { lo + hi - j } else { j };
        assert(turned[i] == order[from_i]);
        assert(turned[j] == order[from_j]);
        assert(from_i != from_j);
        if from_i < from_j {
            assert(order[from_i] != order[from_j]);
        } else {
            assert(order[from_j] != order[from_i]);
        }
    }
}

/// Reversing a segment of a single position changes nothing.
pub proof fn lemma_reversal_of_one(order: Seq<u32>, at: int)
    ensures
        reversed_segment(order, at, at) == order,
{
    assert(reversed_segment(order, at, at) =~= order);
}

/// Reversing the same segment twice gives the order back.
pub proof fn lemma_reversal_twice(order: Seq<u32>, lo: int, hi: int)
    requires
        0 <= lo <= hi < order.len(),
    ensures
        reversed_segment(reversed_segment(order, lo, hi), lo, hi) == order,
{
    assert(reversed_segment(reversed_segment(order, lo, hi), lo, hi) =~= order);
}

/// An order that holds each of the positions `0..count` as often as the
/// rising order does visits each of them exactly once.
pub proof fn lemma_rearranged_identity(order: Seq<u32>, count: nat)
    requires
        count <= u32::MAX,
        order.to_multiset() == identity_order(count).to_multiset(),
    ensures
        is_permutation(order, count),
{
    let rising = identity_order(count);
    order.to_multiset_ensures();
    rising.to_multiset_ensures();
    assert(rising.no_duplicates());
    rising.lemma_multiset_has_no_duplicates();
    order.lemma_multiset_has_no_duplicates_conv();
    assert forall|k: int| 0 <= k < order.len() implies #[trigger] order[k] < count by {
        assert(order.contains(order[k]));
        assert(order.to_multiset().count(order[k]) > 0);
        assert(rising.to_multiset().count(order[k]) > 0);
        assert(rising.contains(order[k]));
        let at = choose|i: int| 0 <= i < rising.len() && rising[i] == order[k];
        assert(rising[at] == at as u32);
    }
}

} // verus!
