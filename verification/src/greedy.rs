//! The greedy initial tour: from position 0, always on to the nearest
//! position that has not been visited yet.

use crate::decimal::{less_than, Dec};
use crate::permutation::{all_distinct, in_range, is_permutation, lemma_short_order_misses};
use crate::solver::is_square;
use vstd::prelude::*;

verus! {

/// Whether, seen from `from`, position `a` is to be visited before position
/// `b`: it is nearer, or as near and has the lower index.
pub open spec fn comes_first(matrix: Seq<Vec<Dec>>, from: int, a: int, b: int) -> bool {
    let to_a = matrix[from]@[a].key();
    let to_b = matrix[from]@[b].key();
    to_a < to_b || (to_a == to_b && a < b)
}

/// Whether entry `step` of `order` is the nearest position to the entry
/// before it among those that the entries before it have left unvisited.
pub open spec fn is_nearest_step(order: Seq<u32>, matrix: Seq<Vec<Dec>>, step: int) -> bool {
    forall|other: int|
        0 <= other < matrix.len() && other != order[step] && !order.take(step).contains(
            other as u32,
        ) ==> #[trigger] comes_first(matrix, order[step - 1] as int, order[step] as int, other)
}

/// Whether `order` is the greedy tour of `matrix`: it starts at position 0,
/// goes on to the nearest unvisited position each time, and so visits every
/// position exactly once.
pub open spec fn is_greedy_tour(order: Seq<u32>, matrix: Seq<Vec<Dec>>) -> bool {
    &&& is_permutation(order, matrix.len())
    &&& order[0] == 0
    &&& forall|step: int| 1 <= step < order.len() ==> #[trigger] is_nearest_step(order, matrix, step)
}

/// Two greedy tours of one matrix agree in their first `upto` entries.
proof fn lemma_greedy_tours_agree(a: Seq<u32>, b: Seq<u32>, matrix: Seq<Vec<Dec>>, upto: nat)
    requires
        is_greedy_tour(a, matrix),
        is_greedy_tour(b, matrix),
        upto <= matrix.len(),
    ensures
        a.take(upto as int) == b.take(upto as int),
    decreases upto,
{
    if upto == 0 {
        assert(a.take(0) =~= b.take(0));
    } else if upto == 1 {
        assert(a.take(1) =~= b.take(1));
    } else {
        let step = (upto - 1) as int;
        lemma_greedy_tours_agree(a, b, matrix, step as nat);
        let before = a.take(step);
        assert(before == b.take(step));
        assert(a[step - 1] == before[step - 1]);
        assert(b[step - 1] == b.take(step)[step - 1]);
        if a[step] != b[step] {
            assert(is_nearest_step(a, matrix, step));
            assert(is_nearest_step(b, matrix, step));
            if before.contains(b[step]) {
                let at = choose|i: int| 0 <= i < before.len() && before[i] == b[step];
                assert(b.take(step)[at] == b[at]);
                assert(b[at] != b[step]);
            }
            if before.contains(a[step]) {
                let at = choose|i: int| 0 <= i < before.len() && before[i] == a[step];
                assert(a.take(step)[at] == a[at]);
                assert(a[at] != a[step]);
            }
            assert(b[step] < matrix.len());
            assert(a[step] < matrix.len());
            assert(comes_first(matrix, a[step - 1] as int, a[step] as int, b[step] as int));
            assert(comes_first(matrix, b[step - 1] as int, b[step] as int, a[step] as int));
        }
        assert(a.take(upto as int) =~= b.take(upto as int));
    }
}

/// A matrix has one greedy tour and no other.
pub proof fn lemma_greedy_tour_unique(a: Seq<u32>, b: Seq<u32>, matrix: Seq<Vec<Dec>>)
    requires
        is_greedy_tour(a, matrix),
        is_greedy_tour(b, matrix),
    ensures
        a == b,
{
    lemma_greedy_tours_agree(a, b, matrix, matrix.len());
    assert(a.take(a.len() as int) =~= a);
    assert(b.take(b.len() as int) =~= b);
}

/// The nearest position to `from` among those not marked in `visited`, the
/// lowest of them where several are equally near; `None` where all are marked.
fn nearest_unvisited(matrix: &Vec<Vec<Dec>>, from: usize, visited: &Vec<bool>) -> (found: Option<
    usize,
>)
    requires
        is_square(matrix@),
        from < matrix@.len(),
        visited@.len() == matrix@.len(),
    ensures
        found is None <==> forall|j: int| 0 <= j < visited@.len() ==> visited@[j],
        found matches Some(pick) ==> pick < visited@.len() && !visited@[pick as int] && forall|
            other: int,
        |
            0 <= other < visited@.len() && other != pick && !visited@[other] ==> #[trigger] comes_first(
                matrix@,
                from as int,
                pick as int,
                other,
            ),
{
    let count = matrix.len();
    let row: &Vec<Dec> = &matrix[from];
    let mut best: Option<usize> = None;
    let mut j: usize = 0;
    while j < count
        invariant
            count == matrix@.len(),
            visited@.len() == count,
            from < count,
            row@ == matrix@[from as int]@,
            row@.len() == count,
            j <= count,
            best is None <==> forall|i: int| 0 <= i < j ==> visited@[i],
            best matches Some(pick) ==> pick < j && !visited@[pick as int] && forall|other: int|
                0 <= other < j && other != pick && !visited@[other] ==> #[trigger] comes_first(
                    matrix@,
                    from as int,
                    pick as int,
                    other,
                ),
        decreases count - j,
    {
        if !visited[j] {
            match best {
                None => {
                    best = Some(j);
                },
                Some(pick) => {
                    if less_than(row[j], row[pick]) {
                        assert forall|other: int|
                            0 <= other < j + 1 && other != j && !visited@[other] implies #[trigger] comes_first(
                            matrix@,
                            from as int,
                            j as int,
                            other,
                        ) by {
                            if other != pick {
                                assert(comes_first(matrix@, from as int, pick as int, other));
                            }
                        }
                        best = Some(j);
                    } else {
                        assert(comes_first(matrix@, from as int, pick as int, j as int));
                    }
                },
            }
        }
        j = j + 1;
    }
    best
}

/// The greedy tour of `matrix`: position 0 first, then each time the nearest
/// position not yet visited, the lowest of them where several are equally near.
pub fn greedy_order(matrix: &Vec<Vec<Dec>>) -> (order: Vec<u32>)
    requires
        is_square(matrix@),
        0 < matrix@.len() <= u32::MAX,
    ensures
        is_greedy_tour(order@, matrix@),
{
    let count = matrix.len();
    let mut visited: Vec<bool> = Vec::with_capacity(count);
    let mut filled: usize = 0;
    while filled < count
        invariant
            filled <= count,
            visited@.len() == filled,
            forall|j: int| 0 <= j < filled ==> !visited@[j],
        decreases count - filled,
    {
        visited.push(false);
        filled = filled + 1;
    }
    let mut order: Vec<u32> = Vec::with_capacity(count);
    order.push(0);
    visited.set(0, true);
    let mut current: usize = 0;
    proof {
        assert forall|j: int| 0 <= j < count implies (visited@[j] <==> order@.contains(
            j as u32,
        )) by {
            if j == 0 {
                assert(order@[0] == 0u32);
            } else if order@.contains(j as u32) {
                let at = choose|i: int| 0 <= i < order@.len() && order@[i] == j as u32;
                assert(at == 0);
            }
        }
    }
    while order.len() < count
        invariant
            is_square(matrix@),
            count == matrix@.len(),
            count <= u32::MAX,
            1 <= order@.len() <= count,
            visited@.len() == count,
            in_range(order@, count as nat),
            all_distinct(order@),
            order@[0] == 0,
            current == order@.last(),
            forall|j: int| 0 <= j < count ==> (visited@[j] <==> order@.contains(j as u32)),
            forall|step: int|
                1 <= step < order@.len() ==> #[trigger] is_nearest_step(order@, matrix@, step),
        decreases count - order@.len(),
    {
        let ghost before = order@;
        proof {
            lemma_short_order_misses(order@, count as nat);
            let missing = choose|v: u32| v < count && !order@.contains(v);
            assert(!visited@[missing as int]);
        }
        let pick: usize = match nearest_unvisited(matrix, current, &visited) {
            Some(pick) => pick,
            None => {
                proof {
                    assert(false);
                }
                0
            },
        };
        order.push(pick as u32);
        visited.set(pick, true);
        current = pick;
        proof {
            let step = before.len() as int;
            assert(order@.take(step) =~= before);
            assert(!before.contains(pick as u32));
            assert forall|other: int|
                0 <= other < matrix@.len() && other != order@[step] && !order@.take(step).contains(
                    other as u32,
                ) implies #[trigger] comes_first(
                matrix@,
                order@[step - 1] as int,
                order@[step] as int,
                other,
            ) by {
                assert(!visited@.update(pick as int, true)[other] || other == pick);
            }
            assert(is_nearest_step(order@, matrix@, step));
            assert forall|earlier: int| 1 <= earlier < step implies #[trigger] is_nearest_step(
                order@,
                matrix@,
                earlier,
            ) by {
                assert(is_nearest_step(before, matrix@, earlier));
                assert(order@.take(earlier) =~= before.take(earlier));
            }
            assert forall|j: int| 0 <= j < count implies (visited@[j] <==> order@.contains(
                j as u32,
            )) by {
                if j == pick {
                    assert(order@[step] == j as u32);
                } else if before.contains(j as u32) {
                    let at = choose|i: int| 0 <= i < before.len() && before[i] == j as u32;
                    assert(order@[at] == j as u32);
                } else if order@.contains(j as u32) {
                    let at = choose|i: int| 0 <= i < order@.len() && order@[i] == j as u32;
                    assert(at < step);
                    assert(before[at] == j as u32);
                }
            }
            assert forall|i: int, j: int| 0 <= i < j < order@.len() implies order@[i] != order@[j] by {
                if j == step {
                    assert(before[i] == order@[i]);
                    assert(before.contains(order@[i]));
                } else {
                    assert(before[i] != before[j]);
                }
            }
        }
    }
    order
}

} // verus!
