//! The tour model and the search moves on it.

use crate::decimal::{checked_add, checked_powi, checked_sub, root, Dec};
use crate::greedy::{greedy_order, is_greedy_tour};
use crate::permutation::{
    identity_order, in_range, is_permutation, lemma_rearranged_identity,
    lemma_reversal_keeps_permutation, reversed_segment,
};
use crate::random::{position_below, shuffle};
use crate::Error;
use rand::rngs::StdRng;
use vstd::prelude::*;

verus! {

/// A point of the plane, with the number it goes by.
#[derive(Clone, Copy, Debug)]
pub struct Node {
    pub index: u32,
    pub x: Dec,
    pub y: Dec,
}

/// The square of the difference `to - from`.
pub open spec fn squared_difference(from: Dec, to: Dec) -> Option<Dec> {
    match to.difference(from) {
        Some(delta) => delta.power(2),
        None => None,
    }
}

/// The Euclidean distance between two points: the square root of the sum of
/// the squared differences of their coordinates. `None` where the arithmetic
/// overflows or the square root does not settle.
pub open spec fn distance(from: Node, to: Node) -> Option<Dec> {
    match squared_difference(from.x, to.x) {
        Some(across) => match squared_difference(from.y, to.y) {
            Some(along) => match across.sum(along) {
                Some(square) => root(square),
                None => None,
            },
            None => None,
        },
        None => None,
    }
}

impl Node {
    /// The point with the number `index` at the coordinates `x` and `y`.
    pub fn new(index: u32, x: Dec, y: Dec) -> (node: Node)
        ensures
            node == (Node { index, x, y }),
    {
        Node { index, x, y }
    }

    /// The Euclidean distance from this point to `node`.
    pub fn distance_to(&self, node: &Node) -> (found: Option<Dec>)
        ensures
            found == distance(*self, *node),
    {
        let across = match checked_sub(node.x, self.x) {
            Some(delta) => checked_powi(delta, 2),
            None => None,
        };
        let along = match checked_sub(node.y, self.y) {
            Some(delta) => checked_powi(delta, 2),
            None => None,
        };
        match (across, along) {
            (Some(across), Some(along)) => match checked_add(across, along) {
                Some(square) => square.sqrt(),
                None => None,
            },
            _ => None,
        }
    }
}

/// Whether every row of `matrix` is as long as the matrix is high.
pub open spec fn is_square(matrix: Seq<Vec<Dec>>) -> bool {
    forall|i: int| 0 <= i < matrix.len() ==> (#[trigger] matrix[i])@.len() == matrix.len()
}

/// The entry of the distance matrix of `nodes` in row `i` and column `j`:
/// zero on the diagonal, and else the distance between the two points, taken
/// from the one that comes first in `nodes` to the other.
pub open spec fn matrix_entry(nodes: Seq<Node>, i: int, j: int) -> Option<Dec> {
    if i == j {
        Some(Dec::of(0, 0))
    } else if i < j {
        distance(nodes[i], nodes[j])
    } else {
        distance(nodes[j], nodes[i])
    }
}

/// Whether `matrix` is the distance matrix of `nodes`.
pub open spec fn is_distance_matrix(matrix: Seq<Vec<Dec>>, nodes: Seq<Node>) -> bool {
    &&& matrix.len() == nodes.len()
    &&& is_square(matrix)
    &&& forall|i: int, j: int|
        0 <= i < nodes.len() && 0 <= j < nodes.len() ==> Some(#[trigger] matrix[i]@[j])
            == matrix_entry(nodes, i, j)
}

/// A distance matrix is symmetric, and its diagonal is zero.
pub proof fn lemma_distance_matrix_symmetric(matrix: Seq<Vec<Dec>>, nodes: Seq<Node>, i: int, j: int)
    requires
        is_distance_matrix(matrix, nodes),
        0 <= i < nodes.len(),
        0 <= j < nodes.len(),
    ensures
        matrix[i]@[j] == matrix[j]@[i],
        matrix[i]@[i] == Dec::of(0, 0),
        matrix[i]@[i].key() == 0,
{
    assert(Some(matrix[i]@[j]) == matrix_entry(nodes, i, j));
    assert(Some(matrix[j]@[i]) == matrix_entry(nodes, j, i));
    assert(Some(matrix[i]@[i]) == matrix_entry(nodes, i, i));
    Dec::lemma_of_parts(0, 0);
    assert(0 * crate::decimal::pow10((crate::decimal::MAX_SCALE - 0) as nat) == 0);
}

/// Whether the distance between every two of `nodes` can be computed.
pub open spec fn distances_exist(nodes: Seq<Node>) -> bool {
    forall|i: int, j: int| 0 <= i < j < nodes.len() ==> (#[trigger] distance(nodes[i], nodes[j])) is Some
}

/// Row `i` of the distance matrix of `nodes`, given the rows above it: the
/// entries left of the diagonal are read from those rows, the others computed.
fn distance_row(nodes: &Vec<Node>, above: &Vec<Vec<Dec>>, i: usize) -> (found: Option<Vec<Dec>>)
    requires
        i < nodes@.len(),
        above@.len() == i,
        forall|r: int| 0 <= r < i ==> (#[trigger] above@[r])@.len() == nodes@.len(),
        forall|r: int, c: int|
            0 <= r < i && 0 <= c < nodes@.len() ==> Some(#[trigger] above@[r]@[c]) == matrix_entry(
                nodes@,
                r,
                c,
            ),
    ensures
        found is Some <==> forall|c: int|
            i < c < nodes@.len() ==> (#[trigger] distance(nodes@[i as int], nodes@[c])) is Some,
        found matches Some(row) ==> row@.len() == nodes@.len() && forall|c: int|
            0 <= c < nodes@.len() ==> Some(#[trigger] row@[c]) == matrix_entry(nodes@, i as int, c),
{
    let count = nodes.len();
    let mut row: Vec<Dec> = Vec::with_capacity(count);
    let mut c: usize = 0;
    while c < count
        invariant
            count == nodes@.len(),
            i < count,
            c <= count,
            above@.len() == i,
            forall|r: int| 0 <= r < i ==> (#[trigger] above@[r])@.len() == nodes@.len(),
            forall|r: int, k: int|
                0 <= r < i && 0 <= k < nodes@.len() ==> Some(#[trigger] above@[r]@[k])
                    == matrix_entry(nodes@, r, k),
            row@.len() == c,
            forall|k: int| 0 <= k < c ==> Some(#[trigger] row@[k]) == matrix_entry(nodes@, i as int, k),
            forall|k: int|
                i < k < c ==> (#[trigger] distance(nodes@[i as int], nodes@[k])) is Some,
        decreases count - c,
    {
        if c < i {
            row.push(above[c][i]);
        } else if c == i {
            row.push(Dec::zero());
        } else {
            match nodes[i].distance_to(&nodes[c]) {
                Some(d) => row.push(d),
                None => {
                    return None;
                },
            }
        }
        c = c + 1;
    }
    Some(row)
}

/// The length of the path along the first `edges` edges of `order`, summed
/// from the first edge on, starting from zero with one decimal place. `None`
/// where a sum overflows.
pub open spec fn path_length(order: Seq<u32>, matrix: Seq<Vec<Dec>>, edges: nat) -> Option<Dec>
    decreases edges,
{
    if edges == 0 {
        Some(Dec::of(0, 1))
    } else {
        match path_length(order, matrix, (edges - 1) as nat) {
            Some(so_far) => so_far.sum(
                matrix[order[edges - 1] as int]@[order[edges as int] as int],
            ),
            None => None,
        }
    }
}

/// The length of the closed tour `order`: the distances between consecutive
/// entries, then the distance from the last entry back to the first.
pub open spec fn tour_length(order: Seq<u32>, matrix: Seq<Vec<Dec>>) -> Option<Dec> {
    match path_length(order, matrix, (order.len() - 1) as nat) {
        Some(path) => path.sum(matrix[order.last() as int]@[order[0] as int]),
        None => None,
    }
}

/// The length of the closed tour that visits the points in the order of
/// `city_order`, by the distances of `distance_matrix`. `None` where a sum
/// overflows.
pub fn calculate_travel_distance(city_order: &[u32], distance_matrix: &[Vec<Dec>]) -> (length:
    Option<Dec>)
    requires
        city_order@.len() > 0,
        is_square(distance_matrix@),
        in_range(city_order@, distance_matrix@.len()),
    ensures
        length == tour_length(city_order@, distance_matrix@),
{
    let mut score: Dec = Dec::zero_tenths();
    let first_city: u32 = city_order[0];
    let mut prev_city: u32 = first_city;
    let mut k: usize = 1;
    while k < city_order.len()
        invariant
            1 <= k <= city_order@.len(),
            is_square(distance_matrix@),
            in_range(city_order@, distance_matrix@.len()),
            prev_city == city_order@[k - 1],
            first_city == city_order@[0],
            Some(score) == path_length(city_order@, distance_matrix@, (k - 1) as nat),
        decreases city_order@.len() - k,
    {
        let city: u32 = city_order[k];
        let row: &Vec<Dec> = &distance_matrix[prev_city as usize];
        match checked_add(score, row[city as usize]) {
            Some(sum) => {
                score = sum;
            },
            None => {
                proof {
                    lemma_path_overflow_stays(city_order@, distance_matrix@, k as nat);
                }
                return None;
            },
        }
        prev_city = city;
        k = k + 1;
    }
    let row: &Vec<Dec> = &distance_matrix[prev_city as usize];
    checked_add(score, row[first_city as usize])
}

/// Once the path along the first `edges` edges has overflowed, so has the
/// whole tour.
proof fn lemma_path_overflow_stays(order: Seq<u32>, matrix: Seq<Vec<Dec>>, edges: nat)
    requires
        edges < order.len(),
        path_length(order, matrix, edges) is None,
    ensures
        tour_length(order, matrix) is None,
    decreases order.len() - edges,
{
    if edges + 1 < order.len() {
        lemma_path_overflow_stays(order, matrix, edges + 1);
    }
}

/// A tour with its length.
pub struct TspSolution {
    pub city_order: Vec<u32>,
    pub travel_distance: Dec,
}

impl TspSolution {
    /// The tour `city_order` with the length `travel_distance`.
    pub fn new(city_order: Vec<u32>, travel_distance: Dec) -> (solution: TspSolution)
        ensures
            solution.city_order == city_order,
            solution.travel_distance == travel_distance,
    {
        TspSolution { city_order, travel_distance }
    }

    /// Whether this is a tour of the points that `matrix` measures: the order
    /// visits each of them exactly once, and the length is that of the order.
    pub open spec fn is_tour_of(&self, matrix: Seq<Vec<Dec>>) -> bool {
        &&& matrix.len() > 0
        &&& is_permutation(self.city_order@, matrix.len())
        &&& tour_length(self.city_order@, matrix) == Some(self.travel_distance)
    }
}

/// How a first tour is made.
#[derive(Clone, Copy, Debug, PartialEq, Eq, Structural)]
pub enum InitialSolutionGenerationAlgorithm {
    /// The positions in a random order.
    Shuffle,
    /// From position 0 always on to the nearest position not yet visited.
    Greedy,
}

/// The points of a problem with their distances, and what a run of a search
/// needs beside them: its own random generator and the way to a first tour.
pub struct TspInstance {
    pub distance_matrix: Vec<Vec<Dec>>,
    pub rng: StdRng,
    pub nodes: Vec<Node>,
    pub initial: InitialSolutionGenerationAlgorithm,
}

/// What evaluating `order` against `matrix` gives: the order with its length,
/// or a failed run where the length overflows.
pub open spec fn scored(order: Seq<u32>, matrix: Seq<Vec<Dec>>, outcome: Result<TspSolution, Error>) -> bool {
    match outcome {
        Ok(solution) => solution.city_order@ == order && tour_length(order, matrix) == Some(
            solution.travel_distance,
        ),
        Err(error) => error == Error::RunFailure && tour_length(order, matrix) is None,
    }
}

impl TspInstance {
    /// Whether the matrix is square and the positions that it measures are
    /// few enough to be numbered.
    pub open spec fn wf(&self) -> bool {
        &&& is_square(self.distance_matrix@)
        &&& self.distance_matrix@.len() <= u32::MAX
    }

    /// Whether `solution` can be handed to this instance: its order is not
    /// empty and holds positions of this instance only.
    pub open spec fn takes(&self, solution: &TspSolution) -> bool {
        &&& solution.city_order@.len() > 0
        &&& in_range(solution.city_order@, self.distance_matrix@.len())
    }

    /// Whether the matrix is square and small enough to be numbered.
    pub fn is_well_formed(&self) -> (well: bool)
        ensures
            well == self.wf(),
    {
        let count = self.distance_matrix.len();
        if count > u32::MAX as usize {
            return false;
        }
        let mut i: usize = 0;
        while i < count
            invariant
                count == self.distance_matrix@.len(),
                i <= count,
                forall|r: int| 0 <= r < i ==> (#[trigger] self.distance_matrix@[r])@.len() == count,
            decreases count - i,
        {
            if self.distance_matrix[i].len() != count {
                return false;
            }
            i = i + 1;
        }
        true
    }

    /// Whether `solution` is a tour of this instance: its order visits every
    /// position exactly once, and its length is the one that the order has.
    pub fn is_tour(&self, solution: &TspSolution) -> (valid: bool)
        requires
            self.wf(),
        ensures
            valid == solution.is_tour_of(self.distance_matrix@),
    {
        let count = self.distance_matrix.len();
        if count == 0 || solution.city_order.len() != count {
            return false;
        }
        let mut visited: Vec<bool> = Vec::with_capacity(count);
        let mut filled: usize = 0;
        while filled < count
            invariant
                filled <= count,
                visited@.len() == filled,
                forall|j: int| 0 <= j < filled ==> !visited@[j],
            decreases count - filled,
        {
            visited.push(false);
            filled = filled + 1;
        }
        let mut k: usize = 0;
        while k < count
            invariant
                count == self.distance_matrix@.len(),
                count == solution.city_order@.len(),
                visited@.len() == count,
                k <= count,
                forall|j: int| 0 <= j < k ==> #[trigger] solution.city_order@[j] < count,
                forall|i: int, j: int|
                    0 <= i < j < k ==> solution.city_order@[i] != solution.city_order@[j],
                forall|v: int|
                    0 <= v < count ==> (visited@[v] <==> exists|j: int|
                        0 <= j < k && #[trigger] solution.city_order@[j] == v),
            decreases count - k,
        {
            let city = solution.city_order[k] as usize;
            if city >= count {
                return false;
            }
            if visited[city] {
                proof {
                    let j = choose|j: int| 0 <= j < k && #[trigger] solution.city_order@[j] == city;
                    assert(solution.city_order@[j] == solution.city_order@[k as int]);
                }
                return false;
            }
            let ghost before = visited@;
            visited.set(city, true);
            proof {
                assert forall|v: int| 0 <= v < count implies (visited@[v] <==> exists|j: int|
                    0 <= j < k + 1 && #[trigger] solution.city_order@[j] == v) by {
                    if v == city {
                        assert(solution.city_order@[k as int] == v);
                    } else if before[v] {
                        let j = choose|j: int| 0 <= j < k && #[trigger] solution.city_order@[j] == v;
                        assert(0 <= j < k + 1 && solution.city_order@[j] == v);
                    }
                }
            }
            k = k + 1;
        }
        match calculate_travel_distance(
            solution.city_order.as_slice(),
            self.distance_matrix.as_slice(),
        ) {
            Some(length) => {
                proof {
                    if length.mantissa() == solution.travel_distance.mantissa() && length.scale()
                        == solution.travel_distance.scale() {
                        Dec::lemma_parts_decide(length, solution.travel_distance);
                    }
                }
                length.mantissa() == solution.travel_distance.mantissa() && length.scale()
                    == solution.travel_distance.scale()
            },
            None => false,
        }
    }

    /// Whether `solution` can be handed to this instance.
    pub fn can_take(&self, solution: &TspSolution) -> (taken: bool)
        ensures
            taken == self.takes(solution),
    {
        let count = self.distance_matrix.len();
        if solution.city_order.len() == 0 {
            return false;
        }
        let mut k: usize = 0;
        while k < solution.city_order.len()
            invariant
                count == self.distance_matrix@.len(),
                k <= solution.city_order@.len(),
                in_range(solution.city_order@.take(k as int), count as nat),
            decreases solution.city_order@.len() - k,
        {
            if solution.city_order[k] as usize >= count {
                return false;
            }
            assert forall|j: int| 0 <= j < k + 1 implies #[trigger] solution.city_order@.take(
                k + 1,
            )[j] < count by {
                if j < k {
                    assert(solution.city_order@.take(k as int)[j] < count);
                }
            }
            k = k + 1;
        }
        assert(solution.city_order@.take(k as int) =~= solution.city_order@);
        true
    }

    /// The distance matrix of `nodes`: entry `(i, j)` is the distance between
    /// point `i` and point `j`, by position in `nodes`. Each distance is computed
    /// once and stands in both places; the diagonal is zero. `None` where one of
    /// the distances cannot be computed.
    pub fn generate_distance_matrix(nodes: &Vec<Node>) -> (found: Option<Vec<Vec<Dec>>>)
        ensures
            found is Some <==> distances_exist(nodes@),
            found matches Some(matrix) ==> is_distance_matrix(matrix@, nodes@),
    {
        let count = nodes.len();
        let mut matrix: Vec<Vec<Dec>> = Vec::with_capacity(count);
        let mut i: usize = 0;
        while i < count
            invariant
                count == nodes@.len(),
                i <= count,
                matrix@.len() == i,
                forall|r: int| 0 <= r < i ==> (#[trigger] matrix@[r])@.len() == nodes@.len(),
                forall|r: int, k: int|
                    0 <= r < i && 0 <= k < nodes@.len() ==> Some(#[trigger] matrix@[r]@[k])
                        == matrix_entry(nodes@, r, k),
                forall|r: int, k: int|
                    0 <= r < i && r < k < nodes@.len() ==> (#[trigger] distance(
                        nodes@[r],
                        nodes@[k],
                    )) is Some,
            decreases count - i,
        {
            match distance_row(nodes, &matrix, i) {
                Some(row) => matrix.push(row),
                None => {
                    return None;
                },
            }
            i = i + 1;
        }
        Some(matrix)
    }

    /// The instance of `nodes`, with their distance matrix; first tours are
    /// greedy ones. A failed run where a distance cannot be computed.
    pub fn new(nodes: Vec<Node>, rng: StdRng) -> (made: Result<TspInstance, Error>)
        requires
            nodes@.len() <= u32::MAX,
        ensures
            made is Ok <==> distances_exist(nodes@),
            made matches Ok(instance) ==> instance.wf() && is_distance_matrix(
                instance.distance_matrix@,
                nodes@,
            ) && instance.nodes == nodes && instance.rng == rng && instance.initial
                == InitialSolutionGenerationAlgorithm::Greedy,
            made matches Err(error) ==> error == Error::RunFailure,
    {
        match TspInstance::generate_distance_matrix(&nodes) {
            Some(distance_matrix) => Ok(
                TspInstance {
                    distance_matrix,
                    rng,
                    nodes,
                    initial: InitialSolutionGenerationAlgorithm::Greedy,
                },
            ),
            None => Err(Error::RunFailure),
        }
    }

    /// The tour `city_order` with its length; a failed run where the length
    /// overflows.
    pub fn score(&self, city_order: Vec<u32>) -> (outcome: Result<TspSolution, Error>)
        requires
            self.wf(),
            city_order@.len() > 0,
            in_range(city_order@, self.distance_matrix@.len()),
        ensures
            scored(city_order@, self.distance_matrix@, outcome),
    {
        match calculate_travel_distance(city_order.as_slice(), self.distance_matrix.as_slice()) {
            Some(travel_distance) => Ok(TspSolution::new(city_order, travel_distance)),
            None => Err(Error::RunFailure),
        }
    }

    /// An independent copy of `t`.
    pub fn clone_candidate(&mut self, t: &TspSolution) -> (copy: TspSolution)
        ensures
            copy.city_order@ == t.city_order@,
            copy.travel_distance == t.travel_distance,
            *final(self) == *old(self),
    {
        let city_order = t.city_order.clone();
        let travel_distance = t.travel_distance;
        TspSolution::new(city_order, travel_distance)
    }

    /// A first tour, made in the way that `initial` names, with its length. A
    /// failed run where the length of the tour overflows.
    pub fn generate_candidate(&mut self) -> (outcome: Result<TspSolution, Error>)
        requires
            old(self).wf(),
            old(self).distance_matrix@.len() > 0,
        ensures
            final(self).distance_matrix == old(self).distance_matrix,
            final(self).nodes == old(self).nodes,
            final(self).initial == old(self).initial,
            outcome matches Ok(solution) ==> solution.is_tour_of(old(self).distance_matrix@) && (
            old(self).initial == InitialSolutionGenerationAlgorithm::Greedy ==> is_greedy_tour(
                solution.city_order@,
                old(self).distance_matrix@,
            )),
            outcome matches Err(error) ==> error == Error::RunFailure && exists|order: Seq<u32>|
                #![trigger tour_length(order, old(self).distance_matrix@)]
                is_permutation(order, old(self).distance_matrix@.len()) && (old(self).initial
                    == InitialSolutionGenerationAlgorithm::Greedy ==> is_greedy_tour(
                    order,
                    old(self).distance_matrix@,
                )) && tour_length(order, old(self).distance_matrix@) is None,
    {
        let initial = self.initial;
        let city_order = generate_initial_solution_city_order(self, initial);
        let ghost order = city_order@;
        let outcome = self.score(city_order);
        proof {
            if outcome is Err {
                assert(tour_length(order, old(self).distance_matrix@) is None);
            }
        }
        outcome
    }

    /// The value by which a search compares tours: the higher, the better. It
    /// is the length of the tour with the opposite sign.
    pub fn rank_candidate(&mut self, solution: &TspSolution) -> (rank: Dec)
        ensures
            rank == solution.travel_distance.opposite(),
            rank.key() == -solution.travel_distance.key(),
            *final(self) == *old(self),
    {
        solution.travel_distance.negated()
    }

    /// The neighbour of `solution` that reverses the segment between the
    /// positions `first` and `second` of its order, with its length. A failed
    /// run where that length overflows.
    pub fn tweak_at(&self, solution: &TspSolution, first: usize, second: usize) -> (outcome: Result<
        TspSolution,
        Error,
    >)
        requires
            self.wf(),
            self.takes(solution),
            first < solution.city_order@.len(),
            second < solution.city_order@.len(),
        ensures
            scored(
                reversed_segment(
                    solution.city_order@,
                    lower(first as int, second as int),
                    upper(first as int, second as int),
                ),
                self.distance_matrix@,
                outcome,
            ),
            is_permutation(solution.city_order@, self.distance_matrix@.len()) ==> (
            outcome matches Ok(neighbour) ==> neighbour.is_tour_of(self.distance_matrix@)),
    {
        let city_order = swap_cities(first, second, solution.city_order.as_slice());
        proof {
            if is_permutation(solution.city_order@, self.distance_matrix@.len()) {
                lemma_reversal_keeps_permutation(
                    solution.city_order@,
                    self.distance_matrix@.len(),
                    lower(first as int, second as int),
                    upper(first as int, second as int),
                );
            }
        }
        self.score(city_order)
    }

    /// A neighbour of `solution`: the segment between two positions of its
    /// order, each drawn at random from all of them, is reversed. The input is
    /// left as it was. A failed run where the length of the neighbour overflows.
    pub fn tweak_candidate(&mut self, solution: &TspSolution) -> (outcome: Result<TspSolution, Error>)
        requires
            old(self).wf(),
            old(self).takes(solution),
        ensures
            final(self).distance_matrix == old(self).distance_matrix,
            final(self).nodes == old(self).nodes,
            final(self).initial == old(self).initial,
            exists|first: int, second: int|
                0 <= first < solution.city_order@.len() && 0 <= second < solution.city_order@.len()
                    && #[trigger] scored(
                    reversed_segment(
                        solution.city_order@,
                        lower(first, second),
                        upper(first, second),
                    ),
                    old(self).distance_matrix@,
                    outcome,
                ),
            is_permutation(solution.city_order@, old(self).distance_matrix@.len()) ==> (
            outcome matches Ok(neighbour) ==> neighbour.is_tour_of(old(self).distance_matrix@)),
    {
        let first_city_index: usize = position_below(&mut self.rng, solution.city_order.len());
        let second_city_index: usize = position_below(&mut self.rng, solution.city_order.len());
        let outcome = self.tweak_at(solution, first_city_index, second_city_index);
        proof {
            assert(scored(
                reversed_segment(
                    solution.city_order@,
                    lower(first_city_index as int, second_city_index as int),
                    upper(first_city_index as int, second_city_index as int),
                ),
                old(self).distance_matrix@,
                outcome,
            ));
        }
        outcome
    }
}

/// A move between a position and itself changes nothing: the neighbour has
/// the order and the length of the tour it was made from.
pub proof fn lemma_move_in_place(
    solution: TspSolution,
    matrix: Seq<Vec<Dec>>,
    at: int,
    outcome: Result<TspSolution, Error>,
)
    requires
        tour_length(solution.city_order@, matrix) == Some(solution.travel_distance),
        scored(reversed_segment(solution.city_order@, lower(at, at), upper(at, at)), matrix, outcome),
    ensures
        outcome matches Ok(neighbour) && neighbour.city_order@ == solution.city_order@
            && neighbour.travel_distance == solution.travel_distance,
{
    crate::permutation::lemma_reversal_of_one(solution.city_order@, at);
}

/// Of two tours, the shorter one has the higher rank.
pub proof fn lemma_shorter_ranks_higher(shorter: Dec, longer: Dec, high: Dec, low: Dec)
    requires
        high.key() == -shorter.key(),
        low.key() == -longer.key(),
    ensures
        shorter.key() < longer.key() <==> high.key() > low.key(),
        shorter.key() == longer.key() <==> high.key() == low.key(),
{
}

/// The order of a first tour for `instance`, made in the way that `algorithm`
/// names. It visits every point exactly once.
pub fn generate_initial_solution_city_order(
    instance: &mut TspInstance,
    algorithm: InitialSolutionGenerationAlgorithm,
) -> (city_order: Vec<u32>)
    requires
        old(instance).wf(),
        old(instance).distance_matrix@.len() > 0,
    ensures
        final(instance).distance_matrix == old(instance).distance_matrix,
        final(instance).nodes == old(instance).nodes,
        final(instance).initial == old(instance).initial,
        is_permutation(city_order@, old(instance).distance_matrix@.len()),
        algorithm == InitialSolutionGenerationAlgorithm::Greedy ==> is_greedy_tour(
            city_order@,
            old(instance).distance_matrix@,
        ),
{
    match algorithm {
        InitialSolutionGenerationAlgorithm::Shuffle => {
            let count = instance.distance_matrix.len();
            let mut city_order: Vec<u32> = Vec::with_capacity(count);
            let mut n: usize = 0;
            while n < count
                invariant
                    count <= u32::MAX,
                    n <= count,
                    city_order@ == identity_order(n as nat),
                decreases count - n,
            {
                city_order.push(n as u32);
                assert(city_order@ =~= identity_order((n + 1) as nat));
                n = n + 1;
            }
            shuffle(&mut city_order, &mut instance.rng);
            proof {
                lemma_rearranged_identity(city_order@, count as nat);
            }
            city_order
        },
        InitialSolutionGenerationAlgorithm::Greedy => greedy_order(&instance.distance_matrix),
    }
}

/// The smaller of two positions.
pub open spec fn lower(first: int, second: int) -> int {
    if first > second {
        second
    } else {
        first
    }
}

/// The larger of two positions.
pub open spec fn upper(first: int, second: int) -> int {
    if first > second {
        first
    } else {
        second
    }
}

/// The position pairs whose exchange, one after the other, reverses the
/// segment between `first` and `second`: the two ends first, then inwards.
/// The middle position of a segment of odd length is paired with itself.
pub open spec fn pairs_to_swap(first: int, second: int) -> Seq<(usize, usize)> {
    let lo = lower(first, second);
    let hi = upper(first, second);
    Seq::new(((hi - lo) / 2 + 1) as nat, |k: int| ((lo + k) as usize, (hi - k) as usize))
}

/// `order` after the first `count` exchanges of a reversal of `lo..=hi`.
pub open spec fn partly_reversed(order: Seq<u32>, lo: int, hi: int, count: int) -> Seq<u32> {
    Seq::new(
        order.len(),
        |k: int|
            if (lo <= k < lo + count) || (hi - count < k <= hi) {
                order[lo + hi - k]
            } else {
                order[k]
            },
    )
}

/// Lists the position pairs to exchange for a reversal of the segment between
/// `first` and `second`, whichever of the two is the smaller.
pub fn get_pairs_to_swap(first: usize, second: usize) -> (pairs: Vec<(usize, usize)>)
    ensures
        pairs@ == pairs_to_swap(first as int, second as int),
{
    let ordered: (usize, usize) = if first > second {
        (second, first)
    } else {
        (first, second)
    };
    let pairs_to_swap_count: usize = (ordered.1 - ordered.0) / 2;
    let mut pairs: Vec<(usize, usize)> = Vec::new();
    let mut x: usize = 0;
    while x <= pairs_to_swap_count
        invariant
            ordered.0 <= ordered.1,
            pairs_to_swap_count == (ordered.1 - ordered.0) / 2,
            x <= pairs_to_swap_count + 1,
            pairs@ == Seq::new(
                x as nat,
                |k: int| ((ordered.0 + k) as usize, (ordered.1 - k) as usize),
            ),
        decreases pairs_to_swap_count + 1 - x,
    {
        pairs.push((ordered.0 + x, ordered.1 - x));
        x = x + 1;
    }
    pairs
}

/// Copies `cities_order` and reverses, in the copy, the segment between the
/// positions `first` and `second`. The input is left as it was.
pub fn swap_cities(first_city: usize, second_city: usize, cities_order: &[u32]) -> (new_order: Vec<u32>)
    requires
        first_city < cities_order@.len(),
        second_city < cities_order@.len(),
    ensures
        new_order@ == reversed_segment(
            cities_order@,
            lower(first_city as int, second_city as int),
            upper(first_city as int, second_city as int),
        ),
{
    let mut new_order: Vec<u32> = vstd::slice::slice_to_vec(cities_order);
    let pairs = get_pairs_to_swap(first_city, second_city);
    let ghost lo = lower(first_city as int, second_city as int);
    let ghost hi = upper(first_city as int, second_city as int);
    let mut done: usize = 0;
    while done < pairs.len()
        invariant
            0 <= lo <= hi < cities_order@.len(),
            pairs@ == pairs_to_swap(first_city as int, second_city as int),
            lo == lower(first_city as int, second_city as int),
            hi == upper(first_city as int, second_city as int),
            done <= pairs@.len(),
            new_order@ == partly_reversed(cities_order@, lo, hi, done as int),
        decreases pairs@.len() - done,
    {
        let pair: (usize, usize) = pairs[done];
        let left: u32 = new_order[pair.0];
        let right: u32 = new_order[pair.1];
        new_order.set(pair.0, right);
        new_order.set(pair.1, left);
        done = done + 1;
    }
    new_order
}

} // verus!
