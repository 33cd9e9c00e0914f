//! Approximate solutions to the travelling salesman problem: the tour model,
//! the distance matrix, initial tours, the segment-reversal move, and the
//! planning and aggregation of independent search runs.

use crate::decimal::{less_than, Dec};
use crate::solver::TspSolution;
use vstd::prelude::*;

pub mod decimal;
pub mod greedy;
pub mod permutation;
pub mod random;
pub mod reader;
pub mod solver;

verus! {

/// What can go wrong with an instance or with a run.
#[derive(Clone, Copy, Debug, PartialEq, Eq, Structural)]
pub enum Error {
    /// The source of the instance could not be found or read.
    InstanceNotFound,
    /// A coordinate line holds fewer than two entries.
    CoordLineTooShort,
    /// An entry of a coordinate line is no number.
    UnparsableCoord,
    /// The name of the search algorithm is none of those on offer.
    UnknownAlgorithm,
    /// A run broke off, by a number too large to hold or by any other fault.
    RunFailure,
}

/// What is said of an error, for each of them.
pub open spec fn error_message(error: Error) -> Seq<char> {
    match error {
        Error::InstanceNotFound => "instance file not found"@,
        Error::CoordLineTooShort => "coordinate line too short"@,
        Error::UnparsableCoord => "unparsable coordinate"@,
        Error::UnknownAlgorithm => "unknown algorithm"@,
        Error::RunFailure => "run failed"@,
    }
}

impl Error {
    /// A few words that say what went wrong.
    pub fn message(&self) -> (text: &'static str)
        ensures
            text@ == error_message(*self),
    {
        match self {
            Error::InstanceNotFound => "instance file not found",
            Error::CoordLineTooShort => "coordinate line too short",
            Error::UnparsableCoord => "unparsable coordinate",
            Error::UnknownAlgorithm => "unknown algorithm",
            Error::RunFailure => "run failed",
        }
    }
}

/// The search algorithms on offer.
#[derive(Clone, Copy, Debug, PartialEq, Eq, Structural)]
pub enum Algorithm {
    HillClimbing,
    SimulatedAnnealing,
    RandomSearch,
}

/// The algorithm that goes by `name`, if there is one.
pub open spec fn named_algorithm(name: Seq<char>) -> Result<Algorithm, Error> {
    if name == "hill-climbing"@ {
        Ok(Algorithm::HillClimbing)
    } else if name == "simulated-annealing"@ {
        Ok(Algorithm::SimulatedAnnealing)
    } else if name == "random-search"@ {
        Ok(Algorithm::RandomSearch)
    } else {
        Err(Error::UnknownAlgorithm)
    }
}

/// Whether two texts are the same.
fn same_text(a: &str, b: &str) -> (same: bool)
    ensures
        same == (a@ == b@),
{
    let left: String = a.to_owned();
    let right: String = b.to_owned();
    left == right
}

impl Algorithm {
    /// The algorithm that goes by `name`: `hill-climbing`,
    /// `simulated-annealing` or `random-search`. Any other name is unknown.
    pub fn from_name(name: &str) -> (found: Result<Algorithm, Error>)
        ensures
            found == named_algorithm(name@),
    {
        if same_text(name, "hill-climbing") {
            Ok(Algorithm::HillClimbing)
        } else if same_text(name, "simulated-annealing") {
            Ok(Algorithm::SimulatedAnnealing)
        } else if same_text(name, "random-search") {
            Ok(Algorithm::RandomSearch)
        } else {
            Err(Error::UnknownAlgorithm)
        }
    }
}

/// What a batch of runs came to.
#[derive(Clone, Copy, Debug)]
pub struct Summary {
    /// The run with the shortest tour, by its place among the runs; the
    /// earliest of them where several are equally short. `None` where no run
    /// succeeded.
    pub best: Option<usize>,
    /// The number of runs that failed.
    pub failures: usize,
}

/// The number of failed runs among the first `upto` of `results`.
pub open spec fn failures_among(results: Seq<Result<TspSolution, Error>>, upto: nat) -> nat
    decreases upto,
{
    if upto == 0 {
        0
    } else {
        failures_among(results, (upto - 1) as nat) + if results[upto - 1] is Err {
            1nat
        } else {
            0nat
        }
    }
}

/// Whether run `best` is the best of the first `upto` of `results`: it
/// succeeded, no other of them gave a shorter tour, and every earlier one that
/// succeeded gave a longer one.
pub open spec fn is_best_among(results: Seq<Result<TspSolution, Error>>, upto: int, best: int) -> bool {
    &&& 0 <= best < upto
    &&& results[best] is Ok
    &&& forall|k: int|
        0 <= k < upto && (#[trigger] results[k]) is Ok ==> results[best]->Ok_0.travel_distance.key()
            <= results[k]->Ok_0.travel_distance.key()
    &&& forall|k: int|
        0 <= k < best && (#[trigger] results[k]) is Ok ==> results[best]->Ok_0.travel_distance.key()
            < results[k]->Ok_0.travel_distance.key()
}

/// Picks the best of the runs and counts those that failed. A failed run
/// never stands in the way of the others: the best is chosen among the runs
/// that succeeded, and there is none only where none of them did.
pub fn summarize(results: &Vec<Result<TspSolution, Error>>) -> (summary: Summary)
    ensures
        summary.failures == failures_among(results@, results@.len()),
        summary.best is None <==> forall|k: int|
            0 <= k < results@.len() ==> (#[trigger] results@[k]) is Err,
        summary.best matches Some(best) ==> is_best_among(
            results@,
            results@.len() as int,
            best as int,
        ),
{
    let mut best: Option<usize> = None;
    let mut shortest: Dec = Dec::zero();
    let mut failures: usize = 0;
    let mut k: usize = 0;
    while k < results.len()
        invariant
            k <= results@.len(),
            failures == failures_among(results@, k as nat),
            failures <= k,
            best is None <==> forall|j: int| 0 <= j < k ==> (#[trigger] results@[j]) is Err,
            best matches Some(at) ==> is_best_among(results@, k as int, at as int)
                && results@[at as int]->Ok_0.travel_distance == shortest,
        decreases results@.len() - k,
    {
        match &results[k] {
            Ok(solution) => {
                if best.is_none() || less_than(solution.travel_distance, shortest) {
                    best = Some(k);
                    shortest = solution.travel_distance;
                }
            },
            Err(_) => {
                failures = failures + 1;
            },
        }
        k = k + 1;
    }
    Summary { best, failures }
}

/// The sum of the first `upto` batch sizes.
pub open spec fn runs_in(batches: Seq<i32>, upto: nat) -> int
    decreases upto,
{
    if upto == 0 {
        0
    } else {
        runs_in(batches, (upto - 1) as nat) + batches[upto - 1]
    }
}

/// The batch sizes for `runs` searches on `cpus` workers: as many full batches
/// of `cpus` runs as fit, followed by one batch that holds the remainder.
///
/// The last batch is always present; it is empty when `cpus` divides `runs`.
pub open spec fn iterations_queue(runs: int, cpus: int) -> Seq<i32>
    recommends
        0 <= runs <= i32::MAX,
        0 < cpus <= i32::MAX,
{
    Seq::new((runs / cpus) as nat, |k: int| cpus as i32).push((runs % cpus) as i32)
}

/// Partitions `runs` searches into consecutive batches of at most `cpus` runs.
pub fn generate_iterations_queue(runs: i32, cpus: i32) -> (iterations: Vec<i32>)
    requires
        0 <= runs,
        0 < cpus,
    ensures
        iterations@ == iterations_queue(runs as int, cpus as int),
{
    let full_iterations: i32 = runs / cpus;
    let remaining_iterations: i32 = runs % cpus;
    let mut iterations: Vec<i32> = Vec::new();
    let mut done: i32 = 0;
    while done < full_iterations
        invariant
            0 <= done <= full_iterations,
            iterations@ == Seq::new(done as nat, |k: int| cpus),
        decreases full_iterations - done,
    {
        iterations.push(cpus);
        done = done + 1;
    }
    iterations.push(remaining_iterations);
    iterations
}

/// `num_cpus::get`: the number of processors that this process may use, which
/// the crate documents to be at least one. Which number it is depends on the
/// machine.
#[verifier::external_body]
fn available_processors() -> (count: usize)
    ensures
        count >= 1,
{
    num_cpus::get()
}

/// Partitions `runs` searches into batches for this machine: each batch holds
/// at most as many runs as the machine has processors to work on them.
pub fn generate_parallel_iterations_queue(runs: i32) -> (iterations: Vec<i32>)
    requires
        0 <= runs,
    ensures
        exists|cpus: int|
            0 < cpus <= i32::MAX && iterations@ == #[trigger] iterations_queue(runs as int, cpus),
{
    let processors = available_processors();
    let cpus: i32 = if processors > i32::MAX as usize {
        i32::MAX
    } else {
        processors as i32
    };
    let iterations = generate_iterations_queue(runs, cpus);
    assert(iterations@ == iterations_queue(runs as int, cpus as int));
    iterations
}

/// The first `upto` batches of a queue are full ones.
proof fn lemma_full_batches(runs: int, cpus: int, upto: nat)
    requires
        0 <= runs <= i32::MAX,
        0 < cpus <= i32::MAX,
        upto <= runs / cpus,
    ensures
        runs_in(iterations_queue(runs, cpus), upto) == upto * cpus,
    decreases upto,
{
    if upto > 0 {
        lemma_full_batches(runs, cpus, (upto - 1) as nat);
        assert(iterations_queue(runs, cpus)[upto - 1] == cpus);
        assert((upto - 1) * cpus + cpus == upto * cpus) by (nonlinear_arith);
    } else {
        assert(0 * cpus == 0);
    }
}

/// No run is lost and none is added: the batches of a queue hold `runs` runs
/// between them, none holds more than `cpus`, and only the last may hold fewer.
pub proof fn lemma_queue_holds_all_runs(runs: int, cpus: int)
    requires
        0 <= runs <= i32::MAX,
        0 < cpus <= i32::MAX,
    ensures
        iterations_queue(runs, cpus).len() == runs / cpus + 1,
        runs_in(iterations_queue(runs, cpus), iterations_queue(runs, cpus).len()) == runs,
        forall|k: int|
            0 <= k < runs / cpus ==> (#[trigger] iterations_queue(runs, cpus)[k]) == cpus,
        0 <= iterations_queue(runs, cpus).last() < cpus,
{
    let full = (runs / cpus) as nat;
    lemma_full_batches(runs, cpus, full);
    vstd::arithmetic::div_mod::lemma_fundamental_div_mod(runs, cpus);
    assert(cpus * (runs / cpus) == full * cpus) by (nonlinear_arith)
        requires
            full == runs / cpus,
    ;
    assert(0 <= runs % cpus < cpus);
}

} // verus!
