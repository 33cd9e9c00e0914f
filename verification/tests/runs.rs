use rust_decimal::prelude::FromStr;
use rust_decimal::Decimal;
use tspsolver::decimal::Dec;
use tspsolver::solver::TspSolution;
use tspsolver::{summarize, Algorithm, Error};

fn length(text: &str) -> Dec {
    let parsed = Decimal::from_str(text).unwrap();
    Dec::new(parsed.mantissa(), parsed.scale()).unwrap()
}

fn run_of(text: &str) -> Result<TspSolution, Error> {
    Ok(TspSolution::new(vec![0], length(text)))
}

fn length_of(results: &[Result<TspSolution, Error>], at: usize) -> Decimal {
    let best = results[at].as_ref().unwrap().travel_distance;
    Decimal::from_i128_with_scale(best.mantissa(), best.scale())
}

#[test]
fn summary_names_the_shortest_run_and_counts_the_failed_one() {
    let results = vec![run_of("120.5"), run_of("98.2"), Err(Error::RunFailure), run_of("150.0")];
    let summary = summarize(&results);
    assert_eq!(summary.best, Some(1));
    assert_eq!(length_of(&results, summary.best.unwrap()), Decimal::from_str("98.2").unwrap());
    assert_eq!(summary.failures, 1);
}

#[test]
fn summary_of_failed_runs_only_has_no_best() {
    let results: Vec<Result<TspSolution, Error>> =
        vec![Err(Error::UnknownAlgorithm), Err(Error::RunFailure), Err(Error::InstanceNotFound)];
    let summary = summarize(&results);
    assert_eq!(summary.best, None);
    assert_eq!(summary.failures, 3);
}

#[test]
fn summary_of_no_run_is_empty() {
    let results: Vec<Result<TspSolution, Error>> = vec![];
    let summary = summarize(&results);
    assert_eq!(summary.best, None);
    assert_eq!(summary.failures, 0);
}

#[test]
fn summary_tells_a_best_of_zero_from_no_best() {
    let results = vec![Err(Error::RunFailure), run_of("0")];
    let summary = summarize(&results);
    assert_eq!(summary.best, Some(1));
    assert_eq!(summary.failures, 1);
}

#[test]
fn summary_takes_the_earliest_of_equally_short_runs() {
    let results = vec![run_of("7"), run_of("5.0"), Err(Error::RunFailure), run_of("5"), run_of("5.00")];
    let summary = summarize(&results);
    assert_eq!(summary.best, Some(1));
    let results = vec![run_of("9"), run_of("8"), run_of("7"), run_of("6.5"), run_of("6.4")];
    assert_eq!(summarize(&results).best, Some(4));
    let results = vec![run_of("-1"), run_of("0"), run_of("1")];
    assert_eq!(summarize(&results).best, Some(0));
}

#[test]
fn algorithm_goes_by_its_name() {
    assert_eq!(Algorithm::from_name("hill-climbing"), Ok(Algorithm::HillClimbing));
    assert_eq!(Algorithm::from_name("simulated-annealing"), Ok(Algorithm::SimulatedAnnealing));
    assert_eq!(Algorithm::from_name("random-search"), Ok(Algorithm::RandomSearch));
}

#[test]
fn algorithm_of_another_name_is_unknown() {
    for name in ["", "hill climbing", "Hill-Climbing", "hill-climbing ", "tabu", "random-searc"] {
        assert_eq!(Algorithm::from_name(name), Err(Error::UnknownAlgorithm));
    }
}

#[test]
fn every_error_says_what_went_wrong() {
    assert_eq!(Error::InstanceNotFound.message(), "instance file not found");
    assert_eq!(Error::CoordLineTooShort.message(), "coordinate line too short");
    assert_eq!(Error::UnparsableCoord.message(), "unparsable coordinate");
    assert_eq!(Error::UnknownAlgorithm.message(), "unknown algorithm");
    assert_eq!(Error::RunFailure.message(), "run failed");
}
