use rust_decimal::prelude::FromStr;
use rust_decimal::Decimal;
use rust_decimal::MathematicalOps;
use tspsolver::decimal::Dec;
use tspsolver::solver::{calculate_travel_distance, Node, TspInstance};

fn number(text: &str) -> Dec {
    let parsed = Decimal::from_str(text).unwrap();
    Dec::new(parsed.mantissa(), parsed.scale()).unwrap()
}

fn as_decimal(value: Dec) -> Decimal {
    Decimal::from_i128_with_scale(value.mantissa(), value.scale())
}

fn point(index: u32, x: &str, y: &str) -> Node {
    Node::new(index, number(x), number(y))
}

#[test]
fn calculate_travel_distance_test() {
    let city_order = vec![1, 0, 2];
    let distance_matrix: Vec<Vec<Dec>> = vec![
        vec![number("0.0"), number("3.9"), number("6.44")],
        vec![number("3.9"), number("0.0"), number("4.7")],
        vec![number("6.44"), number("4.7"), number("0.0")],
    ];

    let rank = calculate_travel_distance(&city_order, &distance_matrix).unwrap();
    assert_eq!(as_decimal(rank), Decimal::from_str("15.04").unwrap());
}

#[test]
fn travel_distance_of_a_single_city_is_its_own_entry() {
    let distance_matrix: Vec<Vec<Dec>> = vec![vec![number("0")]];
    let length = calculate_travel_distance(&[0], &distance_matrix).unwrap();
    assert_eq!(as_decimal(length), Decimal::ZERO);
}

#[test]
fn travel_distance_follows_the_order_not_the_matrix_rows() {
    let distance_matrix: Vec<Vec<Dec>> = vec![
        vec![number("0"), number("1"), number("10"), number("100")],
        vec![number("2"), number("0"), number("20"), number("200")],
        vec![number("3"), number("30"), number("0"), number("300")],
        vec![number("4"), number("40"), number("400"), number("0")],
    ];
    // 0 -> 2 -> 1 -> 3 -> 0
    let length = calculate_travel_distance(&[0, 2, 1, 3], &distance_matrix).unwrap();
    assert_eq!(as_decimal(length), Decimal::from_str("244").unwrap());
    // 3 -> 1 -> 2 -> 0 -> 3
    let back = calculate_travel_distance(&[3, 1, 2, 0], &distance_matrix).unwrap();
    assert_eq!(as_decimal(back), Decimal::from_str("163").unwrap());
}

#[test]
fn travel_distance_that_overflows_is_none() {
    let huge = Dec::new(79228162514264337593543950335, 0).unwrap();
    let distance_matrix: Vec<Vec<Dec>> = vec![vec![number("0"), huge], vec![huge, number("0")]];
    assert!(calculate_travel_distance(&[0, 1], &distance_matrix).is_none());
}

#[test]
fn number_is_made_only_from_parts_that_fit() {
    assert!(Dec::new(0, 0).is_some());
    assert!(Dec::new(5, 28).is_some());
    assert!(Dec::new(5, 29).is_none());
    assert!(Dec::new(79228162514264337593543950335, 0).is_some());
    assert!(Dec::new(-79228162514264337593543950335, 0).is_some());
    assert!(Dec::new(79228162514264337593543950336, 0).is_none());
    assert!(Dec::new(-79228162514264337593543950336, 0).is_none());
    let made = Dec::new(-1504, 2).unwrap();
    assert_eq!(made.mantissa(), -1504);
    assert_eq!(made.scale(), 2);
    assert_eq!(Dec::zero().mantissa(), 0);
    assert_eq!(Dec::zero().scale(), 0);
    assert_eq!(Dec::zero_tenths().mantissa(), 0);
    assert_eq!(Dec::zero_tenths().scale(), 1);
}

#[test]
fn numbers_are_ordered_by_value_whatever_their_scale() {
    assert!(number("1.5").is_less_than(&number("1.51")));
    assert!(number("1.5").is_less_than(&number("2")));
    assert!(!number("2").is_less_than(&number("1.5")));
    assert!(!number("1.50").is_less_than(&number("1.5")));
    assert!(!number("1.5").is_less_than(&number("1.50")));
    assert!(number("-3").is_less_than(&number("0.0001")));
    assert!(number("1.50").has_value_of(&number("1.5")));
    assert!(number("0").has_value_of(&number("0.000")));
    assert!(!number("0.1").has_value_of(&number("0.10001")));
}

#[test]
fn negated_number_has_the_opposite_sign() {
    assert_eq!(as_decimal(number("15.04").negated()), Decimal::from_str("-15.04").unwrap());
    assert_eq!(as_decimal(number("-2").negated()), Decimal::from_str("2").unwrap());
    assert_eq!(number("0.00").negated().mantissa(), 0);
    assert_eq!(number("0.00").negated().scale(), 2);
}

#[test]
fn square_root_is_that_of_the_decimal_crate() {
    let cases = [
        "4",
        "2",
        "3.222",
        "199.45",
        "342.4",
        "0.0000000000000000000000000001",
        "1",
        "0.25",
        "1000000",
        "25.0000",
        "79228162514264337593543950335",
        "7922816251426433759354395.0335",
        "0.5",
    ];
    for case in cases {
        let expected = Decimal::from_str(case).unwrap().sqrt().unwrap();
        let found = number(case).sqrt().unwrap();
        assert_eq!(as_decimal(found), expected, "{}", case);
        assert_eq!(found.scale(), expected.scale(), "{}", case);
    }
    assert_eq!(as_decimal(number("4").sqrt().unwrap()), Decimal::from_str("2").unwrap());
}

#[test]
fn square_root_of_zero_is_zero_and_of_a_negative_number_none() {
    let root = number("0.000").sqrt().unwrap();
    assert_eq!(root.mantissa(), 0);
    assert_eq!(root.scale(), 0);
    assert!(number("-2").sqrt().is_none());
    assert!(number("-0.0001").sqrt().is_none());
}

#[test]
fn distance_is_euclidean() {
    let origin = point(1, "0", "0");
    let corner = point(2, "3", "4");
    assert_eq!(as_decimal(origin.distance_to(&corner).unwrap()), Decimal::from_str("5").unwrap());
    assert_eq!(as_decimal(corner.distance_to(&origin).unwrap()), Decimal::from_str("5").unwrap());
    assert_eq!(as_decimal(corner.distance_to(&corner).unwrap()), Decimal::ZERO);
    let a = point(1, "11003.611100", "42102.500000");
    let b = point(2, "11108.611100", "42373.888900");
    let dx = Decimal::from_str("105.000000").unwrap();
    let dy = Decimal::from_str("271.388900").unwrap();
    let expected = (dx * dx + dy * dy).sqrt().unwrap();
    assert_eq!(as_decimal(a.distance_to(&b).unwrap()), expected);
}

#[test]
fn distance_that_overflows_is_none() {
    let far = Dec::new(79228162514264337593543950335, 0).unwrap();
    let here = point(1, "0", "0");
    let there = Node::new(2, far, far);
    assert!(here.distance_to(&there).is_none());
}

#[test]
fn distance_matrix_is_symmetric_with_a_zero_diagonal() {
    let nodes = vec![
        point(1, "11003.611100", "42102.500000"),
        point(2, "11108.611100", "42373.888900"),
        point(3, "11133.333300", "42885.833300"),
        point(4, "11155.833300", "42712.500000"),
        point(5, "11003.611100", "42102.500000"),
    ];
    let matrix = TspInstance::generate_distance_matrix(&nodes).unwrap();
    assert_eq!(matrix.len(), 5);
    for i in 0..5 {
        assert_eq!(matrix[i].len(), 5);
        assert_eq!(matrix[i][i].mantissa(), 0);
        for j in 0..5 {
            assert_eq!(as_decimal(matrix[i][j]), as_decimal(matrix[j][i]));
            assert_eq!(matrix[i][j].scale(), matrix[j][i].scale());
            if i < j {
                let expected = as_decimal(nodes[i].distance_to(&nodes[j]).unwrap());
                assert_eq!(as_decimal(matrix[i][j]), expected);
            }
        }
    }
    assert_eq!(as_decimal(matrix[0][4]), Decimal::ZERO);
    assert!(matrix[0][1].mantissa() > 0);
}

#[test]
fn distance_matrix_of_no_point_is_empty_and_of_one_point_zero() {
    let none: Vec<Node> = vec![];
    assert!(TspInstance::generate_distance_matrix(&none).unwrap().is_empty());
    let one = TspInstance::generate_distance_matrix(&vec![point(1, "3", "4")]).unwrap();
    assert_eq!(one.len(), 1);
    assert_eq!(one[0].len(), 1);
    assert_eq!(as_decimal(one[0][0]), Decimal::ZERO);
}

#[test]
fn distance_matrix_with_a_distance_that_overflows_is_none() {
    let far = Dec::new(79228162514264337593543950335, 0).unwrap();
    let nodes = vec![point(1, "0", "0"), point(2, "1", "1"), Node::new(3, far, far)];
    assert!(TspInstance::generate_distance_matrix(&nodes).is_none());
}

fn step(state: &mut u64) -> u64 {
    *state = state.wrapping_mul(6364136223846793005).wrapping_add(1442695040888963407);
    *state >> 11
}

#[test]
fn square_root_is_that_of_the_decimal_crate_for_numbers_of_every_size() {
    let mut state: u64 = 2024;
    for _ in 0..20000 {
        let digits = step(&mut state) % 29;
        let mut mantissa: i128 = 0;
        for _ in 0..=digits {
            mantissa = mantissa * 10 + (step(&mut state) % 10) as i128;
        }
        let scale = (step(&mut state) % 29) as u32;
        if let Some(x) = Dec::new(mantissa, scale) {
            let expected = as_decimal(x).sqrt().unwrap();
            let found = x.sqrt().unwrap();
            assert_eq!(found.mantissa(), expected.mantissa(), "{} {}", mantissa, scale);
            assert_eq!(found.scale(), expected.scale(), "{} {}", mantissa, scale);
        }
    }
}
