use rust_decimal::prelude::FromStr;
use rust_decimal::Decimal;
use tspsolver::decimal::Dec;
use tspsolver::reader::{is_space, parse_node_coord_section_line, read, TspData};
use rand::rngs::StdRng;
use rand::SeedableRng;
use tspsolver::solver::{InitialSolutionGenerationAlgorithm, Node, TspInstance};
use tspsolver::Error;

fn value_of(value: Dec) -> Decimal {
    Decimal::from_i128_with_scale(value.mantissa(), value.scale())
}

fn assert_point(node: &Node, index: u32, x: &str, y: &str) {
    assert_eq!(node.index, index);
    let expected_x = Decimal::from_str(x).unwrap();
    let expected_y = Decimal::from_str(y).unwrap();
    assert_eq!(value_of(node.x), expected_x);
    assert_eq!(node.x.scale(), expected_x.scale());
    assert_eq!(value_of(node.y), expected_y);
    assert_eq!(node.y.scale(), expected_y.scale());
}

#[test]
fn coordinate_line_gives_a_point() {
    let node = parse_node_coord_section_line("11003.611100 42102.500000", 1).unwrap();
    assert_point(&node, 1, "11003.611100", "42102.500000");
}

#[test]
fn coordinate_line_may_hold_any_white_space_and_more_entries() {
    let node = parse_node_coord_section_line("  \t-1.5\t \u{a0}2e2   rest of the line ", 7).unwrap();
    assert_point(&node, 7, "-1.5", "200");
    let node = parse_node_coord_section_line("1\u{3000}2\r", 8).unwrap();
    assert_point(&node, 8, "1", "2");
    let node = parse_node_coord_section_line("3 4 abc", 9).unwrap();
    assert_point(&node, 9, "3", "4");
}

#[test]
fn coordinate_line_with_fewer_than_two_entries_is_too_short() {
    for line in ["", " ", "\t \r", "12.5", "  12.5  ", "abc"] {
        let outcome = parse_node_coord_section_line(line, 1);
        assert!(matches!(outcome, Err(Error::CoordLineTooShort)), "{:?}", line);
    }
}

#[test]
fn coordinate_line_with_an_entry_that_is_no_number_cannot_be_read() {
    for line in ["abc 1.0", "1.0 abc", "x y", "1,5 2", "1.0 2.0.0", "1 --2"] {
        let outcome = parse_node_coord_section_line(line, 1);
        assert!(matches!(outcome, Err(Error::UnparsableCoord)), "{:?}", line);
    }
}

#[test]
fn text_gives_one_point_a_line_numbered_from_one() {
    let text = "11003.611100 42102.500000\n11108.611100 42373.888900\n11133.333300 42885.833300";
    let data = TspData::from_str(text).unwrap();
    assert_eq!(data.nodes.len(), 3);
    assert_point(&data.nodes[0], 1, "11003.611100", "42102.500000");
    assert_point(&data.nodes[1], 2, "11108.611100", "42373.888900");
    assert_point(&data.nodes[2], 3, "11133.333300", "42885.833300");
}

#[test]
fn text_of_one_line_gives_one_point() {
    let data = TspData::from_str("1 2").unwrap();
    assert_eq!(data.nodes.len(), 1);
    assert_point(&data.nodes[0], 1, "1", "2");
}

#[test]
fn text_with_an_empty_line_is_too_short() {
    assert!(matches!(TspData::from_str(""), Err(Error::CoordLineTooShort)));
    assert!(matches!(TspData::from_str("1 2\n"), Err(Error::CoordLineTooShort)));
    assert!(matches!(TspData::from_str("1 2\n\n3 4"), Err(Error::CoordLineTooShort)));
    assert!(matches!(TspData::from_str("\n1 2"), Err(Error::CoordLineTooShort)));
}

#[test]
fn text_fails_with_the_error_of_its_first_bad_line() {
    assert!(matches!(TspData::from_str("1 2\nx y\n3"), Err(Error::UnparsableCoord)));
    assert!(matches!(TspData::from_str("1 2\n3\nx y"), Err(Error::CoordLineTooShort)));
    assert!(matches!(TspData::from_str("1 2\n3 4\n5 six"), Err(Error::UnparsableCoord)));
}

#[test]
fn text_lines_end_at_line_feeds_only() {
    let data = TspData::from_str("1 2\r\n3 4\r").unwrap();
    assert_eq!(data.nodes.len(), 2);
    assert_point(&data.nodes[1], 2, "3", "4");
    let data = TspData::from_str("1\r2").unwrap();
    assert_eq!(data.nodes.len(), 1);
    assert_point(&data.nodes[0], 1, "1", "2");
}

#[test]
fn new_data_holds_the_points_given() {
    let one = parse_node_coord_section_line("1 2", 5).unwrap();
    let data = TspData::new(vec![one]);
    assert_eq!(data.nodes.len(), 1);
    assert_point(&data.nodes[0], 5, "1", "2");
}

#[test]
fn white_space_is_what_the_standard_library_takes_for_it() {
    for code in 0..=0x10FFFFu32 {
        if let Some(c) = char::from_u32(code) {
            assert_eq!(is_space(c), c.is_whitespace(), "{:x}", code);
        }
    }
}

#[test]
fn entries_are_those_that_splitting_at_white_space_gives() {
    let lines = [
        "1 2",
        " 1  2 ",
        "\t10.5\u{2003}20.25\u{85}30",
        "1\u{b}2",
        "1\u{200b}2 3",
        "4\u{feff} 5 6",
    ];
    for line in lines {
        let mut split = line.split_whitespace();
        let first = Decimal::from_str(split.next().unwrap());
        let second = Decimal::from_str(split.next().unwrap());
        match (first, second, parse_node_coord_section_line(line, 1)) {
            (Ok(x), Ok(y), Ok(node)) => {
                assert_eq!(value_of(node.x), x);
                assert_eq!(value_of(node.y), y);
            }
            (Ok(_), Ok(_), Err(_)) => panic!("{:?}", line),
            (_, _, outcome) => assert!(matches!(outcome, Err(Error::UnparsableCoord)), "{:?}", line),
        }
    }
}

const DJ38: [(&str, &str); 38] = [
    ("11003.611100", "42102.500000"),
    ("11108.611100", "42373.888900"),
    ("11133.333300", "42885.833300"),
    ("11155.833300", "42712.500000"),
    ("11183.333300", "42933.333300"),
    ("11297.500000", "42853.333300"),
    ("11310.277800", "42929.444400"),
    ("11416.666700", "42983.333300"),
    ("11423.888900", "43000.277800"),
    ("11438.333300", "42057.222200"),
    ("11461.111100", "43252.777800"),
    ("11485.555600", "43187.222200"),
    ("11503.055600", "42855.277800"),
    ("11511.388900", "42106.388900"),
    ("11522.222200", "42841.944400"),
    ("11569.444400", "43136.666700"),
    ("11583.333300", "43150.000000"),
    ("11595.000000", "43148.055600"),
    ("11600.000000", "43150.000000"),
    ("11690.555600", "42686.666700"),
    ("11715.833300", "41836.111100"),
    ("11751.111100", "42814.444400"),
    ("11770.277800", "42651.944400"),
    ("11785.277800", "42884.444400"),
    ("11822.777800", "42673.611100"),
    ("11846.944400", "42660.555600"),
    ("11963.055600", "43290.555600"),
    ("11973.055600", "43026.111100"),
    ("12058.333300", "42195.555600"),
    ("12149.444400", "42477.500000"),
    ("12286.944400", "43355.555600"),
    ("12300.000000", "42433.333300"),
    ("12355.833300", "43156.388900"),
    ("12363.333300", "43189.166700"),
    ("12372.777800", "42711.388900"),
    ("12386.666700", "43334.722200"),
    ("12421.666700", "42895.555600"),
    ("12645.000000", "42973.333300"),
];

fn dj38_text() -> String {
    let lines: Vec<String> = DJ38.iter().map(|(x, y)| format!("{} {}", x, y)).collect();
    lines.join("\n")
}

#[test]
fn dj38() {
    let text = dj38_text();
    let data = read(Some(&text)).expect("");
    assert_eq!(data.nodes.len(), DJ38.len());
    for (at, (x, y)) in DJ38.iter().enumerate() {
        assert_point(&data.nodes[at], at as u32 + 1, x, y);
    }
}

#[test]
fn file_not_found() {
    let parsed = read(None);
    let error = parsed.err().expect("");
    assert!(matches!(error, Error::InstanceNotFound))
}

#[test]
fn coord_line_too_short() {
    let text = dj38_text().replace("11155.833300 42712.500000", "11155.833300");
    let parsed = read(Some(&text));
    let error = parsed.err().expect("");
    assert!(matches!(error, Error::CoordLineTooShort))
}

#[test]
fn unparsable_coord() {
    let text = dj38_text().replace("11155.833300 42712.500000", "11155.833300 4271x.500000");
    let parsed = read(Some(&text));
    let error = parsed.err().expect("");
    assert!(matches!(error, Error::UnparsableCoord))
}

#[test]
fn instance_is_read_from_what_its_file_held() {
    let data = read(Some("1 2\n3 4")).unwrap();
    assert_eq!(data.nodes.len(), 2);
    assert_point(&data.nodes[0], 1, "1", "2");
    assert_point(&data.nodes[1], 2, "3", "4");
    assert!(matches!(read(Some("1 2\n3")), Err(Error::CoordLineTooShort)));
    assert!(matches!(read(Some("1 2\n3 x")), Err(Error::UnparsableCoord)));
    assert!(matches!(read(Some("")), Err(Error::CoordLineTooShort)));
}

#[test]
fn dj38_is_searched_from_a_greedy_and_from_a_shuffled_tour() {
    let data = read(Some(&dj38_text())).unwrap();
    let mut instance = TspInstance::new(data.nodes, StdRng::seed_from_u64(38)).unwrap();
    assert!(instance.is_well_formed());
    for i in 0..38 {
        assert_eq!(instance.distance_matrix[i][i].mantissa(), 0);
        for j in 0..38 {
            assert_eq!(
                value_of(instance.distance_matrix[i][j]),
                value_of(instance.distance_matrix[j][i])
            );
            assert!(i == j || instance.distance_matrix[i][j].mantissa() > 0);
        }
    }
    let greedy = instance.generate_candidate().unwrap();
    assert!(instance.is_tour(&greedy));
    assert_eq!(greedy.city_order[0], 0);
    instance.initial = InitialSolutionGenerationAlgorithm::Shuffle;
    let shuffled = instance.generate_candidate().unwrap();
    assert!(instance.is_tour(&shuffled));
    assert!(greedy.travel_distance.is_less_than(&shuffled.travel_distance));
    let mut best = instance.clone_candidate(&shuffled);
    for _ in 0..2000 {
        let next = instance.tweak_candidate(&best).unwrap();
        assert!(instance.is_tour(&next));
        let better = instance.rank_candidate(&best).is_less_than(&instance.rank_candidate(&next));
        assert_eq!(better, next.travel_distance.is_less_than(&best.travel_distance));
        if better {
            best = next;
        }
    }
    assert!(best.travel_distance.is_less_than(&shuffled.travel_distance));
}
