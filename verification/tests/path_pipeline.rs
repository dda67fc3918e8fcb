use wire_paths::line::{Line, Orientation};
use wire_paths::path::{find_intersections, parse_input, parse_path, transform, Direction, PathElement};
use wire_paths::point::{get_closest, Point};

fn closest_distance(moves1: &str, moves2: &str) -> Option<(Point, u32)> {
    let path1 = transform(parse_path(moves1).unwrap());
    let path2 = transform(parse_path(moves2).unwrap());
    let crossings = find_intersections(&path1, &path2);
    get_closest(&crossings).map(|p| (p, p.manhaten_distance()))
}

#[test]
fn test_parse_path_valid_moves() {
    let moves = parse_path("R8,U5,L5,D3").unwrap();
    assert_eq!(moves.len(), 4);
    assert_eq!(moves[0], PathElement { direction: Direction::Right, length: 8 });
    assert_eq!(moves[1], PathElement { direction: Direction::Up, length: 5 });
    assert_eq!(moves[2], PathElement { direction: Direction::Left, length: 5 });
    assert_eq!(moves[3], PathElement { direction: Direction::Down, length: 3 });
}

#[test]
fn test_parse_path_rejects_non_ascii() {
    let err = parse_path("R5,\u{00d9}3").unwrap_err();
    assert_eq!(err.msg, "path data must be ascii encoded");
}

#[test]
fn test_parse_path_rejects_empty_token() {
    let err = parse_path("R5,,U2").unwrap_err();
    assert_eq!(err.msg, "empty line data found");
    let err = parse_path("").unwrap_err();
    assert_eq!(err.msg, "empty line data found");
}

#[test]
fn test_parse_path_rejects_bad_direction() {
    let err = parse_path("X5").unwrap_err();
    assert_eq!(err.msg, "invalid direction");
}

#[test]
fn test_parse_path_rejects_bad_length() {
    let err = parse_path("R").unwrap_err();
    assert_eq!(err.msg, "invalid length");
    let err = parse_path("R5x").unwrap_err();
    assert_eq!(err.msg, "invalid length");
    let err = parse_path("R0").unwrap_err();
    assert_eq!(err.msg, "invalid length");
    let err = parse_path("U99999999999").unwrap_err();
    assert_eq!(err.msg, "invalid length");
}

#[test]
fn test_parse_input_two_lines() {
    let (path1, path2) = parse_input("R8,U5,L5,D3\nU7,R6,D4,L4\n").unwrap();
    assert_eq!(path1.len(), 4);
    assert_eq!(path2.len(), 4);
    assert_eq!(path1[0], PathElement { direction: Direction::Right, length: 8 });
    assert_eq!(path2[0], PathElement { direction: Direction::Up, length: 7 });
}

#[test]
fn test_parse_input_crlf_and_no_trailing_newline() {
    let (path1, path2) = parse_input("R1\r\nU2").unwrap();
    assert_eq!(path1, vec![PathElement { direction: Direction::Right, length: 1 }]);
    assert_eq!(path2, vec![PathElement { direction: Direction::Up, length: 2 }]);
}

#[test]
fn test_parse_input_wrong_line_count() {
    let err = parse_input("R1").unwrap_err();
    assert_eq!(err.msg, "2 paths required");
    let err = parse_input("R1\nU2\nL3").unwrap_err();
    assert_eq!(err.msg, "2 paths required");
    let err = parse_input("").unwrap_err();
    assert_eq!(err.msg, "2 paths required");
}

#[test]
fn test_parse_input_propagates_token_errors() {
    let err = parse_input("R1\nU2,X3").unwrap_err();
    assert_eq!(err.msg, "invalid direction");
    let err = parse_input("R1,\nU2").unwrap_err();
    assert_eq!(err.msg, "empty line data found");
}

#[test]
fn test_transform_builds_one_segment_per_move() {
    let moves = parse_path("R2,U3,L1,D1").unwrap();
    let chain = transform(moves);
    assert_eq!(chain.len(), 4);
    // canonical start is the running position for rightward/upward moves,
    // and the position after the move for leftward/downward ones
    assert_eq!(
        chain[0],
        Line { orientation: Orientation::Horizontal, start: Point::new(0, 0), len: 2 }
    );
    assert_eq!(
        chain[1],
        Line { orientation: Orientation::Vertical, start: Point::new(2, 0), len: 3 }
    );
    assert_eq!(
        chain[2],
        Line { orientation: Orientation::Horizontal, start: Point::new(1, 3), len: 1 }
    );
    assert_eq!(
        chain[3],
        Line { orientation: Orientation::Vertical, start: Point::new(1, 2), len: 1 }
    );
}

#[test]
fn test_crossing_example_small() {
    let (closest, distance) = closest_distance("R8,U5,L5,D3", "U7,R6,D4,L4").unwrap();
    assert_eq!(closest, Point::new(3, 3));
    assert_eq!(distance, 6);
}

#[test]
fn test_crossing_example_large() {
    let (_, distance) = closest_distance(
        "R75,D30,R83,U83,L12,D49,R71,U7,L72",
        "U62,R66,U55,R34,D71,R55,D58,R83",
    )
    .unwrap();
    assert_eq!(distance, 159);
}

#[test]
fn test_intersections_report_shared_origin() {
    // two chains sharing only their starting point: the raw result still
    // holds the origin; filtering it is the caller's responsibility
    let path1 = transform(parse_path("R2").unwrap());
    let path2 = transform(parse_path("U2").unwrap());
    let crossings = find_intersections(&path1, &path2);
    assert_eq!(crossings, vec![Point::new(0, 0)]);
    assert_eq!(get_closest(&crossings), None);
}

#[test]
fn test_intersections_no_crossings() {
    let path1 = transform(parse_path("R2").unwrap());
    let path2 = transform(parse_path("L2").unwrap());
    let crossings = find_intersections(&path1, &path2);
    // the chains share only the origin
    assert_eq!(crossings, vec![Point::new(0, 0)]);

    // two segment chains that share no point at all
    let far1 = vec![Line::new(Point::new(5, 5), Point::new(6, 5)).unwrap()];
    let far2 = vec![Line::new(Point::new(0, 0), Point::new(0, 1)).unwrap()];
    assert!(find_intersections(&far1, &far2).is_empty());
}

#[test]
fn test_intersections_deduplicated() {
    // collinear overlap: shared points are reported once each
    let path1 = transform(parse_path("R3").unwrap());
    let path2 = transform(parse_path("R2,R1").unwrap());
    let mut crossings = find_intersections(&path1, &path2);
    crossings.sort_by_key(|p| p.x);
    assert_eq!(
        crossings,
        vec![Point::new(0, 0), Point::new(1, 0), Point::new(2, 0), Point::new(3, 0)]
    );
}
