use wire_paths::line::{Line, LineIter, Orientation};
use wire_paths::myerror::MyError;
use wire_paths::point::{get_closest, Point};

#[test]
fn test_new_line() {
    // same point
    assert_eq!(
        Line::new(Point::new(1, 1), Point::new(1, 1)),
        Err(MyError::new("identical points can not make a line")),
        "same point"
    );
    // invalid orientation
    assert_eq!(
        Line::new(Point::new(1, 1), Point::new(2, 2)),
        Err(MyError::new("line must be horizontal or vertical")),
        "invalid orientation"
    );
    // positive-positive vert line
    assert_eq!(
        Line::new(Point::new(1, 1), Point::new(1, 2)),
        Ok(Line { orientation: Orientation::Vertical, start: Point::new(1, 1), len: 1 }),
        "positive-positive vert line"
    );
    // negative-positive vert line
    assert_eq!(
        Line::new(Point::new(1, -2), Point::new(1, 5)),
        Ok(Line { orientation: Orientation::Vertical, start: Point::new(1, -2), len: 7 }),
        "negative-positive vert line"
    );
    // negative-negative vert line
    assert_eq!(
        Line::new(Point::new(1, -2), Point::new(1, -5)),
        Ok(Line { orientation: Orientation::Vertical, start: Point::new(1, -5), len: 3 }),
        "negative-negative vert line"
    );
    // positive-positive horiz line
    assert_eq!(
        Line::new(Point::new(1, 1), Point::new(3, 1)),
        Ok(Line { orientation: Orientation::Horizontal, start: Point::new(1, 1), len: 2 }),
        "positive-positive horiz line"
    );
    // negative-positive horiz line
    assert_eq!(
        Line::new(Point::new(1, 1), Point::new(-9, 1)),
        Ok(Line { orientation: Orientation::Horizontal, start: Point::new(-9, 1), len: 10 }),
        "negative-positive horiz line"
    );
    assert_eq!(
        Line::new(Point::new(-6, 1), Point::new(-9, 1)),
        Ok(Line { orientation: Orientation::Horizontal, start: Point::new(-9, 1), len: 3 }),
        "negative-positive horiz line"
    );
}

#[test]
fn test_is_on() {
    let line = Line::new(Point::new(1, 1), Point::new(1, 5)).unwrap();
    assert_eq!(line.is_on(&Point::new(1, 3)), true, "sanity on line");
    assert_eq!(line.is_on(&Point::new(1, 6)), false, "sanity off line");
    assert_eq!(line.is_on(&Point::new(1, 5)), true, "last point included");
    assert_eq!(line.is_on(&Point::new(1, 1)), true, "first point included");
}

#[test]
fn test_closest() {
    // empty
    let points: Vec<Point> = vec![];
    assert_eq!(get_closest(&points), None, "empty");
    // sanity
    let points = vec![
        Point::new(-3, 0),
        Point::new(1, 2),
        Point::new(1, 1),
        Point::new(1, 3),
    ];
    assert_eq!(get_closest(&points), Some(Point::new(1, 1)), "sanity");
    // zero point only
    let points = vec![Point::new(0, 0)];
    assert_eq!(get_closest(&points), None, "zero point only");
    // zero point not returned
    let points = vec![Point::new(0, 0), Point::new(1, 1), Point::new(2, 2)];
    assert_eq!(get_closest(&points), Some(Point::new(1, 1)), "zero point not returned");
}

#[test]
fn test_manhaten_distance() {
    assert_eq!(Point::new(0, 0).manhaten_distance(), 0, "zero");
    assert_eq!(Point::new(4, 8).manhaten_distance(), 12, "both positive");
    assert_eq!(Point::new(-3, -7).manhaten_distance(), 10, "both negative");
    assert_eq!(Point::new(-3, 12).manhaten_distance(), 15, "one negative one positive");
}

#[test]
fn test_iter_enumerates_every_point() {
    let line = Line::new(Point::new(1, 1), Point::new(1, 5)).unwrap();
    let mut iter = line.iter();
    let mut points: Vec<Point> = Vec::new();
    while let Some(p) = iter.next() {
        points.push(p);
    }
    assert_eq!(
        points,
        vec![
            Point::new(1, 1),
            Point::new(1, 2),
            Point::new(1, 3),
            Point::new(1, 4),
            Point::new(1, 5),
        ]
    );
}

#[test]
fn test_iter_restarts_fresh() {
    let line = Line::new(Point::new(2, 0), Point::new(4, 0)).unwrap();
    let mut first = line.iter();
    assert_eq!(first.next(), Some(Point::new(2, 0)));
    assert_eq!(first.next(), Some(Point::new(3, 0)));
    // a second enumeration starts over from offset 0
    let mut second: LineIter = line.iter();
    assert_eq!(second.next(), Some(Point::new(2, 0)));
    assert_eq!(first.next(), Some(Point::new(4, 0)));
    assert_eq!(first.next(), None);
    assert_eq!(first.next(), None);
}

#[test]
fn test_is_on_horizontal_bounds() {
    let line = Line::new(Point::new(1, 1), Point::new(5, 1)).unwrap();
    assert!(line.is_on(&Point::new(1, 1)));
    assert!(line.is_on(&Point::new(3, 1)));
    assert!(line.is_on(&Point::new(5, 1)));
    assert!(!line.is_on(&Point::new(0, 1)));
    assert!(!line.is_on(&Point::new(6, 1)));
    assert!(!line.is_on(&Point::new(3, 2)));
}

#[test]
fn test_closest_tie_gives_minimum_distance() {
    let points = vec![Point::new(2, 1), Point::new(-1, -2), Point::new(0, 4)];
    let closest = get_closest(&points).unwrap();
    assert_eq!(closest.manhaten_distance(), 3);
}
