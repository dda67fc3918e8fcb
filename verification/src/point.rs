//! 2D integer grid points and closest-point selection.

use vstd::prelude::*;

verus! {

/// An immutable 2D integer coordinate, compared structurally by `(x, y)`.
#[derive(Hash, Debug, Clone, Copy, PartialEq, Eq, Structural)]
pub struct Point {
    pub x: i32,
    pub y: i32,
}

/// The origin `(0, 0)`, the common anchor of every path chain.
pub open spec fn origin() -> Point {
    Point { x: 0, y: 0 }
}

/// `|x| + |y|`: the Manhattan distance of a point from the origin.
pub open spec fn manhattan_spec(p: Point) -> int {
    vstd::math::abs(p.x as int) + vstd::math::abs(p.y as int) as int
}

impl Point {
    pub fn new(x: i32, y: i32) -> (r: Point)
        ensures
            r == (Point { x, y }),
    {
        Point { x, y }
    }

    /// The Manhattan distance of this point from the origin.
    pub fn manhaten_distance(&self) -> (r: u32)
        requires
            manhattan_spec(*self) <= u32::MAX,
        ensures
            r == manhattan_spec(*self),
    {
        let ax: u32 = if self.x >= 0 {
            self.x as u32
        } else {
            (-(self.x as i64)) as u32
        };
        let ay: u32 = if self.y >= 0 {
            self.y as u32
        } else {
            (-(self.y as i64)) as u32
        };
        ax + ay
    }
}

/// Among the given points, the one with the smallest Manhattan distance,
/// the origin excluded; `None` when no point other than the origin is there.
/// When several points share the minimum distance, which of them is returned
/// is not specified.
pub fn get_closest(points: &[Point]) -> (r: Option<Point>)
    requires
        forall|i: int| 0 <= i < points@.len() ==> manhattan_spec(#[trigger] points@[i]) <= u32::MAX,
    ensures
        r is None <==> (forall|i: int| 0 <= i < points@.len() ==> #[trigger] points@[i] == origin()),
        r matches Some(p) ==> points@.contains(p) && p != origin()
            && forall|i: int| 0 <= i < points@.len() && #[trigger] points@[i] != origin()
                ==> manhattan_spec(p) <= manhattan_spec(points@[i]),
{
    let mut min_point: Option<Point> = None;
    let mut min_distance: u32 = u32::MAX;
    let mut k: usize = 0;
    while k < points.len()
        invariant
            0 <= k <= points@.len(),
            forall|i: int| 0 <= i < points@.len() ==> manhattan_spec(#[trigger] points@[i]) <= u32::MAX,
            min_point is None <==> (forall|i: int| 0 <= i < k ==> #[trigger] points@[i] == origin()),
            min_point matches Some(p) ==> points@.contains(p) && p != origin()
                && min_distance == manhattan_spec(p)
                && forall|i: int| 0 <= i < k && #[trigger] points@[i] != origin()
                    ==> manhattan_spec(p) <= manhattan_spec(points@[i]),
        decreases points@.len() - k,
    {
        let p = points[k];
        if p.x == 0 && p.y == 0 {
            k = k + 1;
            continue;
        }
        let d = p.manhaten_distance();
        if d < min_distance || min_point.is_none() {
            min_distance = d;
            min_point = Some(p);
        }
        k = k + 1;
    }
    min_point
}

} // verus!
