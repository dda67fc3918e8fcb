//! Axis-aligned grid segments: construction, membership, point enumeration.

use vstd::prelude::*;

use crate::myerror::MyError;
use crate::point::Point;

verus! {

#[derive(Debug, PartialEq, Eq, Clone, Copy, Structural)]
pub enum Orientation {
    Horizontal,
    Vertical,
}

/// An axis-aligned run of grid points, stored in canonical form: `start` is
/// the endpoint with the smaller coordinate along the segment's axis, and
/// `len` is the (positive) distance to the other endpoint. Both endpoints
/// belong to the segment.
#[derive(Debug, PartialEq, Eq, Clone, Copy, Structural)]
pub struct Line {
    pub orientation: Orientation,
    pub start: Point,
    pub len: usize,
}

/// The canonical segment between two distinct axis-aligned points: the
/// lexicographically lower endpoint becomes `start`, the coordinate gap
/// becomes `len`.
pub open spec fn line_between(a: Point, b: Point) -> Line {
    if a.x == b.x {
        Line {
            orientation: Orientation::Vertical,
            start: Point { x: a.x, y: vstd::math::min(a.y as int, b.y as int) as i32 },
            len: vstd::math::abs(b.y - a.y) as usize,
        }
    } else {
        Line {
            orientation: Orientation::Horizontal,
            start: Point { x: vstd::math::min(a.x as int, b.x as int) as i32, y: a.y },
            len: vstd::math::abs(b.x - a.x) as usize,
        }
    }
}

impl Line {
    /// The coordinate of `start` along the segment's own axis.
    pub open spec fn axis_start(self) -> int {
        match self.orientation {
            Orientation::Horizontal => self.start.x as int,
            Orientation::Vertical => self.start.y as int,
        }
    }

    /// Well-formed: at least one step long, and the far endpoint still fits
    /// in the coordinate type.
    pub open spec fn wf(self) -> bool {
        1 <= self.len && self.axis_start() + self.len <= i32::MAX
    }

    /// The grid point `i` steps from `start` along the segment's axis.
    pub open spec fn point_at(self, i: int) -> Point {
        match self.orientation {
            Orientation::Horizontal => Point { x: (self.start.x + i) as i32, y: self.start.y },
            Orientation::Vertical => Point { x: self.start.x, y: (self.start.y + i) as i32 },
        }
    }

    /// Membership: `p` lies on this segment, both endpoints included.
    pub open spec fn on_line(self, p: Point) -> bool {
        match self.orientation {
            Orientation::Horizontal => p.y == self.start.y && self.start.x <= p.x
                && p.x <= self.start.x + self.len,
            Orientation::Vertical => p.x == self.start.x && self.start.y <= p.y
                && p.y <= self.start.y + self.len,
        }
    }

    /// Builds the canonical segment between `start` and `end`.
    /// Fails when the points coincide (a degenerate segment) or when they
    /// differ in both coordinates (only axis-aligned segments exist).
    pub fn new(start: Point, end: Point) -> (r: Result<Line, MyError>)
        ensures
            r is Ok <==> start != end && (start.x == end.x || start.y == end.y),
            r matches Ok(l) ==> l == line_between(start, end) && l.wf(),
            start == end ==> (r matches Err(e)
                && e.msg@ == "identical points can not make a line"@),
            start != end && start.x != end.x && start.y != end.y ==> (r matches Err(e)
                && e.msg@ == "line must be horizontal or vertical"@),
    {
        if start == end {
            return Err(MyError::new("identical points can not make a line"));
        }

        if start.x == end.x {
            let s = if start.y <= end.y { start } else { end };
            let d: i64 = (end.y as i64) - (start.y as i64);
            let len: usize = (if d >= 0 { d } else { -d }) as usize;
            Ok(Line { orientation: Orientation::Vertical, start: s, len })
        } else if start.y == end.y {
            let s = if start.x <= end.x { start } else { end };
            let d: i64 = (end.x as i64) - (start.x as i64);
            let len: usize = (if d >= 0 { d } else { -d }) as usize;
            Ok(Line { orientation: Orientation::Horizontal, start: s, len })
        } else {
            Err(MyError::new("line must be horizontal or vertical"))
        }
    }

    /// Whether `p` lies on this segment (endpoints included).
    pub fn is_on(&self, p: &Point) -> (r: bool)
        ensures
            r == self.on_line(*p),
    {
        match self.orientation {
            Orientation::Horizontal => {
                if p.y != self.start.y {
                    return false;
                }
                let d: i64 = (p.x as i64) - (self.start.x as i64);
                d >= 0 && (d as u64) <= (self.len as u64)
            },
            Orientation::Vertical => {
                if p.x != self.start.x {
                    return false;
                }
                let d: i64 = (p.y as i64) - (self.start.y as i64);
                d >= 0 && (d as u64) <= (self.len as u64)
            },
        }
    }

    /// A fresh enumeration cursor over this segment's points, starting at
    /// offset 0. Each call yields an independent cursor, so enumerations
    /// never share state.
    pub fn iter(&self) -> (r: LineIter)
        ensures
            r.line == *self,
            r.current_pos == 0,
    {
        LineIter { line: *self, current_pos: 0 }
    }
}

/// A cursor over the points of one segment: yields `point_at(0)` through
/// `point_at(len)` in order, then stays exhausted.
pub struct LineIter {
    pub line: Line,
    pub current_pos: u64,
}

impl LineIter {
    pub fn next(&mut self) -> (r: Option<Point>)
        requires
            old(self).line.wf(),
        ensures
            final(self).line == old(self).line,
            old(self).current_pos <= old(self).line.len ==> (
                r == Some(old(self).line.point_at(old(self).current_pos as int))
                && final(self).current_pos == old(self).current_pos + 1
            ),
            old(self).current_pos > old(self).line.len ==> (
                r is None && final(self).current_pos == old(self).current_pos
            ),
    {
        if self.current_pos > (self.line.len as u64) {
            return None;
        }

        let p = match self.line.orientation {
            Orientation::Horizontal => Point {
                x: ((self.line.start.x as i64) + (self.current_pos as i64)) as i32,
                y: self.line.start.y,
            },
            Orientation::Vertical => Point {
                x: self.line.start.x,
                y: ((self.line.start.y as i64) + (self.current_pos as i64)) as i32,
            },
        };
        self.current_pos = self.current_pos + 1;
        Some(p)
    }
}

/// Law: a segment built from two distinct axis-aligned points contains both
/// of them, and is well-formed.
pub proof fn lemma_new_contains_endpoints(a: Point, b: Point)
    requires
        a != b,
        a.x == b.x || a.y == b.y,
    ensures
        line_between(a, b).wf(),
        line_between(a, b).on_line(a),
        line_between(a, b).on_line(b),
{
}

/// Law: every offset from 0 through `len` lands on a well-formed segment.
pub proof fn lemma_offsets_on_line(l: Line)
    requires
        l.wf(),
    ensures
        forall|i: int| 0 <= i <= l.len ==> l.on_line(#[trigger] l.point_at(i)),
{
}

/// Law: an offset outside `0 ..= len` whose coordinate still fits in the
/// coordinate type lies strictly off the segment.
pub proof fn lemma_offsets_off_line(l: Line, i: int)
    requires
        l.wf(),
        i < 0 || i > l.len,
        i32::MIN <= l.axis_start() + i <= i32::MAX,
    ensures
        !l.on_line(l.point_at(i)),
{
}

/// Law: a point lies on a well-formed segment exactly when it is one of the
/// `len + 1` points the segment enumerates.
pub proof fn lemma_on_line_iff_offset(l: Line, p: Point)
    requires
        l.wf(),
    ensures
        l.on_line(p) <==> exists|i: int| 0 <= i <= l.len && p == l.point_at(i),
{
    if l.on_line(p) {
        let i = match l.orientation {
            Orientation::Horizontal => p.x - l.start.x,
            Orientation::Vertical => p.y - l.start.y,
        };
        assert(0 <= i <= l.len && p == l.point_at(i));
    }
}

} // verus!
