use vstd::prelude::*;

use crate::basic::Point;
use crate::error::GeometryError;
use crate::line::LineSegment;
use crate::polyline::{
    all_in_plane, all_wf, chain_of, connected, no_repeat, repeat_error, segments_between,
};

verus! {

/// The last segment ends where the first one starts.
pub open spec fn closed(segs: Seq<LineSegment>) -> bool {
    segs[segs.len() - 1].b == segs[0].a
}

/// `k` is the first segment that does not start where the one before it ends.
pub open spec fn first_break(segs: Seq<LineSegment>, k: int) -> bool {
    &&& 1 <= k < segs.len()
    &&& segs[k - 1].b != segs[k].a
    &&& forall|j: int| 1 <= j < k ==> #[trigger] segs[j - 1].b == segs[j].a
}

/// The point list walked around the loop: `pts` as given when it already
/// ends at its first point, else with the first point appended.
pub open spec fn loop_points(pts: Seq<Point>) -> Seq<Point> {
    if pts.last() == pts[0] {
        pts
    } else {
        pts.push(pts[0])
    }
}

/// A closed loop of at least three segments.
pub struct Polygon {
    lines: Vec<LineSegment>,
}

impl Polygon {
    pub closed spec fn segments(&self) -> Seq<LineSegment> {
        self.lines@
    }

    pub open spec fn wf(&self) -> bool {
        &&& self.segments().len() >= 3
        &&& all_wf(self.segments())
        &&& connected(self.segments())
        &&& closed(self.segments())
    }

    #[verifier::type_invariant]
    spec fn loop_invariant(&self) -> bool {
        self.wf()
    }


    /// Checks that `lines` form a closed loop of at least three segments.
    pub fn from_segments(lines: Vec<LineSegment>) -> (r: Result<Polygon, GeometryError>)
        requires
            all_wf(lines@),
        ensures
            lines.len() < 3 ==> r == Err::<Polygon, GeometryError>(
                GeometryError::InsufficientPoints { count: lines.len() },
            ),
            lines.len() >= 3 && !connected(lines@) ==> exists|k: int|
                first_break(lines@, k) && r == Err::<Polygon, GeometryError>(
                    GeometryError::DiscontinuousChain {
                        index: k as usize,
                        end: lines@[k - 1].b,
                        start: lines@[k].a,
                    },
                ),
            lines.len() >= 3 && connected(lines@) && !closed(lines@) ==> r == Err::<
                Polygon,
                GeometryError,
            >(
                GeometryError::UnclosedLoop {
                    first_start: lines@[0].a,
                    last_end: lines@[lines.len() - 1].b,
                },
            ),
            lines.len() >= 3 && connected(lines@) && closed(lines@) ==> r is Ok,
            r is Ok ==> r->Ok_0.wf() && r->Ok_0.segments() == lines@,
    {
        if lines.len() < 3 {
            return Err(GeometryError::InsufficientPoints { count: lines.len() });
        }
        let mut idx: usize = 1;
        while idx < lines.len()
            invariant
                1 <= idx <= lines.len(),
                lines.len() >= 3,
                forall|j: int| 1 <= j < idx ==> #[trigger] lines@[j - 1].b == lines@[j].a,
            decreases lines.len() - idx,
        {
            let end = lines[idx - 1].b;
            let start = lines[idx].a;
            if end != start {
                proof {
                    assert(first_break(lines@, idx as int));
                }
                return Err(GeometryError::DiscontinuousChain { index: idx, end, start });
            }
            idx += 1;
        }
        proof {
            assert forall|i: int| 0 <= i < lines@.len() - 1 implies #[trigger] lines@[i].b
                == lines@[i + 1].a by {
                assert(lines@[(i + 1) - 1].b == lines@[i + 1].a);
            }
        }
        let first_start = lines[0].a;
        let last_end = lines[lines.len() - 1].b;
        if first_start != last_end {
            return Err(GeometryError::UnclosedLoop { first_start, last_end });
        }
        Ok(Polygon { lines })
    }

    /// Builds the loop through `points`, closing it back to the first point
    /// when the last one is elsewhere. Fails with fewer than three points, with
    /// three points whose first and last coincide, or where two consecutive
    /// points of the loop coincide.
    pub fn new(points: Vec<Point>) -> (r: Result<Polygon, GeometryError>)
        requires
            all_in_plane(points@),
        ensures
            points.len() < 3 ==> r == Err::<Polygon, GeometryError>(
                GeometryError::InsufficientPoints { count: points.len() },
            ),
            points.len() == 3 && points@[0] == points@[2] ==> r == Err::<Polygon, GeometryError>(
                GeometryError::DegenerateShape { first: points@[0], last: points@[2] },
            ),
            points.len() >= 3 && !(points.len() == 3 && points@[0] == points@[2]) ==> {
                &&& no_repeat(loop_points(points@)) ==> r is Ok
                &&& !no_repeat(loop_points(points@)) ==> r is Err && repeat_error(
                    loop_points(points@),
                    r->Err_0,
                )
            },
            r is Ok ==> r->Ok_0.wf() && r->Ok_0.segments() == chain_of(loop_points(points@)),
    {
        let n = points.len();
        if n < 3 {
            return Err(GeometryError::InsufficientPoints { count: n });
        }
        let first = points[0];
        let last = points[n - 1];
        if n == 3 && first == last {
            return Err(GeometryError::DegenerateShape { first, last });
        }
        let mut ring = points;
        if last != first {
            ring.push(first);
        }
        proof {
            assert(ring@ =~= loop_points(points@));
            assert(all_in_plane(ring@));
        }
        let lines = segments_between(&ring)?;
        proof {
            let pts = ring@;
            assert(lines@.len() >= 3);
            assert forall|i: int| 0 <= i < lines@.len() - 1 implies #[trigger] lines@[i].b
                == lines@[i + 1].a by {
                assert(lines@[i] == chain_of(pts)[i]);
                assert(lines@[i + 1] == chain_of(pts)[i + 1]);
            }
            assert(lines@[lines@.len() - 1] == chain_of(pts)[lines@.len() - 1]);
            assert(lines@[0] == chain_of(pts)[0]);
            assert(pts.last() == pts[0]);
        }
        Polygon::from_segments(lines)
    }

    /// The loop's corners in order: each segment's start.
    pub fn get_vertices(&self) -> (r: Vec<Point>)
        ensures
            r@.len() == self.segments().len(),
            forall|i: int| 0 <= i < self.segments().len() ==> #[trigger] r@[i] == self.segments()[i].a,
    {
        proof {
            use_type_invariant(self);
        }
        let mut r: Vec<Point> = Vec::new();
        let mut i: usize = 0;
        while i < self.lines.len()
            invariant
                0 <= i <= self.lines.len(),
                r@.len() == i,
                forall|j: int| 0 <= j < i ==> #[trigger] r@[j] == self.lines@[j].a,
            decreases self.lines.len() - i,
        {
            r.push(self.lines[i].a);
            i += 1;
        }
        r
    }
}

} // verus!
