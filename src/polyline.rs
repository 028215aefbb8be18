use vstd::prelude::*;

use crate::basic::Point;
use crate::error::GeometryError;
use crate::line::LineSegment;

verus! {

/// Every point lies within the plane's representable range.
pub open spec fn all_in_plane(pts: Seq<Point>) -> bool {
    forall|i: int| 0 <= i < pts.len() ==> #[trigger] pts[i].in_plane()
}

/// One segment per consecutive pair of points.
pub open spec fn chain_of(pts: Seq<Point>) -> Seq<LineSegment> {
    Seq::new((pts.len() - 1) as nat, |i: int| LineSegment { a: pts[i], b: pts[i + 1] })
}

/// No two consecutive points coincide.
pub open spec fn no_repeat(pts: Seq<Point>) -> bool {
    forall|j: int| 0 <= j < pts.len() - 1 ==> #[trigger] pts[j] != pts[j + 1]
}

/// `k` is the first place where two consecutive points coincide.
pub open spec fn first_repeat(pts: Seq<Point>, k: int) -> bool {
    &&& 0 <= k < pts.len() - 1
    &&& pts[k] == pts[k + 1]
    &&& forall|j: int| 0 <= j < k ==> #[trigger] pts[j] != pts[j + 1]
}

/// The error for the first pair of coincident consecutive points.
pub open spec fn repeat_error(pts: Seq<Point>, e: GeometryError) -> bool {
    exists|k: int|
        first_repeat(pts, k) && e == (GeometryError::DegenerateSegment { a: pts[k], b: pts[k + 1] })
}

/// Segments laid end to end: each starts where the one before it ends.
pub open spec fn connected(segs: Seq<LineSegment>) -> bool {
    forall|i: int| 0 <= i < segs.len() - 1 ==> #[trigger] segs[i].b == segs[i + 1].a
}

pub open spec fn all_wf(segs: Seq<LineSegment>) -> bool {
    forall|i: int| 0 <= i < segs.len() ==> #[trigger] segs[i].wf()
}

/// The smallest distance from `p` to any of `segs` (zero for no segment).
pub open spec fn min_distance(segs: Seq<LineSegment>, p: Point) -> nat
    decreases segs.len(),
{
    if segs.len() == 0 {
        0
    } else if segs.len() == 1 {
        segs[0].distance_spec(p)
    } else {
        let m = min_distance(segs.drop_last(), p);
        let d = segs.last().distance_spec(p);
        if d < m {
            d
        } else {
            m
        }
    }
}

/// Builds one segment per consecutive pair of `points`.
pub(crate) fn segments_between(points: &Vec<Point>) -> (r: Result<Vec<LineSegment>, GeometryError>)
    requires
        points.len() >= 1,
        all_in_plane(points@),
    ensures
        no_repeat(points@) <==> r is Ok,
        r is Ok ==> r->Ok_0@ == chain_of(points@) && all_wf(r->Ok_0@),
        r is Err ==> repeat_error(points@, r->Err_0),
{
    let mut lines: Vec<LineSegment> = Vec::new();
    let mut idx: usize = 0;
    let n = points.len() - 1;
    while idx < n
        invariant
            n == points.len() - 1,
            idx <= n,
            all_in_plane(points@),
            lines@.len() == idx,
            forall|j: int|
                0 <= j < idx ==> #[trigger] lines@[j] == (LineSegment {
                    a: points@[j],
                    b: points@[j + 1],
                }),
            forall|j: int| 0 <= j < idx ==> #[trigger] points@[j] != points@[j + 1],
        decreases n - idx,
    {
        proof {
            assert(points@[idx as int].in_plane());
            assert(points@[idx + 1].in_plane());
        }
        match LineSegment::new(points[idx], points[idx + 1]) {
            Ok(line) => {
                lines.push(line);
            },
            Err(e) => {
                proof {
                    assert(first_repeat(points@, idx as int));
                }
                return Err(e);
            },
        }
        idx += 1;
    }
    proof {
        assert(lines@ =~= chain_of(points@));
        assert forall|i: int| 0 <= i < lines@.len() implies #[trigger] lines@[i].wf() by {
            assert(points@[i].in_plane());
            assert(points@[i + 1].in_plane());
            assert(points@[i] != points@[i + 1]);
        }
    }
    Ok(lines)
}

/// An open chain of at least one segment.
pub struct PolyLine {
    lines: Vec<LineSegment>,
}

impl PolyLine {
    pub closed spec fn segments(&self) -> Seq<LineSegment> {
        self.lines@
    }

    pub open spec fn wf(&self) -> bool {
        &&& self.segments().len() >= 1
        &&& all_wf(self.segments())
        &&& connected(self.segments())
    }

    #[verifier::type_invariant]
    spec fn chain_invariant(&self) -> bool {
        self.wf()
    }


    /// Builds the chain through `points`, in order. Fails with fewer than two
    /// points, or where two consecutive points coincide.
    pub fn new(points: Vec<Point>) -> (r: Result<PolyLine, GeometryError>)
        requires
            all_in_plane(points@),
        ensures
            points.len() < 2 ==> r == Err::<PolyLine, GeometryError>(
                GeometryError::InsufficientPoints { count: points.len() },
            ),
            points.len() >= 2 && no_repeat(points@) ==> r is Ok,
            points.len() >= 2 && !no_repeat(points@) ==> r is Err && repeat_error(
                points@,
                r->Err_0,
            ),
            r is Ok ==> r->Ok_0.wf() && r->Ok_0.segments() == chain_of(points@),
    {
        if points.len() < 2 {
            return Err(GeometryError::InsufficientPoints { count: points.len() });
        }
        let lines = segments_between(&points)?;
        proof {
            assert forall|i: int| 0 <= i < lines@.len() - 1 implies #[trigger] lines@[i].b
                == lines@[i + 1].a by {
                assert(lines@[i] == chain_of(points@)[i]);
                assert(lines@[i + 1] == chain_of(points@)[i + 1]);
            }
        }
        Ok(PolyLine { lines })
    }

    /// The smallest distance from `p` to any segment of the chain, rounded down.
    pub fn distance_to(&self, p: &Point) -> (r: u64)
        requires
            p.in_plane(),
        ensures
            r == min_distance(self.segments(), *p),
    {
        proof {
            use_type_invariant(self);
        }
        let segs = Ghost(self.lines@);
        let mut best = self.lines[0].distance_to_point(p);
        let mut i: usize = 1;
        proof {
            assert(segs@.take(1).drop_last() =~= Seq::<LineSegment>::empty());
            assert(segs@.take(1)[0] == segs@[0]);
        }
        while i < self.lines.len()
            invariant
                segs@ == self.lines@,
                self.wf(),
                p.in_plane(),
                1 <= i <= self.lines.len(),
                best == min_distance(segs@.take(i as int), *p),
            decreases self.lines.len() - i,
        {
            assert(self.lines@[i as int].wf());
            let d = self.lines[i].distance_to_point(p);
            proof {
                assert(segs@.take(i + 1).drop_last() =~= segs@.take(i as int));
                assert(segs@.take(i + 1).last() == segs@[i as int]);
            }
            if d < best {
                best = d;
            }
            i += 1;
        }
        proof {
            assert(segs@.take(i as int) =~= segs@);
        }
        best
    }

    /// The chain's points in order: the first segment's start, then every segment's end.
    pub fn get_vertices(&self) -> (r: Vec<Point>)
        ensures
            r@ == chain_vertices(self.segments()),
    {
        proof {
            use_type_invariant(self);
        }
        let mut r: Vec<Point> = Vec::new();
        r.push(self.lines[0].a);
        let mut i: usize = 0;
        while i < self.lines.len()
            invariant
                0 <= i <= self.lines.len(),
                r@.len() == i + 1,
                r@[0] == self.lines@[0].a,
                forall|j: int| 0 <= j < i ==> #[trigger] r@[j + 1] == self.lines@[j].b,
            decreases self.lines.len() - i,
        {
            r.push(self.lines[i].b);
            i += 1;
        }
        assert forall|k: int| 1 <= k < r@.len() implies r@[k] == self.lines@[k - 1].b by {
            assert(r@[(k - 1) + 1] == self.lines@[k - 1].b);
        }
        assert(r@ =~= chain_vertices(self.segments()));
        r
    }
}

/// The distance of a chain to a point is the smallest of its segments'
/// distances: no segment is nearer, and one segment is that near.
pub proof fn lemma_min_distance_is_least(segs: Seq<LineSegment>, p: Point)
    requires
        segs.len() >= 1,
    ensures
        forall|i: int| 0 <= i < segs.len() ==> min_distance(segs, p) <= #[trigger] segs[i].distance_spec(p),
        exists|i: int| 0 <= i < segs.len() && min_distance(segs, p) == #[trigger] segs[i].distance_spec(p),
    decreases segs.len(),
{
    if segs.len() > 1 {
        let rest = segs.drop_last();
        lemma_min_distance_is_least(rest, p);
        assert forall|i: int| 0 <= i < segs.len() implies min_distance(segs, p) <= #[trigger] segs[i].distance_spec(p) by {
            if i < segs.len() - 1 {
                assert(rest[i] == segs[i]);
            }
        }
        let k = choose|k: int| 0 <= k < rest.len() && min_distance(rest, p) == #[trigger] rest[k].distance_spec(p);
        if segs.last().distance_spec(p) < min_distance(rest, p) {
            assert(min_distance(segs, p) == segs[segs.len() - 1].distance_spec(p));
        } else {
            assert(rest[k] == segs[k]);
            assert(min_distance(segs, p) == segs[k].distance_spec(p));
        }
    } else {
        assert(min_distance(segs, p) == segs[0].distance_spec(p));
    }
}

/// The points a chain passes through: the first segment's start, then every segment's end.
pub open spec fn chain_vertices(segs: Seq<LineSegment>) -> Seq<Point> {
    Seq::new(segs.len() + 1, |i: int| if i == 0 { segs[0].a } else { segs[i - 1].b })
}

/// A chain built through points passes through exactly those points, in order.
pub proof fn lemma_chain_vertices_round_trip(pts: Seq<Point>)
    requires
        pts.len() >= 2,
    ensures
        chain_vertices(chain_of(pts)) == pts,
{
    assert(chain_vertices(chain_of(pts)) =~= pts);
}

/// Asking a chain twice for its distance to the same point gives the same answer.
pub proof fn lemma_distance_to_repeatable(pl: &PolyLine, p: Point, first: u64, second: u64)
    requires
        first == min_distance(pl.segments(), p),
        second == min_distance(pl.segments(), p),
    ensures
        first == second,
{
}

} // verus!
