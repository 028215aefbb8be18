use vstd::prelude::*;

use crate::basic::Point;

verus! {

/// Why a shape could not be built.
#[derive(Clone, Copy, Debug, PartialEq, Eq, Structural)]
pub enum GeometryError {
    /// The two endpoints of a segment coincide.
    DegenerateSegment { a: Point, b: Point },
    /// Too few points (or segments) were given for the shape.
    InsufficientPoints { count: usize },
    /// Three polygon points whose first and last coincide: a line, not an area.
    DegenerateShape { first: Point, last: Point },
    /// The segment at `index` does not start where the one before it ends.
    DiscontinuousChain { index: usize, end: Point, start: Point },
    /// The last segment does not end where the first one starts.
    UnclosedLoop { first_start: Point, last_end: Point },
}

} // verus!
