//! Line segments tagged with their originating shape.

use vstd::prelude::*;

use crate::fx::MAX_COORD;
use crate::vec3::t_in;
use crate::vec3::Point3;

verus! {

/// A segment model carries the given tag and stays within twice the
/// supported coordinate range — what every shape guarantees of its drawn
/// edge lines.
pub open spec fn seg_bounded_tagged(m: ((int, int, int), (int, int, int), int), tag: int) -> bool {
    &&& m.2 == tag
    &&& t_in(m.0, 2 * MAX_COORD as int)
    &&& t_in(m.1, 2 * MAX_COORD as int)
}

/// A line segment in space `S`, between two points. The tag identifies the
/// shape the segment derives from, so that simplification never merges
/// segments of different shapes.
#[derive(Clone, Copy)]
pub struct LineSegment<S> {
    pub p1: Point3<S>,
    pub p2: Point3<S>,
    pub tag: u64,
}

impl<S> View for LineSegment<S> {
    type V = ((int, int, int), (int, int, int), int);

    open spec fn view(&self) -> ((int, int, int), (int, int, int), int) {
        (self.p1@, self.p2@, self.tag as int)
    }
}

impl<S> LineSegment<S> {
    /// A segment carrying the default tag.
    pub fn new(p1: Point3<S>, p2: Point3<S>) -> (r: LineSegment<S>)
        ensures
            r@ == (p1@, p2@, 0int),
    {
        LineSegment { p1, p2, tag: 0 }
    }

    /// A segment carrying the tag of its originating shape.
    pub fn tagged(p1: Point3<S>, p2: Point3<S>, tag: u64) -> (r: LineSegment<S>)
        ensures
            r@ == (p1@, p2@, tag as int),
    {
        LineSegment { p1, p2, tag }
    }
}

} // verus!
