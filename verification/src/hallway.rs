use vstd::prelude::*;

use crate::point::Point;

verus! {

/// An immutable ordered sequence of points describing a closed rectilinear
/// polyline: a corridor's outline.
#[derive(Debug)]
pub struct Hallway {
    points: Vec<Point>,
}

impl Hallway {
    /// The polyline's points, in traversal order.
    pub closed spec fn spec_points(self) -> Seq<Point> {
        self.points@
    }

    pub fn new(points: Vec<Point>) -> (h: Hallway)
        ensures
            h.spec_points() == points@,
    {
        Hallway { points }
    }

    pub fn points(&self) -> (r: &Vec<Point>)
        ensures
            r@ == self.spec_points(),
    {
        &self.points
    }
}

} // verus!
