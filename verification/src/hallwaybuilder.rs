use vstd::prelude::*;

use crate::chunk::Chunk;
use crate::hallway::Hallway;
use crate::merge::{
    distinct_point_count_even, hallway_cycles_over, hallways_partition, merge_points, MergeError,
};
use crate::point::Point;

verus! {

/// Accumulates corridor-strip rectangles as corner points and merges them
/// once into closed hallway polylines.
pub struct HallwayBuilder {
    points: Vec<Point>,
    total_area: i64,
}

impl HallwayBuilder {
    /// The accumulated corner points, four per strip, in winding order.
    pub closed spec fn spec_points(self) -> Seq<Point> {
        self.points@
    }

    /// The accumulated area of the added strips.
    pub closed spec fn spec_total_area(self) -> int {
        self.total_area as int
    }

    pub fn new() -> (b: HallwayBuilder)
        ensures
            b.spec_points().len() == 0,
            b.spec_total_area() == 0,
    {
        HallwayBuilder { points: Vec::new(), total_area: 0 }
    }

    pub fn total_area(&self) -> (r: i64)
        ensures
            r == self.spec_total_area(),
    {
        self.total_area
    }

    /// Adds one strip: its area joins the running total and its four corners
    /// join the point buffer as two diagonal pairs in a fixed winding order.
    pub fn add_chunk(&mut self, chunk: Chunk)
        requires
            chunk.wf(),
            old(self).spec_total_area() + chunk.spec_area() <= i64::MAX,
            0 <= old(self).spec_total_area(),
        ensures
            final(self).spec_total_area() == old(self).spec_total_area() + chunk.spec_area(),
            final(self).spec_points() == old(self).spec_points().push(chunk.lower_left).push(
                Point { x: chunk.lower_left.x, y: chunk.upper_right.y },
            ).push(chunk.upper_right).push(
                Point { x: chunk.upper_right.x, y: chunk.lower_left.y },
            ),
    {
        self.total_area = self.total_area + chunk.area();
        self.points.push(*chunk.lower_left());
        self.points.push(Point::new(chunk.lower_left().x(), chunk.upper_right().y()));
        self.points.push(*chunk.upper_right());
        self.points.push(Point::new(chunk.upper_right().x(), chunk.lower_left().y()));
    }

    /// Merges the accumulated strip corners into hallway outlines. The
    /// buffer is left as it is, so one buffer is merged once.
    pub fn merge_hallways(&mut self) -> (result: Result<Vec<Hallway>, MergeError>)
        ensures
            *final(self) == *old(self),
            old(self).spec_points().len() == 0 ==> result is Ok,
            distinct_point_count_even(old(self).spec_points()) ==> result is Ok,
            match result {
                Ok(hs) => {
                    &&& old(self).spec_points().len() == 0 ==> hs@.len() == 0
                    &&& forall|i: int|
                        0 <= i < hs@.len() ==> (#[trigger] hs@[i]).spec_points().len() >= 2
                    &&& forall|i: int, j: int|
                        0 <= i < hs@.len() && 0 <= j < hs@[i].spec_points().len() ==> old(
                            self,
                        ).spec_points().contains(#[trigger] hs@[i].spec_points()[j])
                    &&& (exists|p: Point, q: Point|
                        old(self).spec_points().contains(p) && old(self).spec_points().contains(q)
                            && p != q) ==> hs@.len() >= 1
                    &&& distinct_point_count_even(old(self).spec_points())
                        ==> hallways_partition(hs@, old(self).spec_points())
                    &&& exists|sx: Seq<Point>, sy: Seq<Point>|
                        hallway_cycles_over(hs@, old(self).spec_points(), sx, sy)
                },
                Err(_) => !distinct_point_count_even(old(self).spec_points()),
            },
    {
        merge_points(&self.points)
    }
}

} // verus!
