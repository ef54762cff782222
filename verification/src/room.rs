use vstd::prelude::*;

use crate::chunk::Chunk;
use crate::point::{lt_xy, Point};

verus! {

/// An immutable snapshot of a terminal chunk's two corners: walkable space
/// in the final layout.
#[derive(Clone, Copy, Debug)]
pub struct Room {
    upper_right: Point,
    lower_left: Point,
}

impl Room {
    pub closed spec fn spec_lower_left(self) -> Point {
        self.lower_left
    }

    pub closed spec fn spec_upper_right(self) -> Point {
        self.upper_right
    }

    pub fn new(chunk: Chunk) -> (r: Room)
        ensures
            r.spec_lower_left() == chunk.lower_left,
            r.spec_upper_right() == chunk.upper_right,
    {
        Room { upper_right: *chunk.upper_right(), lower_left: *chunk.lower_left() }
    }

    pub fn upper_right(&self) -> (r: &Point)
        ensures
            r == self.spec_upper_right(),
    {
        &self.upper_right
    }

    pub fn lower_left(&self) -> (r: &Point)
        ensures
            r == self.spec_lower_left(),
    {
        &self.lower_left
    }

    /// True exactly when one of this room's corner coordinates coincides
    /// with the opposite coordinate of the other room, i.e. when the two
    /// rectangles touch along that coordinate.
    pub fn room_overlaps(&self, other: &Room) -> (r: bool)
        ensures
            r == (self.spec_lower_left().x == other.spec_upper_right().x
                || self.spec_lower_left().y == other.spec_upper_right().y
                || self.spec_upper_right().x == other.spec_lower_left().x
                || self.spec_upper_right().y == other.spec_lower_left().y),
    {
        self.lower_left.x() == other.upper_right.x() || self.lower_left.y()
            == other.upper_right.y() || self.upper_right.x() == other.lower_left.x()
            || self.upper_right.y() == other.lower_left.y()
    }

    /// Orders rooms by their lower-left corner, by x then y.
    pub fn compare(&self, other: &Room) -> (r: core::cmp::Ordering)
        ensures
            r == core::cmp::Ordering::Equal <==> self.spec_lower_left()
                == other.spec_lower_left(),
            r == core::cmp::Ordering::Less <==> lt_xy(
                self.spec_lower_left(),
                other.spec_lower_left(),
            ),
            r == core::cmp::Ordering::Greater <==> lt_xy(
                other.spec_lower_left(),
                self.spec_lower_left(),
            ),
    {
        self.lower_left.compare_x_y(other.lower_left())
    }
}

} // verus!
