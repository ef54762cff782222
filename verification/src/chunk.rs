use vstd::prelude::*;

use crate::dimensionoptions::DimensionOptions;
use crate::point::{point_in_bounds, Point, COORD_LIMIT};
use crate::random::RandomSource;

verus! {

/// The orientation of the cut that most recently produced a chunk. A
/// `Vertical` cut runs along x (a vertical boundary line); a `Horizontal`
/// cut runs along y.
#[derive(Clone, Copy, PartialEq, Eq, Structural, Debug)]
pub enum ChunkSplit {
    Vertical,
    Horizontal,
}

/// A mutable axis-aligned rectangle in the recursive partition, tagged with
/// the orientation of the split that produced it. Splitting and carving only
/// ever shrink a chunk.
#[derive(Clone, Copy, Debug)]
pub struct Chunk {
    pub lower_left: Point,
    pub upper_right: Point,
    pub chunk_split: ChunkSplit,
}

/// The rectangles `[all, aur]` and `[bll, bur]` share interior points.
pub open spec fn rects_overlap(all: Point, aur: Point, bll: Point, bur: Point) -> bool {
    all.x < bur.x && bll.x < aur.x && all.y < bur.y && bll.y < aur.y
}

/// The rectangle `[ill, iur]` lies within the rectangle `[oll, our]`.
pub open spec fn rect_within(ill: Point, iur: Point, oll: Point, our: Point) -> bool {
    oll.x <= ill.x && iur.x <= our.x && oll.y <= ill.y && iur.y <= our.y
}

/// The area of the rectangle `[ll, ur]`.
pub open spec fn rect_area(ll: Point, ur: Point) -> int {
    (ur.x - ll.x) * (ur.y - ll.y)
}

/// The longer extent of the rectangle `[ll, ur]`.
pub open spec fn rect_max_extent(ll: Point, ur: Point) -> int {
    if ur.x - ll.x >= ur.y - ll.y {
        ur.x - ll.x
    } else {
        ur.y - ll.y
    }
}

/// The split predicate on bare corners: whether a rectangle of these
/// dimensions may still be subdivided under the given configuration.
pub open spec fn rect_splittable(ll: Point, ur: Point, d: DimensionOptions) -> bool {
    rect_area(ll, ur) > 2 * d.min_area && (ur.x - ll.x > 2 * d.min_width || ur.y - ll.y > 2
        * d.min_height)
}

/// The orientation a split picks: the alternate of the orientation that
/// produced the chunk, unless that alternate is infeasible.
pub open spec fn chosen_orientation(
    prev: ChunkSplit,
    can_vertical: bool,
    can_horizontal: bool,
) -> ChunkSplit {
    match prev {
        ChunkSplit::Horizontal => if can_vertical {
            ChunkSplit::Vertical
        } else {
            ChunkSplit::Horizontal
        },
        ChunkSplit::Vertical => if can_horizontal {
            ChunkSplit::Horizontal
        } else {
            ChunkSplit::Vertical
        },
    }
}

impl Chunk {
    /// The chunk's invariant: corners in range and in order.
    pub open spec fn wf(self) -> bool {
        &&& point_in_bounds(self.lower_left)
        &&& point_in_bounds(self.upper_right)
        &&& self.lower_left.x <= self.upper_right.x
        &&& self.lower_left.y <= self.upper_right.y
    }

    pub open spec fn spec_width(self) -> int {
        self.upper_right.x - self.lower_left.x
    }

    pub open spec fn spec_height(self) -> int {
        self.upper_right.y - self.lower_left.y
    }

    pub open spec fn spec_area(self) -> int {
        self.spec_width() * self.spec_height()
    }

    pub open spec fn spec_can_split_vertically(self, d: DimensionOptions) -> bool {
        self.spec_width() > 2 * d.min_width
    }

    pub open spec fn spec_can_split_horizontally(self, d: DimensionOptions) -> bool {
        self.spec_height() > 2 * d.min_height
    }

    /// The split predicate: a chunk that fails it is terminal.
    pub open spec fn spec_can_split(self, d: DimensionOptions) -> bool {
        rect_splittable(self.lower_left, self.upper_right, d)
    }

    pub fn new(lower_left: Point, upper_right: Point, chunk_split: ChunkSplit) -> (c: Chunk)
        ensures
            c == (Chunk { lower_left, upper_right, chunk_split }),
    {
        Chunk { lower_left, upper_right, chunk_split }
    }

    pub fn width(&self) -> (r: i64)
        requires
            self.wf(),
        ensures
            r == self.spec_width(),
    {
        self.upper_right.x - self.lower_left.x
    }

    pub fn height(&self) -> (r: i64)
        requires
            self.wf(),
        ensures
            r == self.spec_height(),
    {
        self.upper_right.y - self.lower_left.y
    }

    pub fn area(&self) -> (r: i64)
        requires
            self.wf(),
        ensures
            r == self.spec_area(),
    {
        let w = self.width();
        let h = self.height();
        proof {
            assert(w * h <= 4 * COORD_LIMIT * COORD_LIMIT) by (nonlinear_arith)
                requires
                    0 <= w <= 2 * COORD_LIMIT,
                    0 <= h <= 2 * COORD_LIMIT,
            ;
        }
        w * h
    }

    fn can_split_vertically(&self, dimension_options: &DimensionOptions) -> (r: bool)
        requires
            self.wf(),
            dimension_options.wf(),
        ensures
            r == self.spec_can_split_vertically(*dimension_options),
    {
        self.width() > 2 * dimension_options.min_width
    }

    fn can_split_horizontally(&self, dimension_options: &DimensionOptions) -> (r: bool)
        requires
            self.wf(),
            dimension_options.wf(),
        ensures
            r == self.spec_can_split_horizontally(*dimension_options),
    {
        self.height() > 2 * dimension_options.min_height
    }

    fn can_split(&self, dimension_options: &DimensionOptions) -> (r: bool)
        requires
            self.wf(),
            dimension_options.wf(),
        ensures
            r == self.spec_can_split(*dimension_options),
    {
        self.area() > 2 * dimension_options.min_area && (self.can_split_vertically(
            dimension_options,
        ) || self.can_split_horizontally(dimension_options))
    }

    pub fn lower_left(&self) -> (r: &Point)
        ensures
            r == self.lower_left,
    {
        &self.lower_left
    }

    pub fn upper_right(&self) -> (r: &Point)
        ensures
            r == self.upper_right,
    {
        &self.upper_right
    }

    pub fn chunk_split(&self) -> (r: ChunkSplit)
        ensures
            r == self.chunk_split,
    {
        self.chunk_split
    }

    /// Attempts to split this chunk. On success the chunk keeps the first
    /// half, the returned sibling holds the second half, and both carry the
    /// chosen orientation; the cut coordinate leaves at least the configured
    /// minimum extent on either side. `None` is returned when the chunk is
    /// terminal, or when a one-in-four veto stops a chunk already under the
    /// configured maximum area.
    pub fn split<R: RandomSource>(
        &mut self,
        dimension_options: &DimensionOptions,
        rng: &mut R,
    ) -> (result: Option<Chunk>)
        requires
            old(self).wf(),
            dimension_options.wf(),
        ensures
            final(self).wf(),
            result is None ==> *final(self) == *old(self),
            !old(self).spec_can_split(*dimension_options) ==> *final(rng) == *old(rng),
            result is None ==> !old(self).spec_can_split(*dimension_options) || (
            dimension_options.max_area is Some && old(self).spec_area()
                < dimension_options.max_area->0),
            !old(self).spec_can_split(*dimension_options) ==> result is None,
            match result {
                Some(c) => {
                    &&& old(self).spec_can_split(*dimension_options)
                    &&& c.wf()
                    &&& c.chunk_split == final(self).chunk_split
                    &&& c.chunk_split == chosen_orientation(
                        old(self).chunk_split,
                        old(self).spec_can_split_vertically(*dimension_options),
                        old(self).spec_can_split_horizontally(*dimension_options),
                    )
                    &&& match c.chunk_split {
                        ChunkSplit::Vertical => {
                            &&& final(self).lower_left == old(self).lower_left
                            &&& final(self).upper_right.y == old(self).upper_right.y
                            &&& c.upper_right == old(self).upper_right
                            &&& c.lower_left.y == old(self).lower_left.y
                            &&& c.lower_left.x == final(self).upper_right.x
                            &&& old(self).lower_left.x + dimension_options.min_width
                                < final(self).upper_right.x
                            &&& final(self).upper_right.x <= old(self).upper_right.x
                                - dimension_options.min_width
                        },
                        ChunkSplit::Horizontal => {
                            &&& final(self).lower_left == old(self).lower_left
                            &&& final(self).upper_right.x == old(self).upper_right.x
                            &&& c.upper_right == old(self).upper_right
                            &&& c.lower_left.x == old(self).lower_left.x
                            &&& c.lower_left.y == final(self).upper_right.y
                            &&& old(self).lower_left.y + dimension_options.min_height
                                < final(self).upper_right.y
                            &&& final(self).upper_right.y <= old(self).upper_right.y
                                - dimension_options.min_height
                        },
                    }
                },
                None => true,
            },
    {
        if !self.can_split(dimension_options) {
            return None;
        }
        match dimension_options.max_area {
            Some(max_area) => {
                if self.area() < max_area && rng.one_in(4) {
                    return None;
                }
            },
            None => {},
        }
        let split_horizontal = match self.chunk_split {
            ChunkSplit::Horizontal => !self.can_split_vertically(dimension_options),
            ChunkSplit::Vertical => self.can_split_horizontally(dimension_options),
        };
        if !split_horizontal {
            let mut min = self.lower_left.x + dimension_options.min_width;
            if self.width() > 2 * dimension_options.min_width {
                min = min + 1;
            }
            let max = self.upper_right.x - dimension_options.min_width + 1;
            assert(min < max);
            let split_x = rng.pick_in_range(min, max);
            let upper_right = self.upper_right;
            let lower_left = Point::new(split_x, self.lower_left.y());
            self.upper_right.set_x(split_x);
            self.chunk_split = ChunkSplit::Vertical;
            Some(Chunk::new(lower_left, upper_right, ChunkSplit::Vertical))
        } else {
            let mut min = self.lower_left.y + dimension_options.min_height;
            if self.height() > 2 * dimension_options.min_height {
                min = min + 1;
            }
            let max = self.upper_right.y - dimension_options.min_height + 1;
            assert(min < max);
            let split_y = rng.pick_in_range(min, max);
            let upper_right = self.upper_right;
            let lower_left = Point::new(self.lower_left.x(), split_y);
            self.upper_right.set_y(split_y);
            self.chunk_split = ChunkSplit::Horizontal;
            Some(Chunk::new(lower_left, upper_right, ChunkSplit::Horizontal))
        }
    }

    /// Shaves a strip of the given width off the edge adjacent to the most
    /// recent split boundary, shrinking this chunk by exactly that width
    /// along the relevant axis, and returns the lower-left and upper-right
    /// corners of the removed strip.
    pub fn strip_hallway(&mut self, side: ChunkSplit, hallway_width: i64) -> (r: (Point, Point))
        requires
            old(self).wf(),
            0 <= hallway_width,
            side is Vertical ==> hallway_width <= old(self).spec_width(),
            side is Horizontal ==> hallway_width <= old(self).spec_height(),
        ensures
            final(self).wf(),
            final(self).chunk_split == old(self).chunk_split,
            final(self).lower_left == old(self).lower_left,
            r.0.x <= r.1.x && r.0.y <= r.1.y,
            match side {
                ChunkSplit::Vertical => {
                    &&& final(self).upper_right.y == old(self).upper_right.y
                    &&& final(self).upper_right.x == old(self).upper_right.x - hallway_width
                    &&& r.0.x == old(self).upper_right.x - hallway_width
                    &&& r.0.y == old(self).lower_left.y
                    &&& r.1 == old(self).upper_right
                },
                ChunkSplit::Horizontal => {
                    &&& final(self).upper_right.x == old(self).upper_right.x
                    &&& final(self).upper_right.y == old(self).upper_right.y - hallway_width
                    &&& r.0.x == old(self).lower_left.x
                    &&& r.0.y == old(self).upper_right.y - hallway_width
                    &&& r.1 == old(self).upper_right
                },
            },
    {
        match side {
            ChunkSplit::Horizontal => {
                let lower_left = Point::new(
                    self.lower_left.x(),
                    self.upper_right.y() - hallway_width,
                );
                let upper_right = Point::new(self.upper_right.x(), self.upper_right.y());
                self.upper_right.set_y(self.upper_right.y() - hallway_width);
                (lower_left, upper_right)
            },
            ChunkSplit::Vertical => {
                let lower_left = Point::new(
                    self.upper_right.x() - hallway_width,
                    self.lower_left.y(),
                );
                let upper_right = Point::new(self.upper_right.x(), self.upper_right.y());
                self.upper_right.set_x(self.upper_right.x() - hallway_width);
                (lower_left, upper_right)
            },
        }
    }
}

/// Law: the two halves of one split do not overlap and cover the parent
/// rectangle exactly. The premises are the corner relations that `split`
/// ensures between the shrunken chunk (`first`), the returned sibling
/// (`second`) and the chunk as it stood before the call (`parent`).
pub proof fn lemma_split_partition(parent: Chunk, first: Chunk, second: Chunk)
    requires
        first.wf(),
        second.wf(),
        first.lower_left == parent.lower_left,
        second.upper_right == parent.upper_right,
        match second.chunk_split {
            ChunkSplit::Vertical => {
                &&& first.upper_right.y == parent.upper_right.y
                &&& second.lower_left.y == parent.lower_left.y
                &&& second.lower_left.x == first.upper_right.x
            },
            ChunkSplit::Horizontal => {
                &&& first.upper_right.x == parent.upper_right.x
                &&& second.lower_left.x == parent.lower_left.x
                &&& second.lower_left.y == first.upper_right.y
            },
        },
    ensures
        !rects_overlap(first.lower_left, first.upper_right, second.lower_left, second.upper_right),
        rect_within(first.lower_left, first.upper_right, parent.lower_left, parent.upper_right),
        rect_within(second.lower_left, second.upper_right, parent.lower_left, parent.upper_right),
        first.spec_area() + second.spec_area() == parent.spec_area(),
{
    match second.chunk_split {
        ChunkSplit::Vertical => {
            assert(first.spec_area() + second.spec_area() == parent.spec_area())
                by (nonlinear_arith)
                requires
                    first.spec_area() == first.spec_width() * first.spec_height(),
                    second.spec_area() == second.spec_width() * second.spec_height(),
                    parent.spec_area() == parent.spec_width() * parent.spec_height(),
                    first.spec_height() == second.spec_height(),
                    first.spec_height() == parent.spec_height(),
                    first.spec_width() + second.spec_width() == parent.spec_width(),
            ;
        },
        ChunkSplit::Horizontal => {
            assert(first.spec_area() + second.spec_area() == parent.spec_area())
                by (nonlinear_arith)
                requires
                    first.spec_area() == first.spec_width() * first.spec_height(),
                    second.spec_area() == second.spec_width() * second.spec_height(),
                    parent.spec_area() == parent.spec_width() * parent.spec_height(),
                    first.spec_width() == second.spec_width(),
                    first.spec_width() == parent.spec_width(),
                    first.spec_height() + second.spec_height() == parent.spec_height(),
            ;
        },
    }
}

/// Law: a split keeps the orientation that produced its chunk only when the
/// alternate orientation is infeasible, so two splits in a row along one
/// lineage never repeat an orientation that the alternate could have served.
pub proof fn lemma_orientation_alternates(
    prev: ChunkSplit,
    can_vertical: bool,
    can_horizontal: bool,
)
    ensures
        chosen_orientation(prev, can_vertical, can_horizontal) == prev ==> (prev
            is Horizontal ==> !can_vertical) && (prev is Vertical ==> !can_horizontal),
{
}

} // verus!
