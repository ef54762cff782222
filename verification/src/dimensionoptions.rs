use vstd::prelude::*;

use crate::point::{AREA_LIMIT, COORD_LIMIT};

verus! {

/// Configuration for the split predicate: how small a chunk may become.
#[derive(Clone, Copy, Debug)]
pub struct DimensionOptions {
    pub min_width: i64,
    pub min_height: i64,
    pub min_area: i64,
    pub max_area: Option<i64>,
}

impl DimensionOptions {
    /// The values a validated configuration holds: positive minimum extents
    /// and a non-negative minimum area, all within the generator's
    /// coordinate range.
    pub open spec fn wf(self) -> bool {
        &&& 1 <= self.min_width <= COORD_LIMIT
        &&& 1 <= self.min_height <= COORD_LIMIT
        &&& 0 <= self.min_area <= AREA_LIMIT
        &&& match self.max_area {
            Some(a) => 0 <= a <= AREA_LIMIT,
            None => true,
        }
    }

    pub fn new(min_width: i64, min_height: i64, min_area: i64) -> (r: DimensionOptions)
        requires
            1 <= min_width <= COORD_LIMIT,
            1 <= min_height <= COORD_LIMIT,
            0 <= min_area <= AREA_LIMIT,
        ensures
            r == (DimensionOptions { min_width, min_height, min_area, max_area: None }),
            r.wf(),
    {
        DimensionOptions { min_width, min_height, min_area, max_area: None }
    }

    pub fn new_with_max(min_width: i64, min_height: i64, min_area: i64, max_area: i64) -> (r:
        DimensionOptions)
        requires
            1 <= min_width <= COORD_LIMIT,
            1 <= min_height <= COORD_LIMIT,
            0 <= min_area <= AREA_LIMIT,
            0 <= max_area <= AREA_LIMIT,
        ensures
            r == (DimensionOptions { min_width, min_height, min_area, max_area: Some(max_area) }),
            r.wf(),
    {
        DimensionOptions { min_width, min_height, min_area, max_area: Some(max_area) }
    }
}

} // verus!
