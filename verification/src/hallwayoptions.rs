use vstd::prelude::*;

use crate::point::COORD_LIMIT;

verus! {

/// Configuration for corridor carving: the area budget and the strip sizes.
#[derive(Clone, Copy, Debug)]
pub struct HallwayOptions {
    /// Target share of the total area that corridors may consume, in percent.
    pub hallway_percent: i64,
    pub min_hallway_length: i64,
    pub min_hallway_width: i64,
    pub max_hallway_width: i64,
}

impl HallwayOptions {
    /// The values a validated configuration holds: a non-negative budget, a
    /// non-negative minimum length, and a positive, non-empty width range,
    /// all within the generator's coordinate range.
    pub open spec fn wf(self) -> bool {
        &&& 0 <= self.hallway_percent <= COORD_LIMIT
        &&& 0 <= self.min_hallway_length <= COORD_LIMIT
        &&& 1 <= self.min_hallway_width <= COORD_LIMIT
        &&& self.min_hallway_width < self.max_hallway_width <= COORD_LIMIT
    }

    pub fn new(
        hallway_percent: i64,
        min_hallway_length: i64,
        min_hallway_width: i64,
        max_hallway_width: i64,
    ) -> (r: HallwayOptions)
        requires
            0 <= hallway_percent <= COORD_LIMIT,
            0 <= min_hallway_length <= COORD_LIMIT,
            1 <= min_hallway_width <= COORD_LIMIT,
            min_hallway_width < max_hallway_width <= COORD_LIMIT,
        ensures
            r == (HallwayOptions {
                hallway_percent,
                min_hallway_length,
                min_hallway_width,
                max_hallway_width,
            }),
            r.wf(),
    {
        HallwayOptions { hallway_percent, min_hallway_length, min_hallway_width, max_hallway_width }
    }
}

} // verus!
