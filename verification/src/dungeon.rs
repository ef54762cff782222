use vstd::prelude::*;

use crate::hallway::Hallway;
use crate::room::Room;

verus! {

/// The output aggregate: the rooms in the order they became terminal, and
/// the merged hallway polylines.
pub struct Dungeon {
    rooms: Vec<Room>,
    hallways: Vec<Hallway>,
}

impl Dungeon {
    pub closed spec fn spec_rooms(self) -> Seq<Room> {
        self.rooms@
    }

    pub closed spec fn spec_hallways(self) -> Seq<Hallway> {
        self.hallways@
    }

    pub fn new() -> (d: Dungeon)
        ensures
            d.spec_rooms().len() == 0,
            d.spec_hallways().len() == 0,
    {
        Dungeon { rooms: Vec::new(), hallways: Vec::new() }
    }

    pub fn add_room(&mut self, room: Room)
        ensures
            final(self).spec_rooms() == old(self).spec_rooms().push(room),
            final(self).spec_hallways() == old(self).spec_hallways(),
    {
        self.rooms.push(room)
    }

    /// Replaces the hallway list with the merged polylines.
    pub fn add_hallways(&mut self, hallways: Vec<Hallway>)
        ensures
            final(self).spec_rooms() == old(self).spec_rooms(),
            final(self).spec_hallways() == hallways@,
    {
        self.hallways = hallways
    }

    pub fn rooms(&self) -> (r: &[Room])
        ensures
            r@ == self.spec_rooms(),
    {
        self.rooms.as_slice()
    }

    pub fn hallways(&self) -> (r: &[Hallway])
        ensures
            r@ == self.spec_hallways(),
    {
        self.hallways.as_slice()
    }
}

} // verus!
