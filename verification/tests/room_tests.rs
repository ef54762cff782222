use std::cmp::Ordering;
use dungeonbuilder::chunk::{Chunk, ChunkSplit};
use dungeonbuilder::point::Point;
use dungeonbuilder::room::Room;

#[test]
fn room_test_new() {
    let lower_left = Point::new(1, 2);
    let upper_right = Point::new(22, 21);
    let chunk = Chunk::new(lower_left, upper_right, ChunkSplit::Horizontal);
    let room = Room::new(chunk);
    assert_eq!(1, room.lower_left().x());
    assert_eq!(2, room.lower_left().y());
    assert_eq!(22, room.upper_right().x());
    assert_eq!(21, room.upper_right().y());
}

#[test]
fn test_room_overlaps_touching_edge() {
    let a = Room::new(Chunk::new(Point::new(0, 0), Point::new(5, 5), ChunkSplit::Horizontal));
    let b = Room::new(Chunk::new(Point::new(5, 0), Point::new(9, 5), ChunkSplit::Horizontal));
    assert!(a.room_overlaps(&b));
    let c = Room::new(Chunk::new(Point::new(6, 6), Point::new(9, 9), ChunkSplit::Horizontal));
    assert!(!a.room_overlaps(&c));
}

#[test]
fn test_room_compare() {
    let a = Room::new(Chunk::new(Point::new(0, 0), Point::new(5, 5), ChunkSplit::Horizontal));
    let b = Room::new(Chunk::new(Point::new(1, 0), Point::new(5, 5), ChunkSplit::Horizontal));
    assert_eq!(Ordering::Less, a.compare(&b));
    assert_eq!(Ordering::Greater, b.compare(&a));
    assert_eq!(Ordering::Equal, a.compare(&a));
}
