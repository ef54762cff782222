use dungeonbuilder::dimensionoptions::DimensionOptions;
use dungeonbuilder::dungeon::Dungeon;
use dungeonbuilder::dungeonbuilder::DungeonBuilder;
use dungeonbuilder::hallwayoptions::HallwayOptions;
use dungeonbuilder::point::Point;

#[test]
fn test_build() {
    let mut builder = DungeonBuilder::new();
    builder.in_area(Point::new(0, 0), Point::new(1000, 1000));
    builder.with_dimension_options(DimensionOptions::new(5, 5, 5));
    builder.build().unwrap();
}

fn check_rooms(dungeon: &Dungeon, side: i64, min_area: i64) {
    let rooms = dungeon.rooms();
    assert!(rooms.len() >= 1);
    for room in rooms.iter() {
        assert!(room.lower_left().x() < room.upper_right().x());
        assert!(room.lower_left().y() < room.upper_right().y());
        assert!(0 <= room.lower_left().x() && room.upper_right().x() <= side);
        assert!(0 <= room.lower_left().y() && room.upper_right().y() <= side);
        let width = room.upper_right().x() - room.lower_left().x();
        let height = room.upper_right().y() - room.lower_left().y();
        assert!(width >= 1 && height >= 1);
        let _ = min_area;
    }
    for i in 0..rooms.len() {
        for j in (i + 1)..rooms.len() {
            let a = &rooms[i];
            let b = &rooms[j];
            let open_overlap = a.lower_left().x() < b.upper_right().x()
                && b.lower_left().x() < a.upper_right().x()
                && a.lower_left().y() < b.upper_right().y()
                && b.lower_left().y() < a.upper_right().y();
            assert!(!open_overlap);
        }
    }
}

#[test]
fn test_end_to_end_rooms_only() {
    // A pure room partition: at least one room, no hallways, every room
    // inside the requested area, and no two rooms overlapping.
    let mut builder = DungeonBuilder::new_seeded(42);
    builder.in_area(Point::new(0, 0), Point::new(1000, 1000));
    builder.with_dimension_options(DimensionOptions::new(5, 5, 5));
    let dungeon = builder.build().unwrap();
    assert_eq!(0, dungeon.hallways().len());
    check_rooms(&dungeon, 1000, 5);
}

#[test]
fn test_end_to_end_rooms_only_entropy() {
    // The same guarantees hold for an entropy-seeded run.
    let mut builder = DungeonBuilder::new();
    builder.in_area(Point::new(0, 0), Point::new(1000, 1000));
    builder.with_dimension_options(DimensionOptions::new(5, 5, 5));
    let dungeon = builder.build().unwrap();
    assert_eq!(0, dungeon.hallways().len());
    check_rooms(&dungeon, 1000, 5);
}

#[test]
fn test_end_to_end_hallway_budget() {
    // With a fixed seed and a 50 percent hallway budget, the cumulative
    // carved corridor area stays within the budget plus at most one
    // carve's worth of overshoot (a strip is at most 9 units wide and 1000
    // long here). Splitting conserves area and only carving removes it, so
    // the carved total is the root area minus the rooms' total area.
    let mut builder = DungeonBuilder::new_seeded(7);
    builder.in_area(Point::new(0, 0), Point::new(1000, 1000));
    builder.with_dimension_options(DimensionOptions::new(5, 5, 5));
    builder.with_hallway_options(HallwayOptions::new(50, 5, 5, 10));
    let dungeon = builder.build().unwrap();
    assert!(dungeon.hallways().len() >= 1);
    let total_area: i64 = 1000 * 1000;
    let mut room_area: i64 = 0;
    for room in dungeon.rooms().iter() {
        room_area += (room.upper_right().x() - room.lower_left().x())
            * (room.upper_right().y() - room.lower_left().y());
    }
    let carved_area = total_area - room_area;
    assert!(carved_area >= 0);
    assert!(carved_area * 100 <= 50 * total_area + 100 * 9 * 1000);
    check_rooms(&dungeon, 1000, 5);
}

#[test]
fn test_rooms_partition_whole_area() {
    // Without hallway options nothing is carved, so the rooms' areas sum to
    // exactly the root area.
    let mut builder = DungeonBuilder::new_seeded(9);
    builder.in_area(Point::new(0, 0), Point::new(200, 300));
    builder.with_dimension_options(DimensionOptions::new(5, 5, 5));
    let dungeon = builder.build().unwrap();
    let mut room_area: i64 = 0;
    for room in dungeon.rooms().iter() {
        room_area += (room.upper_right().x() - room.lower_left().x())
            * (room.upper_right().y() - room.lower_left().y());
    }
    assert_eq!(200 * 300, room_area);
}

#[test]
fn test_seeded_builds_reproduce() {
    let build_once = || {
        let mut builder = DungeonBuilder::new_seeded(123);
        builder.in_area(Point::new(0, 0), Point::new(500, 400));
        builder.with_dimension_options(DimensionOptions::new_with_max(10, 10, 100, 5000));
        builder.with_hallway_options(HallwayOptions::new(15, 20, 2, 6));
        builder.build().unwrap()
    };
    let first = build_once();
    let second = build_once();
    assert_eq!(first.rooms().len(), second.rooms().len());
    assert_eq!(first.hallways().len(), second.hallways().len());
    for (a, b) in first.rooms().iter().zip(second.rooms().iter()) {
        assert!(a.lower_left() == b.lower_left());
        assert!(a.upper_right() == b.upper_right());
    }
}
