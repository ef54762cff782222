use dungeonbuilder::chunk::{Chunk, ChunkSplit};
use dungeonbuilder::hallwaybuilder::HallwayBuilder;
use dungeonbuilder::merge::{merge_points, MergeError};
use dungeonbuilder::point::Point;

#[test]
fn test_merge_empty() {
    let mut builder = HallwayBuilder::new();
    let hallways = builder.merge_hallways().unwrap();
    assert_eq!(0, hallways.len());
    assert_eq!(0, builder.total_area());
}

#[test]
fn test_merge_single_rectangle() {
    // One strip's four corners come back as exactly one closed polyline
    // whose point set is the four corners, each consecutive pair sharing an
    // axis.
    let mut builder = HallwayBuilder::new();
    builder.add_chunk(Chunk::new(Point::new(0, 0), Point::new(10, 5), ChunkSplit::Horizontal));
    assert_eq!(50, builder.total_area());
    let hallways = builder.merge_hallways().unwrap();
    assert_eq!(1, hallways.len());
    let points = hallways[0].points();
    assert_eq!(4, points.len());
    let corners = [Point::new(0, 0), Point::new(0, 5), Point::new(10, 0), Point::new(10, 5)];
    for corner in corners.iter() {
        assert!(points.contains(corner));
    }
    for i in 0..points.len() {
        let a = points[i];
        let b = points[(i + 1) % points.len()];
        assert!(a.x() == b.x() || a.y() == b.y());
    }
}

#[test]
fn test_merge_two_strips_sharing_an_edge() {
    // Two strips sharing the edge at y = 1 merge into a single hallway.
    let mut builder = HallwayBuilder::new();
    builder.add_chunk(Chunk::new(Point::new(0, 0), Point::new(10, 1), ChunkSplit::Horizontal));
    builder.add_chunk(Chunk::new(Point::new(0, 1), Point::new(10, 2), ChunkSplit::Horizontal));
    assert_eq!(20, builder.total_area());
    let hallways = builder.merge_hallways().unwrap();
    assert_eq!(1, hallways.len());
    assert_eq!(6, hallways[0].points().len());
}

#[test]
fn test_merge_two_separate_strips() {
    let mut builder = HallwayBuilder::new();
    builder.add_chunk(Chunk::new(Point::new(0, 0), Point::new(10, 1), ChunkSplit::Horizontal));
    builder.add_chunk(Chunk::new(Point::new(20, 0), Point::new(30, 1), ChunkSplit::Horizontal));
    let hallways = builder.merge_hallways().unwrap();
    assert_eq!(2, hallways.len());
}

#[test]
fn test_merge_missing_horizontal_edge() {
    // Three points whose pairing by y leaves the traversal's start without
    // a horizontal partner.
    let points = vec![Point::new(0, 0), Point::new(0, 1), Point::new(5, 0)];
    let result = merge_points(&points);
    assert_eq!(Err(MergeError::MissingHorizontalEdge), result.map(|_| ()));
}

#[test]
fn test_merge_missing_vertical_edge() {
    // Five points where the traversal reaches a point with no vertical
    // partner.
    let points = vec![
        Point::new(0, 0),
        Point::new(0, 1),
        Point::new(0, 2),
        Point::new(1, 0),
        Point::new(1, 1),
    ];
    let result = merge_points(&points);
    assert_eq!(Err(MergeError::MissingVerticalEdge), result.map(|_| ()));
}

#[test]
fn test_merge_deduplicates_repeated_corners() {
    // The same strip twice collapses to one rectangle's worth of corners.
    let mut builder = HallwayBuilder::new();
    builder.add_chunk(Chunk::new(Point::new(0, 0), Point::new(10, 5), ChunkSplit::Horizontal));
    builder.add_chunk(Chunk::new(Point::new(0, 0), Point::new(10, 5), ChunkSplit::Horizontal));
    let hallways = builder.merge_hallways().unwrap();
    assert_eq!(1, hallways.len());
    assert_eq!(4, hallways[0].points().len());
}
