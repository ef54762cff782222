use dungeonbuilder::chunk::{Chunk, ChunkSplit};
use dungeonbuilder::dimensionoptions::DimensionOptions;
use dungeonbuilder::point::Point;
use dungeonbuilder::random::{RandomSource, SequenceRandom};

#[test]
fn chunk_test_new() {
    let lower_left = Point::new(2, 3);
    let upper_right = Point::new(20, 21);
    let chunk = Chunk::new(lower_left, upper_right, ChunkSplit::Horizontal);
    assert_eq!(2, chunk.lower_left().x());
    assert_eq!(3, chunk.lower_left().y());
    assert_eq!(20, chunk.upper_right().x());
    assert_eq!(21, chunk.upper_right().y());
}

#[test]
fn test_width() {
    let lower_left = Point::new(0, 0);
    let upper_right = Point::new(20, 10);
    let chunk = Chunk::new(lower_left, upper_right, ChunkSplit::Horizontal);
    assert_eq!(20, chunk.width());
}

#[test]
fn test_height() {
    let lower_left = Point::new(0, 0);
    let upper_right = Point::new(20, 10);
    let chunk = Chunk::new(lower_left, upper_right, ChunkSplit::Horizontal);
    assert_eq!(10, chunk.height());
}

#[test]
fn test_area() {
    let lower_left = Point::new(0, 0);
    let upper_right = Point::new(20, 10);
    let chunk = Chunk::new(lower_left, upper_right, ChunkSplit::Horizontal);
    assert_eq!(200, chunk.area());
}

#[test]
fn test_split() {
    let lower_left = Point::new(0, 0);
    let upper_right = Point::new(20, 20);
    let mut chunk = Chunk::new(lower_left, upper_right, ChunkSplit::Horizontal);

    let mut rng = SequenceRandom::new(vec![6]);
    let new_chunk_option = chunk.split(&DimensionOptions::new(5, 5, 5), &mut rng);
    let new_chunk = new_chunk_option.unwrap();
    assert!(matches!(new_chunk.chunk_split(), ChunkSplit::Vertical));
    assert_eq!(6, chunk.upper_right().x());
    assert_eq!(20, chunk.upper_right().y());
    assert_eq!(6, new_chunk.lower_left().x());
    assert_eq!(0, new_chunk.lower_left().y());
    assert_eq!(20, new_chunk.upper_right().x());
    assert_eq!(20, new_chunk.upper_right().y());
}

#[test]
fn test_horizontal_split() {
    let lower_left = Point::new(0, 0);
    let upper_right = Point::new(20, 2);
    let mut chunk = Chunk::new(lower_left, upper_right, ChunkSplit::Horizontal);
    let mut rng = SequenceRandom::new(vec![6]);
    let new_chunk_option = chunk.split(&DimensionOptions::new(5, 5, 5), &mut rng);
    let new_chunk = new_chunk_option.unwrap();
    assert!(matches!(new_chunk.chunk_split(), ChunkSplit::Vertical));
    assert_eq!(6, chunk.upper_right().x());
    assert_eq!(2, chunk.upper_right().y());
    assert_eq!(6, new_chunk.lower_left().x());
    assert_eq!(0, new_chunk.lower_left().y());
    assert_eq!(20, new_chunk.upper_right().x());
    assert_eq!(2, new_chunk.upper_right().y());
}

#[test]
fn test_vertical_split() {
    let lower_left = Point::new(0, 0);
    let upper_right = Point::new(2, 20);
    let mut chunk = Chunk::new(lower_left, upper_right, ChunkSplit::Horizontal);
    let mut rng = SequenceRandom::new(vec![6]);
    let new_chunk_option = chunk.split(&DimensionOptions::new(5, 5, 5), &mut rng);
    let new_chunk = new_chunk_option.unwrap();
    assert!(matches!(new_chunk.chunk_split(), ChunkSplit::Horizontal));
    assert_eq!(2, chunk.upper_right().x());
    assert_eq!(6, chunk.upper_right().y());
    assert_eq!(0, new_chunk.lower_left().x());
    assert_eq!(6, new_chunk.lower_left().y());
    assert_eq!(2, new_chunk.upper_right().x());
    assert_eq!(20, new_chunk.upper_right().y());
}

#[test]
fn test_cant_split() {
    let lower_left = Point::new(0, 0);
    let upper_right = Point::new(2, 2);
    let mut chunk = Chunk::new(lower_left, upper_right, ChunkSplit::Horizontal);
    let mut rng = SequenceRandom::new(vec![]);
    let new_chunk_option = chunk.split(&DimensionOptions::new(5, 5, 5), &mut rng);
    assert!(new_chunk_option.is_none());
}

#[test]
fn test_strip_vertical_hallway() {
    let lower_left = Point::new(0, 0);
    let upper_right = Point::new(20, 20);
    let mut chunk = Chunk::new(lower_left, upper_right, ChunkSplit::Horizontal);
    let hallway = chunk.strip_hallway(ChunkSplit::Horizontal, 1);
    assert_eq!(19, chunk.upper_right().y());
    assert_eq!(20, chunk.upper_right().x());
    assert_eq!(19, hallway.0.y());
    assert_eq!(0, hallway.0.x());
    assert_eq!(20, hallway.1.y());
}

#[test]
fn test_strip_horizontal_hallway() {
    let lower_left = Point::new(0, 0);
    let upper_right = Point::new(20, 20);
    let mut chunk = Chunk::new(lower_left, upper_right, ChunkSplit::Horizontal);
    let hallway = chunk.strip_hallway(ChunkSplit::Vertical, 1);
    assert_eq!(20, chunk.upper_right().y());
    assert_eq!(19, chunk.upper_right().x());
    assert_eq!(0, hallway.0.y());
    assert_eq!(19, hallway.0.x());
    assert_eq!(20, hallway.1.y());
}

#[test]
fn test_split_alternation_possible() {
    // A square chunk produced by a horizontal cut prefers a vertical cut.
    let mut chunk = Chunk::new(Point::new(0, 0), Point::new(40, 40), ChunkSplit::Horizontal);
    let mut rng = SequenceRandom::new(vec![10]);
    let sibling = chunk.split(&DimensionOptions::new(5, 5, 5), &mut rng).unwrap();
    assert!(matches!(sibling.chunk_split(), ChunkSplit::Vertical));

    // The same chunk produced by a vertical cut prefers a horizontal cut.
    let mut chunk = Chunk::new(Point::new(0, 0), Point::new(40, 40), ChunkSplit::Vertical);
    let mut rng = SequenceRandom::new(vec![10]);
    let sibling = chunk.split(&DimensionOptions::new(5, 5, 5), &mut rng).unwrap();
    assert!(matches!(sibling.chunk_split(), ChunkSplit::Horizontal));
}

#[test]
fn test_split_alternation_fallback() {
    // Too narrow for a vertical cut: a horizontally produced chunk falls
    // back to another horizontal cut.
    let mut chunk = Chunk::new(Point::new(0, 0), Point::new(8, 40), ChunkSplit::Horizontal);
    let mut rng = SequenceRandom::new(vec![10]);
    let sibling = chunk.split(&DimensionOptions::new(5, 5, 5), &mut rng).unwrap();
    assert!(matches!(sibling.chunk_split(), ChunkSplit::Horizontal));
}

#[test]
fn test_split_veto_under_max_area() {
    // Under the configured maximum area, a zero drawn for the one-in-four
    // event vetoes a geometrically possible split.
    let mut chunk = Chunk::new(Point::new(0, 0), Point::new(40, 40), ChunkSplit::Horizontal);
    let mut rng = SequenceRandom::new(vec![0]);
    let result = chunk.split(&DimensionOptions::new_with_max(5, 5, 5, 10000), &mut rng);
    assert!(result.is_none());
    // A non-zero draw lets the split proceed.
    let mut rng = SequenceRandom::new(vec![1, 10]);
    let result = chunk.split(&DimensionOptions::new_with_max(5, 5, 5, 10000), &mut rng);
    assert!(result.is_some());
}
