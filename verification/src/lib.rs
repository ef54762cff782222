//! Procedural 2D dungeon layout generation: a rectangular area is
//! recursively subdivided into rooms by a constraint-bounded binary space
//! partition, some subdivision boundaries are carved into corridor strips
//! under an area budget, and the strips are stitched into closed rectilinear
//! hallway polylines by an edge-tracing merge.

pub mod chunk;
pub mod dimensionoptions;
pub mod dungeon;
pub mod dungeonbuilder;
pub mod hallway;
pub mod hallwaybuilder;
pub mod hallwayoptions;
pub mod merge;
pub mod point;
pub mod random;
pub mod room;
