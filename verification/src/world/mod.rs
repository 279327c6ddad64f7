//! The chunks of the world: squares of tiles, addressed by whole numbers,
//! and the hitboxes of the entities that reach into them.

pub mod map;
pub mod range;

pub use map::{chunk_key, Chunk, EntityHitbox, World};
pub use range::ChunkRange;

use vstd::prelude::*;

verus! {

/// The number of tiles in a row of a chunk.
pub const CHUNK_TILE_WIDTH: usize = 16;

/// The number of rows of tiles in a chunk.
pub const CHUNK_TILE_HEIGHT: usize = 16;

/// The number of tiles in a chunk.
pub const CHUNK_TILE_COUNT: usize = 256;

/// The length of the side of a tile, in pixels.
pub const TILE_SIZE_IN_PX: i32 = 32;

/// Where the tile with the given number is drawn inside its chunk, in
/// pixels: the tiles are numbered row by row.
pub fn tile_origin(index: usize) -> (origin: (i32, i32))
    requires
        index < CHUNK_TILE_COUNT,
    ensures
        origin.0 == (index % CHUNK_TILE_WIDTH) * TILE_SIZE_IN_PX,
        origin.1 == (index / CHUNK_TILE_WIDTH) * TILE_SIZE_IN_PX,
{
    let x = (index % CHUNK_TILE_WIDTH) as i32 * TILE_SIZE_IN_PX;
    let y = (index / CHUNK_TILE_WIDTH) as i32 * TILE_SIZE_IN_PX;
    (x, y)
}

/// The position of a chunk, counted in chunks.
#[derive(Copy, Clone, Debug, PartialEq, Eq, Hash, Structural)]
pub struct ChunkCoord {
    pub x: i32,
    pub y: i32,
}

/// A chunk that a hitbox newly covers, or one that it has left.
#[derive(Copy, Clone, Debug, PartialEq, Eq, Structural)]
pub enum CoordDiff {
    Added(ChunkCoord),
    Removed(ChunkCoord),
}

/// Marks an entity whose state of matter has to be looked at again.
#[derive(Default, Debug, Clone, Copy)]
pub struct StateChangeRequired;

} // verus!
