//! Chunks: the dense square blocks of cells that the grid allocates.

use crate::pos::{ChunkPos, TilePos, CHUNK_AREA, CHUNK_DIAMETER};
use crate::tile::TilePair;
use vstd::prelude::*;

verus! {

/// A square of `CHUNK_DIAMETER` by `CHUNK_DIAMETER` cells, stored row by row.
#[derive(Clone, Debug)]
pub struct Chunk {
    pub pos: ChunkPos,
    pub tiles: [TilePair; 1024],
}

impl Chunk {
    /// Whether no cell of the chunk holds anything.
    pub open spec fn spec_is_empty(&self) -> bool {
        forall|i: int| 0 <= i < CHUNK_AREA ==> (#[trigger] self.tiles[i]).spec_is_empty()
    }

    /// The position on the plane of the cell stored at index `i`.
    pub open spec fn spec_tile_position(&self, i: int) -> TilePos {
        TilePos { x: (self.pos.x * 32 + i % 32) as i32, y: (self.pos.y * 32 + i / 32) as i32 }
    }

    /// A chunk at `pos` whose cells are all blank.
    pub fn new(pos: ChunkPos) -> (r: Self)
        ensures
            r.pos == pos,
            forall|i: int| 0 <= i < CHUNK_AREA ==> #[trigger] r.tiles[i] == TilePair::spec_blank(),
            r.spec_is_empty(),
    {
        Chunk { pos, tiles: [TilePair::blank(); 1024] }
    }

    /// Whether no cell of the chunk holds anything.
    pub fn is_empty(&self) -> (r: bool)
        ensures
            r == self.spec_is_empty(),
    {
        let mut i: usize = 0;
        while i < CHUNK_AREA
            invariant
                i <= CHUNK_AREA,
                forall|j: int| 0 <= j < i ==> (#[trigger] self.tiles[j]).spec_is_empty(),
            decreases CHUNK_AREA - i,
        {
            if !self.tiles[i].is_empty() {
                return false;
            }
            i += 1;
        }
        true
    }

    /// The positions on the plane of the cells of this chunk, in the order
    /// in which the cells are stored.
    pub fn tile_positions(&self) -> (r: Vec<TilePos>)
        requires
            self.pos.in_plane(),
        ensures
            r.len() == CHUNK_AREA,
            forall|i: int|
                0 <= i < CHUNK_AREA ==> {
                    &&& #[trigger] r[i] == self.spec_tile_position(i)
                    &&& r[i].spec_chunk() == self.pos
                    &&& r[i].spec_index_in_chunk() == i
                },
    {
        let mut r: Vec<TilePos> = Vec::new();
        let base = self.pos.min_tile();
        let mut y: i32 = 0;
        while y < CHUNK_DIAMETER
            invariant
                self.pos.in_plane(),
                base == self.pos.spec_min_tile(),
                0 <= y <= CHUNK_DIAMETER,
                r.len() == y * 32,
                forall|i: int|
                    0 <= i < r.len() ==> {
                        &&& #[trigger] r[i] == self.spec_tile_position(i)
                        &&& r[i].spec_chunk() == self.pos
                        &&& r[i].spec_index_in_chunk() == i
                    },
            decreases CHUNK_DIAMETER - y,
        {
            let mut x: i32 = 0;
            while x < CHUNK_DIAMETER
                invariant
                    self.pos.in_plane(),
                    base == self.pos.spec_min_tile(),
                    0 <= y < CHUNK_DIAMETER,
                    0 <= x <= CHUNK_DIAMETER,
                    r.len() == y * 32 + x,
                    forall|i: int|
                        0 <= i < r.len() ==> {
                            &&& #[trigger] r[i] == self.spec_tile_position(i)
                            &&& r[i].spec_chunk() == self.pos
                            &&& r[i].spec_index_in_chunk() == i
                        },
                decreases CHUNK_DIAMETER - x,
            {
                r.push(TilePos::of(base.x + x, base.y + y));
                x += 1;
            }
            y += 1;
        }
        r
    }
}

} // verus!
