//! The sparse grid: chunks keyed by their position, allocated on the first
//! write into them.

use crate::chunk::Chunk;
use crate::pos::{
    lemma_chunk_address_injective, lemma_chunk_key_injective, ChunkPos, TilePos, CHUNK_AREA,
};
use crate::rect::TileRect;
use crate::tile::{Tile, TilePair};
use std::collections::hash_map::Entry;
use std::collections::HashMap;
use vstd::prelude::*;

verus! {

broadcast use vstd::std_specs::hash::group_hash_axioms;

/// An unbounded plane of cells. Cells of chunks that were never written to
/// read as blank and take no memory.
#[derive(Clone, Debug)]
pub struct TileGrid {
    /// The allocated chunks, each under the key of its position.
    pub chunks: HashMap<u64, Chunk>,
}

impl View for TileGrid {
    type V = Map<TilePos, TilePair>;

    /// The cells of the allocated chunks, by position. A position outside
    /// the allocated chunks has no cell, and reads as blank.
    open spec fn view(&self) -> Map<TilePos, TilePair> {
        Map::new(|p: TilePos| self.has_chunk(p.spec_chunk()), |p: TilePos| self.tile_at(p))
    }
}

impl TileGrid {
    /// Every chunk is stored under the key of its own position, and holds
    /// tiles of the plane.
    pub open spec fn wf(&self) -> bool {
        forall|k: u64| #[trigger]
            self.chunks@.contains_key(k) ==> self.chunks@[k].pos.spec_key() == k
                && self.chunks@[k].pos.in_plane()
    }

    /// Whether the chunk at `c` is allocated.
    pub open spec fn has_chunk(&self, c: ChunkPos) -> bool {
        self.chunks@.contains_key(c.spec_key())
    }

    /// The cell at `pos`: what is stored there, or a blank cell where no
    /// chunk is allocated.
    #[verifier::opaque]
    pub open spec fn tile_at(&self, pos: TilePos) -> TilePair {
        let key = pos.spec_chunk().spec_key();
        if self.chunks@.contains_key(key) {
            self.chunks@[key].tiles[pos.spec_index_in_chunk()]
        } else {
            TilePair::spec_blank()
        }
    }

    /// Whether the cell at `pos` holds anything.
    pub open spec fn used(&self, pos: TilePos) -> bool {
        !self.tile_at(pos).spec_is_empty()
    }

    /// A grid without chunks.
    pub fn new() -> (r: Self)
        ensures
            r.wf(),
            forall|c: ChunkPos| !r.has_chunk(c),
            forall|p: TilePos| r.tile_at(p) == TilePair::spec_blank(),
            r@ == Map::<TilePos, TilePair>::empty(),
    {
        let r = TileGrid { chunks: HashMap::new() };
        proof {
            reveal(TileGrid::tile_at);
            assert(r@ =~= Map::<TilePos, TilePair>::empty());
        }
        r
    }

    /// The chunk at `pos`, if it is allocated. Nothing is allocated.
    pub fn chunk(&self, pos: ChunkPos) -> (r: Option<&Chunk>)
        ensures
            r is Some <==> self.has_chunk(pos),
            r matches Some(chunk) ==> *chunk == self.chunks@[pos.spec_key()],
    {
        let key = pos.key();
        self.chunks.get(&key)
    }

    /// Reads the cell at `pos`. A cell of a chunk that is not allocated reads
    /// as blank, and stays unallocated.
    pub fn index(&self, pos: TilePos) -> (cell: TilePair)
        ensures
            cell == self.tile_at(pos),
            cell == if self@.contains_key(pos) {
                self@[pos]
            } else {
                TilePair::spec_blank()
            },
    {
        proof {
            reveal(TileGrid::tile_at);
        }
        let key = ChunkPos::of_tile(pos).key();
        match self.chunks.get(&key) {
            Some(chunk) => chunk.tiles[pos.chunk_relative().chunk_index()],
            None => TilePair::blank(),
        }
    }

    /// The cell at `pos`, to write to. Its chunk is allocated, with blank
    /// cells, if it was not yet.
    pub fn index_mut(&mut self, pos: TilePos) -> (cell: &mut TilePair)
        requires
            old(self).wf(),
        ensures
            *cell == old(self).tile_at(pos),
            final(self).wf(),
            final(self).tile_at(pos) == *final(cell),
            forall|p: TilePos| p != pos ==> final(self).tile_at(p) == old(self).tile_at(p),
            forall|c: ChunkPos|
                final(self).has_chunk(c) <==> old(self).has_chunk(c) || c == pos.spec_chunk(),
    {
        let chunk_pos = ChunkPos::of_tile(pos);
        let key = chunk_pos.key();
        let index = pos.chunk_relative().chunk_index();
        proof {
            reveal(TileGrid::tile_at);
            assert forall|p: TilePos| p != pos && p.spec_chunk().spec_key() == key implies p.spec_index_in_chunk()
                != index by {
                lemma_chunk_key_injective(p.spec_chunk(), chunk_pos);
                if p.spec_index_in_chunk() == index {
                    lemma_chunk_address_injective(p, pos);
                }
            }
            assert forall|c: ChunkPos| c.spec_key() == key implies c == chunk_pos by {
                lemma_chunk_key_injective(c, chunk_pos);
            }
        }
        let chunk = match self.chunks.entry(key) {
            Entry::Occupied(occupied) => occupied.into_mut(),
            Entry::Vacant(vacant) => vacant.insert(Chunk::new(chunk_pos)),
        };
        &mut chunk.tiles[index]
    }
}

/// The rectangle that an empty grid reports as used: from the largest
/// position to the smallest, so that it holds no tile.
pub open spec fn spec_no_tiles() -> TileRect {
    TileRect {
        min: TilePos { x: i32::MAX, y: i32::MAX },
        max: TilePos { x: i32::MIN, y: i32::MIN },
    }
}

impl TileGrid {
    /// Whether any cell holds anything.
    pub open spec fn any_used(&self) -> bool {
        exists|p: TilePos| self.used(p)
    }

    /// Whether a used cell has the coordinate `x`.
    pub open spec fn used_in_column(&self, x: int) -> bool {
        exists|p: TilePos| #[trigger] self.used(p) && p.x == x
    }

    /// Whether a used cell has the coordinate `y`.
    pub open spec fn used_in_row(&self, y: int) -> bool {
        exists|p: TilePos| #[trigger] self.used(p) && p.y == y
    }

    /// Whether a used cell lies in a chunk with the coordinate `x`.
    pub open spec fn used_in_chunk_column(&self, x: int) -> bool {
        exists|p: TilePos| #[trigger] self.used(p) && p.spec_chunk().x == x
    }

    /// Whether a used cell lies in a chunk with the coordinate `y`.
    pub open spec fn used_in_chunk_row(&self, y: int) -> bool {
        exists|p: TilePos| #[trigger] self.used(p) && p.spec_chunk().y == y
    }

    /// Whether `rect` is the smallest rectangle that holds every used cell,
    /// or, on a grid without used cells, the rectangle without tiles.
    pub open spec fn is_used_rect(&self, rect: TileRect) -> bool {
        if self.any_used() {
            &&& forall|p: TilePos| #[trigger] self.used(p) ==> rect.contains(p)
            &&& self.used_in_column(rect.min.x as int)
            &&& self.used_in_column(rect.max.x as int)
            &&& self.used_in_row(rect.min.y as int)
            &&& self.used_in_row(rect.max.y as int)
        } else {
            rect == spec_no_tiles()
        }
    }

    /// The smallest rectangle that holds every used cell; see `is_used_rect`.
    pub open spec fn spec_used_rect(&self) -> TileRect {
        choose|rect: TileRect| self.is_used_rect(rect)
    }

    /// Whether `min` and `max` are the smallest and largest coordinates of
    /// the chunks that hold a used cell, or, on a grid without used cells,
    /// the largest and the smallest position.
    pub open spec fn is_used_chunk_range(&self, min: ChunkPos, max: ChunkPos) -> bool {
        if self.any_used() {
            &&& forall|p: TilePos| #[trigger]
                self.used(p) ==> min.x <= p.spec_chunk().x <= max.x && min.y <= p.spec_chunk().y
                    <= max.y
            &&& self.used_in_chunk_column(min.x as int)
            &&& self.used_in_chunk_column(max.x as int)
            &&& self.used_in_chunk_row(min.y as int)
            &&& self.used_in_chunk_row(max.y as int)
        } else {
            min == (ChunkPos { x: i32::MAX, y: i32::MAX }) && max == (ChunkPos {
                x: i32::MIN,
                y: i32::MIN,
            })
        }
    }

    /// The smallest and largest coordinates of the chunks that hold a used
    /// cell; see `is_used_chunk_range`.
    pub open spec fn spec_used_chunks(&self) -> (ChunkPos, ChunkPos) {
        choose|r: (ChunkPos, ChunkPos)| self.is_used_chunk_range(r.0, r.1)
    }

    /// Whether the coordinates of the chunk stored under `key` lie between
    /// `min` and `max`, unless no cell of that chunk is used.
    #[verifier::opaque]
    spec fn range_covers(&self, key: u64, min: ChunkPos, max: ChunkPos) -> bool {
        forall|p: TilePos| #[trigger]
            self.used(p) && p.spec_chunk().spec_key() == key ==> min.x <= p.spec_chunk().x <= max.x
                && min.y <= p.spec_chunk().y <= max.y
    }

    proof fn lemma_range_widens(
        &self,
        key: u64,
        min: ChunkPos,
        max: ChunkPos,
        wider_min: ChunkPos,
        wider_max: ChunkPos,
    )
        requires
            self.range_covers(key, min, max),
            wider_min.x <= min.x,
            wider_min.y <= min.y,
            max.x <= wider_max.x,
            max.y <= wider_max.y,
        ensures
            self.range_covers(key, wider_min, wider_max),
    {
        reveal(TileGrid::range_covers);
    }

    proof fn lemma_range_covers_chunk(&self, key: u64, min: ChunkPos, max: ChunkPos)
        requires
            self.wf(),
            self.chunks@.contains_key(key),
            self.chunks@[key].spec_is_empty() || (min.x <= self.chunks@[key].pos.x <= max.x
                && min.y <= self.chunks@[key].pos.y <= max.y),
        ensures
            self.range_covers(key, min, max),
    {
        reveal(TileGrid::range_covers);
        reveal(TileGrid::tile_at);
        assert forall|p: TilePos| #[trigger]
            self.used(p) && p.spec_chunk().spec_key() == key implies min.x <= p.spec_chunk().x
            <= max.x && min.y <= p.spec_chunk().y <= max.y by {
            lemma_chunk_key_injective(p.spec_chunk(), self.chunks@[key].pos);
            assert(0 <= p.spec_index_in_chunk() < 1024);
            assert(!self.chunks@[key].tiles[p.spec_index_in_chunk()].spec_is_empty());
        }
    }

    proof fn lemma_range_covers_all(&self, keys: Seq<u64>, min: ChunkPos, max: ChunkPos)
        requires
            keys.to_set() == self.chunks@.dom(),
            forall|j: int| 0 <= j < keys.len() ==> self.range_covers(#[trigger] keys[j], min, max),
        ensures
            forall|p: TilePos| #[trigger]
                self.used(p) ==> min.x <= p.spec_chunk().x <= max.x && min.y <= p.spec_chunk().y
                    <= max.y,
    {
        reveal(TileGrid::range_covers);
        reveal(TileGrid::tile_at);
        assert forall|p: TilePos| #[trigger] self.used(p) implies min.x <= p.spec_chunk().x
            <= max.x && min.y <= p.spec_chunk().y <= max.y by {
            let k = p.spec_chunk().spec_key();
            assert(self.chunks@.dom().contains(k));
            assert(keys.to_set().contains(k));
            let j = choose|j: int| 0 <= j < keys.len() && keys[j] == k;
            assert(self.range_covers(keys[j], min, max));
        }
    }

    /// The smallest and the largest coordinates of the chunks that hold a
    /// used cell. Allocated chunks whose cells are all empty do not count.
    pub fn used_chunks(&self) -> (r: (ChunkPos, ChunkPos))
        requires
            self.wf(),
        ensures
            self.is_used_chunk_range(r.0, r.1),
            r == self.spec_used_chunks(),
            self.any_used() ==> r.0.in_plane() && r.1.in_plane() && r.0.x <= r.1.x && r.0.y
                <= r.1.y,
    {
        let mut min = ChunkPos::of(i32::MAX, i32::MAX);
        let mut max = ChunkPos::of(i32::MIN, i32::MIN);
        let ghost mut found = false;
        let ghost mut at_min_x = TilePos { x: 0, y: 0 };
        let ghost mut at_max_x = TilePos { x: 0, y: 0 };
        let ghost mut at_min_y = TilePos { x: 0, y: 0 };
        let ghost mut at_max_y = TilePos { x: 0, y: 0 };
        let keys = self.chunks.keys();
        proof {
            reveal(TileGrid::tile_at);
            vstd::std_specs::hash::axiom_spec_keys_iter(&self.chunks);
        }
        for key in it: keys
            invariant
                self.wf(),
                it.seq().unref().to_set() == self.chunks@.dom(),
                !found ==> min == (ChunkPos { x: i32::MAX, y: i32::MAX }) && max == (ChunkPos {
                    x: i32::MIN,
                    y: i32::MIN,
                }),
                found ==> {
                    &&& min.in_plane() && max.in_plane()
                    &&& self.used(at_min_x) && at_min_x.spec_chunk().x == min.x
                    &&& self.used(at_max_x) && at_max_x.spec_chunk().x == max.x
                    &&& self.used(at_min_y) && at_min_y.spec_chunk().y == min.y
                    &&& self.used(at_max_y) && at_max_y.spec_chunk().y == max.y
                },
                forall|j: int|
                    0 <= j < it.index() ==> self.range_covers(
                        #[trigger] it.seq().unref()[j],
                        min,
                        max,
                    ),
                it.index() == it.seq().len() ==> self.is_used_chunk_range(min, max) && (
                self.any_used() ==> found),
        {
            let ghost old_min = min;
            let ghost old_max = max;
            assert(it.seq().unref()[it.index() as int] == *key);
            assert(it.seq().unref().to_set().contains(*key));
            assert(self.chunks@.contains_key(*key));
            if let Some(chunk) = self.chunks.get(key) {
                let pos = chunk.pos;
                if !chunk.is_empty() {
                    proof {
                        let i = choose|i: int|
                            0 <= i < 1024 && !(#[trigger] chunk.tiles[i]).spec_is_empty();
                        let p = chunk.spec_tile_position(i);
                        lemma_tile_position(pos, i);
                        reveal(TileGrid::tile_at);
                        assert(self.used(p));
                        found = true;
                        if pos.x <= min.x {
                            at_min_x = p;
                        }
                        if pos.x >= max.x {
                            at_max_x = p;
                        }
                        if pos.y <= min.y {
                            at_min_y = p;
                        }
                        if pos.y >= max.y {
                            at_max_y = p;
                        }
                    }
                    if pos.x < min.x {
                        min.x = pos.x;
                    }
                    if pos.y < min.y {
                        min.y = pos.y;
                    }
                    if pos.x > max.x {
                        max.x = pos.x;
                    }
                    if pos.y > max.y {
                        max.y = pos.y;
                    }
                }
            }
            proof {
                self.lemma_range_covers_chunk(*key, min, max);
                assert forall|j: int| 0 <= j < it.index() + 1 implies self.range_covers(
                    #[trigger] it.seq().unref()[j],
                    min,
                    max,
                ) by {
                    if j < it.index() {
                        self.lemma_range_widens(it.seq().unref()[j], old_min, old_max, min, max);
                    }
                }
            }
            assert(it.index() + 1 == it.seq().len() ==> self.is_used_chunk_range(min, max) && (
            self.any_used() ==> found)) by {
                if it.index() + 1 == it.seq().len() {
                    self.lemma_range_covers_all(it.seq().unref(), min, max);
                    if self.any_used() {
                        let p = choose|p: TilePos| self.used(p);
                        assert(self.used(p));
                    }
                }
            }
        }
        proof {
            let found_range = (min, max);
            assert(self.is_used_chunk_range(found_range.0, found_range.1));
            let chosen = self.spec_used_chunks();
            lemma_used_chunk_range_unique(*self, min, max, chosen.0, chosen.1);
            if self.any_used() {
                let p = choose|p: TilePos| self.used(p);
                assert(self.used(p));
            }
        }
        (min, max)
    }
}

/// A grid has one used chunk range.
pub proof fn lemma_used_chunk_range_unique(
    grid: TileGrid,
    min: ChunkPos,
    max: ChunkPos,
    other_min: ChunkPos,
    other_max: ChunkPos,
)
    requires
        grid.is_used_chunk_range(min, max),
        grid.is_used_chunk_range(other_min, other_max),
    ensures
        min == other_min,
        max == other_max,
{
    if grid.any_used() {
        let a = choose|p: TilePos| #[trigger] grid.used(p) && p.spec_chunk().x == min.x;
        let b = choose|p: TilePos| #[trigger] grid.used(p) && p.spec_chunk().x == max.x;
        let c = choose|p: TilePos| #[trigger] grid.used(p) && p.spec_chunk().y == min.y;
        let d = choose|p: TilePos| #[trigger] grid.used(p) && p.spec_chunk().y == max.y;
        let e = choose|p: TilePos| #[trigger] grid.used(p) && p.spec_chunk().x == other_min.x;
        let f = choose|p: TilePos| #[trigger] grid.used(p) && p.spec_chunk().x == other_max.x;
        let g = choose|p: TilePos| #[trigger] grid.used(p) && p.spec_chunk().y == other_min.y;
        let h = choose|p: TilePos| #[trigger] grid.used(p) && p.spec_chunk().y == other_max.y;
        assert(grid.used(a) && grid.used(b) && grid.used(c) && grid.used(d));
        assert(grid.used(e) && grid.used(f) && grid.used(g) && grid.used(h));
    }
}

impl TileGrid {
    /// Whether `min` and `max` are bounds that used cells attain on each
    /// side, or the corners of the rectangle without tiles.
    spec fn bounds_attained(&self, min: TilePos, max: TilePos) -> bool {
        if min.x <= max.x {
            &&& min.y <= max.y
            &&& self.used_in_column(min.x as int)
            &&& self.used_in_column(max.x as int)
            &&& self.used_in_row(min.y as int)
            &&& self.used_in_row(max.y as int)
        } else {
            min == spec_no_tiles().min && max == spec_no_tiles().max
        }
    }

    /// Whether the bounds `min` and `max` hold every used cell of chunk `c`.
    #[verifier::opaque]
    spec fn bounds_hold_chunk(&self, c: ChunkPos, min: TilePos, max: TilePos) -> bool {
        forall|p: TilePos| #[trigger]
            self.used(p) && p.spec_chunk() == c ==> min.x <= p.x <= max.x && min.y <= p.y <= max.y
    }

    proof fn lemma_bounds_widen(
        &self,
        c: ChunkPos,
        min: TilePos,
        max: TilePos,
        wider_min: TilePos,
        wider_max: TilePos,
    )
        requires
            self.bounds_hold_chunk(c, min, max),
            wider_min.x <= min.x,
            wider_min.y <= min.y,
            max.x <= wider_max.x,
            max.y <= wider_max.y,
        ensures
            self.bounds_hold_chunk(c, wider_min, wider_max),
    {
        reveal(TileGrid::bounds_hold_chunk);
    }

    /// Widens the bounds `min` and `max` by the used cells of chunk `c`.
    fn scan_chunk(&self, c: ChunkPos, min: &mut TilePos, max: &mut TilePos)
        requires
            self.wf(),
            c.in_plane(),
            self.bounds_attained(*old(min), *old(max)),
        ensures
            self.bounds_attained(*final(min), *final(max)),
            final(min).x <= old(min).x,
            final(min).y <= old(min).y,
            old(max).x <= final(max).x,
            old(max).y <= final(max).y,
            self.bounds_hold_chunk(c, *final(min), *final(max)),
    {
        let chunk = match self.chunk(c) {
            Some(chunk) => chunk,
            None => {
                proof {
                    reveal(TileGrid::bounds_hold_chunk);
                    reveal(TileGrid::tile_at);
                }
                return ;
            },
        };
        proof {
            lemma_chunk_key_injective(chunk.pos, c);
        }
        let positions = chunk.tile_positions();
        let mut i: usize = 0;
        while i < CHUNK_AREA
            invariant
                i <= CHUNK_AREA,
                positions.len() == CHUNK_AREA,
                self.has_chunk(c),
                *chunk == self.chunks@[c.spec_key()],
                forall|j: int|
                    0 <= j < CHUNK_AREA ==> (#[trigger] positions[j]).spec_chunk() == c
                        && positions[j].spec_index_in_chunk() == j,
                self.bounds_attained(*min, *max),
                min.x <= old(min).x,
                min.y <= old(min).y,
                old(max).x <= max.x,
                old(max).y <= max.y,
                forall|j: int|
                    0 <= j < i && !(#[trigger] chunk.tiles[j]).spec_is_empty() ==> min.x
                        <= positions[j].x <= max.x && min.y <= positions[j].y <= max.y,
            decreases CHUNK_AREA - i,
        {
            if !chunk.tiles[i].is_empty() {
                let pos = positions[i];
                assert(self.used(pos)) by {
                    reveal(TileGrid::tile_at);
                }
                if pos.x < min.x {
                    min.x = pos.x;
                }
                if pos.y < min.y {
                    min.y = pos.y;
                }
                if pos.x > max.x {
                    max.x = pos.x;
                }
                if pos.y > max.y {
                    max.y = pos.y;
                }
            }
            i += 1;
        }
        proof {
            reveal(TileGrid::bounds_hold_chunk);
            reveal(TileGrid::tile_at);
            assert forall|p: TilePos| #[trigger] self.used(p) && p.spec_chunk() == c implies min.x
                <= p.x <= max.x && min.y <= p.y <= max.y by {
                let j = p.spec_index_in_chunk();
                lemma_chunk_address_injective(p, positions[j]);
                assert(!chunk.tiles[j].spec_is_empty());
            }
        }
    }

    /// Widens the bounds by the used cells of the chunks `(x, y)` with
    /// `from <= x <= to`.
    fn scan_chunk_row(&self, y: i32, from: i32, to: i32, min: &mut TilePos, max: &mut TilePos)
        requires
            self.wf(),
            (ChunkPos { x: from, y }).in_plane(),
            (ChunkPos { x: to, y }).in_plane(),
            self.bounds_attained(*old(min), *old(max)),
        ensures
            self.bounds_attained(*final(min), *final(max)),
            final(min).x <= old(min).x,
            final(min).y <= old(min).y,
            old(max).x <= final(max).x,
            old(max).y <= final(max).y,
            forall|c: ChunkPos|
                c.y == y && from <= c.x <= to ==> #[trigger] self.bounds_hold_chunk(
                    c,
                    *final(min),
                    *final(max),
                ),
    {
        let mut x: i32 = from;
        while x <= to
            invariant
                self.wf(),
                (ChunkPos { x: from, y }).in_plane(),
                (ChunkPos { x: to, y }).in_plane(),
                from <= x,
                x <= to + 1 || from > to,
                self.bounds_attained(*min, *max),
                min.x <= old(min).x,
                min.y <= old(min).y,
                old(max).x <= max.x,
                old(max).y <= max.y,
                forall|c: ChunkPos|
                    c.y == y && from <= c.x < x ==> #[trigger] self.bounds_hold_chunk(
                        c,
                        *min,
                        *max,
                    ),
            decreases to + 1 - x,
        {
            let ghost before_min = *min;
            let ghost before_max = *max;
            self.scan_chunk(ChunkPos::of(x, y), min, max);
            proof {
                assert forall|c: ChunkPos| c.y == y && from <= c.x < x + 1 implies #[trigger]
                    self.bounds_hold_chunk(c, *min, *max) by {
                    if c.x < x {
                        self.lemma_bounds_widen(c, before_min, before_max, *min, *max);
                    }
                }
            }
            x += 1;
        }
    }

    /// Widens the bounds by the used cells of the chunks `(x, y)` with
    /// `from <= y <= to`.
    fn scan_chunk_column(&self, x: i32, from: i32, to: i32, min: &mut TilePos, max: &mut TilePos)
        requires
            self.wf(),
            -0x400_0000 <= x < 0x400_0000,
            -0x400_0000 <= from <= 0x400_0000,
            -0x400_0000 - 1 <= to < 0x400_0000,
            self.bounds_attained(*old(min), *old(max)),
        ensures
            self.bounds_attained(*final(min), *final(max)),
            final(min).x <= old(min).x,
            final(min).y <= old(min).y,
            old(max).x <= final(max).x,
            old(max).y <= final(max).y,
            forall|c: ChunkPos|
                c.x == x && from <= c.y <= to ==> #[trigger] self.bounds_hold_chunk(
                    c,
                    *final(min),
                    *final(max),
                ),
    {
        let mut y: i32 = from;
        while y <= to
            invariant
                self.wf(),
                -0x400_0000 <= x < 0x400_0000,
                -0x400_0000 <= from <= 0x400_0000,
                -0x400_0000 - 1 <= to < 0x400_0000,
                from <= y,
                y <= to + 1 || from > to,
                self.bounds_attained(*min, *max),
                min.x <= old(min).x,
                min.y <= old(min).y,
                old(max).x <= max.x,
                old(max).y <= max.y,
                forall|c: ChunkPos|
                    c.x == x && from <= c.y < y ==> #[trigger] self.bounds_hold_chunk(
                        c,
                        *min,
                        *max,
                    ),
            decreases to + 1 - y,
        {
            let ghost before_min = *min;
            let ghost before_max = *max;
            self.scan_chunk(ChunkPos::of(x, y), min, max);
            proof {
                assert forall|c: ChunkPos| c.x == x && from <= c.y < y + 1 implies #[trigger]
                    self.bounds_hold_chunk(c, *min, *max) by {
                    if c.y < y {
                        self.lemma_bounds_widen(c, before_min, before_max, *min, *max);
                    }
                }
            }
            y += 1;
        }
    }
}

impl TileGrid {
    /// Whether chunk `c` lies on the rim of the chunk range from `min` to
    /// `max`.
    spec fn on_rim(c: ChunkPos, min: ChunkPos, max: ChunkPos) -> bool {
        &&& min.x <= c.x <= max.x
        &&& min.y <= c.y <= max.y
        &&& (c.x == min.x || c.x == max.x || c.y == min.y || c.y == max.y)
    }

    /// Bounds that used cells attain and that hold the used cells of the rim
    /// of the used chunk range hold every used cell.
    proof fn lemma_rim_bounds_all(&self, cmin: ChunkPos, cmax: ChunkPos, min: TilePos, max: TilePos)
        requires
            self.any_used(),
            self.is_used_chunk_range(cmin, cmax),
            self.bounds_attained(min, max),
            forall|c: ChunkPos|
                Self::on_rim(c, cmin, cmax) ==> #[trigger] self.bounds_hold_chunk(c, min, max),
        ensures
            self.is_used_rect(TileRect { min, max }),
    {
        reveal(TileGrid::bounds_hold_chunk);
        let at_min_x = choose|p: TilePos| #[trigger] self.used(p) && p.spec_chunk().x == cmin.x;
        let at_max_x = choose|p: TilePos| #[trigger] self.used(p) && p.spec_chunk().x == cmax.x;
        let at_min_y = choose|p: TilePos| #[trigger] self.used(p) && p.spec_chunk().y == cmin.y;
        let at_max_y = choose|p: TilePos| #[trigger] self.used(p) && p.spec_chunk().y == cmax.y;
        assert(self.bounds_hold_chunk(at_min_x.spec_chunk(), min, max));
        assert(self.bounds_hold_chunk(at_max_x.spec_chunk(), min, max));
        assert(self.bounds_hold_chunk(at_min_y.spec_chunk(), min, max));
        assert(self.bounds_hold_chunk(at_max_y.spec_chunk(), min, max));
        assert forall|p: TilePos| #[trigger] self.used(p) implies (TileRect { min, max }).contains(
            p,
        ) by {
            let c = p.spec_chunk();
            if Self::on_rim(c, cmin, cmax) {
                assert(self.bounds_hold_chunk(c, min, max));
            }
        }
    }

    /// The smallest rectangle that holds every used cell. Only the chunks on
    /// the rim of the used chunk range are read: a cell that attains a bound
    /// lies in one of them.
    pub fn used_tiles(&self) -> (r: TileRect)
        requires
            self.wf(),
        ensures
            self.is_used_rect(r),
            r == self.spec_used_rect(),
            self.any_used() <==> r.sorted(),
    {
        let (cmin, cmax) = self.used_chunks();
        let mut min = TilePos::of(i32::MAX, i32::MAX);
        let mut max = TilePos::of(i32::MIN, i32::MIN);
        if cmin.x > cmax.x {
            proof {
                if self.any_used() {
                    let p = choose|p: TilePos| self.used(p);
                    assert(self.used(p));
                }
            }
            proof {
                assert(self.is_used_rect(TileRect { min, max }));
                lemma_used_rect_unique(*self, TileRect { min, max }, self.spec_used_rect());
            }
            return TileRect::new_presorted(min, max);
        }
        assert(self.any_used());
        proof {
            let p = choose|p: TilePos| self.used(p);
            assert(self.used(p));
        }
        self.scan_chunk_row(cmin.y, cmin.x, cmax.x, &mut min, &mut max);
        let ghost (min1, max1) = (min, max);
        self.scan_chunk_row(cmax.y, cmin.x, cmax.x, &mut min, &mut max);
        let ghost (min2, max2) = (min, max);
        self.scan_chunk_column(cmin.x, cmin.y + 1, cmax.y - 1, &mut min, &mut max);
        let ghost (min3, max3) = (min, max);
        self.scan_chunk_column(cmax.x, cmin.y + 1, cmax.y - 1, &mut min, &mut max);
        proof {
            assert forall|c: ChunkPos| Self::on_rim(c, cmin, cmax) implies #[trigger]
                self.bounds_hold_chunk(c, min, max) by {
                if c.y == cmin.y {
                    self.lemma_bounds_widen(c, min1, max1, min, max);
                } else if c.y == cmax.y {
                    self.lemma_bounds_widen(c, min2, max2, min, max);
                } else if c.x == cmin.x {
                    self.lemma_bounds_widen(c, min3, max3, min, max);
                }
            }
            self.lemma_rim_bounds_all(cmin, cmax, min, max);
            assert(self.is_used_rect(TileRect { min, max }));
            lemma_used_rect_unique(*self, TileRect { min, max }, self.spec_used_rect());
        }
        TileRect::new_presorted(min, max)
    }
}

/// A grid has one used rectangle: two rectangles that both are the smallest
/// to hold every used cell are the same.
pub proof fn lemma_used_rect_unique(grid: TileGrid, a: TileRect, b: TileRect)
    requires
        grid.is_used_rect(a),
        grid.is_used_rect(b),
    ensures
        a == b,
{
    if grid.any_used() {
        let a_min_x = choose|p: TilePos| #[trigger] grid.used(p) && p.x == a.min.x;
        let a_max_x = choose|p: TilePos| #[trigger] grid.used(p) && p.x == a.max.x;
        let a_min_y = choose|p: TilePos| #[trigger] grid.used(p) && p.y == a.min.y;
        let a_max_y = choose|p: TilePos| #[trigger] grid.used(p) && p.y == a.max.y;
        let b_min_x = choose|p: TilePos| #[trigger] grid.used(p) && p.x == b.min.x;
        let b_max_x = choose|p: TilePos| #[trigger] grid.used(p) && p.x == b.max.x;
        let b_min_y = choose|p: TilePos| #[trigger] grid.used(p) && p.y == b.min.y;
        let b_max_y = choose|p: TilePos| #[trigger] grid.used(p) && p.y == b.max.y;
        assert(b.contains(a_min_x) && b.contains(a_max_x) && b.contains(a_min_y) && b.contains(
            a_max_y,
        ));
        assert(a.contains(b_min_x) && a.contains(b_max_x) && a.contains(b_min_y) && a.contains(
            b_max_y,
        ));
    }
}

impl TileGrid {
    /// Whether a tile of `region` lies in chunk `c`.
    pub open spec fn region_meets_chunk(region: Set<TilePos>, c: ChunkPos) -> bool {
        exists|p: TilePos| #[trigger] region.contains(p) && p.spec_chunk() == c
    }

    /// Whether this grid is `before` after `tile` was set on every cell of
    /// `region`: those cells changed as `TilePair::after_set` says, the
    /// chunks that `region` meets are allocated, and nothing else differs.
    pub open spec fn is_set_of(&self, before: &TileGrid, region: Set<TilePos>, tile: Tile) -> bool {
        &&& forall|p: TilePos| #[trigger]
            self.tile_at(p) == if region.contains(p) {
                before.tile_at(p).after_set(tile)
            } else {
                before.tile_at(p)
            }
        &&& forall|c: ChunkPos| #[trigger]
            self.has_chunk(c) <==> before.has_chunk(c) || Self::region_meets_chunk(region, c)
    }
}

/// A region with one more tile meets the chunks that it met before, and the
/// chunk of that tile.
pub proof fn lemma_region_grows(region: Set<TilePos>, pos: TilePos, c: ChunkPos)
    ensures
        TileGrid::region_meets_chunk(region.insert(pos), c) <==> TileGrid::region_meets_chunk(
            region,
            c,
        ) || pos.spec_chunk() == c,
{
    let more = region.insert(pos);
    if TileGrid::region_meets_chunk(region, c) {
        let p = choose|p: TilePos| #[trigger] region.contains(p) && p.spec_chunk() == c;
        assert(more.contains(p));
    }
    if pos.spec_chunk() == c {
        assert(more.contains(pos));
    }
    if TileGrid::region_meets_chunk(more, c) {
        let p = choose|p: TilePos| #[trigger] more.contains(p) && p.spec_chunk() == c;
        if p != pos {
            assert(region.contains(p));
        }
    }
}

/// Setting the same tile twice is setting it once.
pub proof fn lemma_set_idempotent(cell: TilePair, tile: Tile)
    ensures
        cell.after_set(tile).after_set(tile) == cell.after_set(tile),
{
}

/// Setting a tile on one region and then on another is setting it on both.
pub proof fn lemma_set_regions_join(
    a: &TileGrid,
    b: &TileGrid,
    c: &TileGrid,
    first: Set<TilePos>,
    second: Set<TilePos>,
    tile: Tile,
)
    requires
        b.is_set_of(a, first, tile),
        c.is_set_of(b, second, tile),
    ensures
        c.is_set_of(a, first.union(second), tile),
{
    let both = first.union(second);
    assert forall|p: TilePos| #[trigger]
        c.tile_at(p) == if both.contains(p) {
            a.tile_at(p).after_set(tile)
        } else {
            a.tile_at(p)
        } by {
        lemma_set_idempotent(a.tile_at(p), tile);
        assert(b.tile_at(p) == if first.contains(p) {
            a.tile_at(p).after_set(tile)
        } else {
            a.tile_at(p)
        });
    }
    assert forall|k: ChunkPos| #[trigger]
        c.has_chunk(k) <==> a.has_chunk(k) || TileGrid::region_meets_chunk(both, k) by {
        assert(b.has_chunk(k) <==> a.has_chunk(k) || TileGrid::region_meets_chunk(first, k));
        if TileGrid::region_meets_chunk(first, k) {
            let p = choose|p: TilePos| #[trigger] first.contains(p) && p.spec_chunk() == k;
            assert(both.contains(p));
        }
        if TileGrid::region_meets_chunk(second, k) {
            let p = choose|p: TilePos| #[trigger] second.contains(p) && p.spec_chunk() == k;
            assert(both.contains(p));
        }
        if TileGrid::region_meets_chunk(both, k) {
            let p = choose|p: TilePos| #[trigger] both.contains(p) && p.spec_chunk() == k;
            assert(first.contains(p) || second.contains(p));
        }
    }
}

impl TileGrid {
    /// Whether this grid is `before` after every cell of `region` was
    /// overwritten with the cell of `source` that lies `(dx, dy)` away from
    /// it: those cells hold what `source` holds there, the chunks that
    /// `region` meets are allocated, and nothing else differs.
    pub open spec fn is_copy_of(
        &self,
        before: &TileGrid,
        source: &TileGrid,
        region: Set<TilePos>,
        dx: int,
        dy: int,
    ) -> bool {
        &&& forall|p: TilePos| #[trigger]
            self.tile_at(p) == if region.contains(p) {
                source.tile_at(p.spec_offset(dx, dy))
            } else {
                before.tile_at(p)
            }
        &&& forall|c: ChunkPos| #[trigger]
            self.has_chunk(c) <==> before.has_chunk(c) || Self::region_meets_chunk(region, c)
    }
}

/// Copying onto one region and then onto another is copying onto both.
pub proof fn lemma_copy_regions_join(
    a: &TileGrid,
    b: &TileGrid,
    c: &TileGrid,
    source: &TileGrid,
    first: Set<TilePos>,
    second: Set<TilePos>,
    dx: int,
    dy: int,
)
    requires
        b.is_copy_of(a, source, first, dx, dy),
        c.is_copy_of(b, source, second, dx, dy),
    ensures
        c.is_copy_of(a, source, first.union(second), dx, dy),
{
    let both = first.union(second);
    assert forall|p: TilePos| #[trigger]
        c.tile_at(p) == if both.contains(p) {
            source.tile_at(p.spec_offset(dx, dy))
        } else {
            a.tile_at(p)
        } by {
        assert(b.tile_at(p) == if first.contains(p) {
            source.tile_at(p.spec_offset(dx, dy))
        } else {
            a.tile_at(p)
        });
    }
    assert forall|k: ChunkPos| #[trigger]
        c.has_chunk(k) <==> a.has_chunk(k) || TileGrid::region_meets_chunk(both, k) by {
        assert(b.has_chunk(k) <==> a.has_chunk(k) || TileGrid::region_meets_chunk(first, k));
        if TileGrid::region_meets_chunk(first, k) {
            let p = choose|p: TilePos| #[trigger] first.contains(p) && p.spec_chunk() == k;
            assert(both.contains(p));
        }
        if TileGrid::region_meets_chunk(second, k) {
            let p = choose|p: TilePos| #[trigger] second.contains(p) && p.spec_chunk() == k;
            assert(both.contains(p));
        }
        if TileGrid::region_meets_chunk(both, k) {
            let p = choose|p: TilePos| #[trigger] both.contains(p) && p.spec_chunk() == k;
            assert(first.contains(p) || second.contains(p));
        }
    }
}

/// Whether `key` is one of the first `n` of `keys`.
spec fn key_listed(keys: Seq<u64>, n: int, key: u64) -> bool {
    exists|j: int| 0 <= j < n && #[trigger] keys[j] == key
}

/// Whether `tiles` lists the cell at `pos`.
pub open spec fn lists_tile(tiles: Seq<(TilePos, TilePair)>, pos: TilePos) -> bool {
    exists|i: int| 0 <= i < tiles.len() && (#[trigger] tiles[i]).0 == pos
}

impl TileGrid {
    /// Whether `tiles` lists cells of this grid that are used, each once,
    /// those of one chunk in the order in which the chunk stores them.
    spec fn lists_used(&self, tiles: Seq<(TilePos, TilePair)>) -> bool {
        &&& forall|i: int|
            0 <= i < tiles.len() ==> (#[trigger] tiles[i]).1 == self.tile_at(tiles[i].0)
                && !tiles[i].1.spec_is_empty()
        &&& forall|i: int, j: int|
            0 <= i < j < tiles.len() ==> (#[trigger] tiles[i]).0 != (#[trigger] tiles[j]).0
    }

    /// Appends the used cells of the chunk at `c` to `tiles`.
    fn list_chunk(&self, c: ChunkPos, tiles: &mut Vec<(TilePos, TilePair)>)
        requires
            self.wf(),
            self.has_chunk(c),
            self.chunks@[c.spec_key()].pos == c,
            self.lists_used(old(tiles)@),
            forall|i: int| 0 <= i < old(tiles)@.len() ==> (#[trigger] old(tiles)@[i]).0.spec_chunk() != c,
        ensures
            self.lists_used(final(tiles)@),
            old(tiles)@.len() <= final(tiles)@.len(),
            forall|i: int| 0 <= i < old(tiles)@.len() ==> #[trigger] final(tiles)@[i] == old(tiles)@[i],
            forall|i: int|
                old(tiles)@.len() <= i < final(tiles)@.len() ==> (
                #[trigger] final(tiles)@[i]).0.spec_chunk() == c,
            forall|p: TilePos|
                p.spec_chunk() == c && #[trigger] self.used(p) ==> lists_tile(final(tiles)@, p),
    {
        let chunk = match self.chunk(c) {
            Some(chunk) => chunk,
            None => {
                return ;
            },
        };
        let positions = chunk.tile_positions();
        let mut i: usize = 0;
        while i < CHUNK_AREA
            invariant
                i <= CHUNK_AREA,
                positions.len() == CHUNK_AREA,
                self.has_chunk(c),
                *chunk == self.chunks@[c.spec_key()],
                forall|j: int|
                    0 <= j < CHUNK_AREA ==> (#[trigger] positions[j]).spec_chunk() == c
                        && positions[j].spec_index_in_chunk() == j,
                self.lists_used(tiles@),
                old(tiles)@.len() <= tiles@.len(),
                forall|k: int|
                    0 <= k < old(tiles)@.len() ==> (#[trigger] old(tiles)@[k]).0.spec_chunk() != c,
                forall|k: int| 0 <= k < old(tiles)@.len() ==> #[trigger] tiles@[k] == old(tiles)@[k],
                forall|k: int|
                    old(tiles)@.len() <= k < tiles@.len() ==> (#[trigger] tiles@[k]).0.spec_chunk()
                        == c && tiles@[k].0.spec_index_in_chunk() < i,
                forall|j: int|
                    0 <= j < i && !(#[trigger] chunk.tiles[j]).spec_is_empty() ==> lists_tile(
                        tiles@,
                        positions[j],
                    ),
            decreases CHUNK_AREA - i,
        {
            let cell = chunk.tiles[i];
            if !cell.is_empty() {
                let ghost before = tiles@;
                proof {
                    reveal(TileGrid::tile_at);
                    assert(self.lists_used(before));
                }
                tiles.push((positions[i], cell));
                proof {
                    let last = before.len() as int;
                    assert(tiles@[last].0 == positions[i as int]);
                    assert forall|j: int|
                        0 <= j <= i && !(#[trigger] chunk.tiles[j]).spec_is_empty() implies lists_tile(
                        tiles@,
                        positions[j],
                    ) by {
                        if j < i {
                            let k = choose|k: int|
                                0 <= k < before.len() && (#[trigger] before[k]).0 == positions[j];
                            assert(tiles@[k].0 == positions[j]);
                        }
                    }
                    assert forall|a: int, b: int| 0 <= a < b < tiles@.len() implies (
                    #[trigger] tiles@[a]).0 != (#[trigger] tiles@[b]).0 by {
                        if b == last {
                            assert(tiles@[a] == before[a]);
                            assert(tiles@[b].0 == positions[i as int]);
                            assert(positions[i as int].spec_chunk() == c
                                && positions[i as int].spec_index_in_chunk() == i);
                            if a < old(tiles)@.len() {
                                assert(before[a] == old(tiles)@[a]);
                                assert(old(tiles)@[a].0.spec_chunk() != c);
                            } else {
                                assert(before[a].0.spec_index_in_chunk() < i);
                            }
                        } else {
                            assert(tiles@[a] == before[a] && tiles@[b] == before[b]);
                            assert(before[a].0 != before[b].0);
                        }
                    }
                    assert forall|k: int| 0 <= k < tiles@.len() implies (#[trigger] tiles@[k]).1
                        == self.tile_at(tiles@[k].0) && !tiles@[k].1.spec_is_empty() by {
                        if k < last {
                            assert(tiles@[k] == before[k]);
                        }
                    }
                }
            }
            i += 1;
        }
        proof {
            reveal(TileGrid::tile_at);
            assert forall|p: TilePos|
                p.spec_chunk() == c && #[trigger] self.used(p) implies lists_tile(tiles@, p) by {
                let j = p.spec_index_in_chunk();
                lemma_chunk_address_injective(p, positions[j]);
                assert(!chunk.tiles[j].spec_is_empty());
            }
        }
    }

    /// Every used cell with its position, each once: chunk by chunk, in no
    /// order that could be relied on, the cells of one chunk in the order in
    /// which the chunk stores them.
    pub fn into_tiles(self) -> (tiles: Vec<(TilePos, TilePair)>)
        requires
            self.wf(),
        ensures
            forall|i: int|
                0 <= i < tiles.len() ==> (#[trigger] tiles[i]).1 == self.tile_at(tiles[i].0)
                    && !tiles[i].1.spec_is_empty(),
            forall|i: int, j: int|
                0 <= i < j < tiles.len() ==> (#[trigger] tiles[i]).0 != (#[trigger] tiles[j]).0,
            forall|p: TilePos| #[trigger] self.used(p) ==> lists_tile(tiles@, p),
    {
        let mut tiles: Vec<(TilePos, TilePair)> = Vec::new();
        let keys = self.chunks.keys();
        proof {
            reveal(TileGrid::tile_at);
            vstd::std_specs::hash::axiom_spec_keys_iter(&self.chunks);
        }
        for key in it: keys
            invariant
                self.wf(),
                it.seq().unref().to_set() == self.chunks@.dom(),
                it.seq().unref().no_duplicates(),
                self.lists_used(tiles@),
                forall|i: int|
                    0 <= i < tiles@.len() ==> key_listed(
                        it.seq().unref(),
                        it.index() as int,
                        (#[trigger] tiles@[i]).0.spec_chunk().spec_key(),
                    ),
                forall|j: int, p: TilePos|
                    0 <= j < it.index() && p.spec_chunk().spec_key() == (
                    #[trigger] it.seq().unref()[j]) && #[trigger] self.used(p) ==> lists_tile(
                        tiles@,
                        p,
                    ),
                it.index() == it.seq().len() ==> forall|p: TilePos| #[trigger]
                    self.used(p) ==> lists_tile(tiles@, p),
        {
            assert(it.seq().unref()[it.index() as int] == *key);
            assert(it.seq().unref().to_set().contains(*key));
            assert(self.chunks@.contains_key(*key));
            let ghost before = tiles@;
            if let Some(chunk) = self.chunks.get(key) {
                let c = chunk.pos;
                proof {
                    assert forall|i: int| 0 <= i < tiles@.len() implies (
                    #[trigger] tiles@[i]).0.spec_chunk() != c by {
                        let j = choose|j: int|
                            0 <= j < it.index() && (#[trigger] it.seq().unref()[j])
                                == tiles@[i].0.spec_chunk().spec_key();
                        assert(it.seq().unref()[j] != it.seq().unref()[it.index() as int]);
                        assert(c.spec_key() == *key);
                    }
                }
                self.list_chunk(c, &mut tiles);
                proof {
                    assert forall|p: TilePos|
                        p.spec_chunk().spec_key() == *key && #[trigger] self.used(
                            p,
                        ) implies lists_tile(tiles@, p) by {
                        lemma_chunk_key_injective(p.spec_chunk(), c);
                    }
                }
            }
            proof {
                assert forall|p: TilePos| lists_tile(before, p) implies lists_tile(tiles@, p) by {
                    let k = choose|k: int| 0 <= k < before.len() && (#[trigger] before[k]).0 == p;
                    assert(tiles@[k] == before[k]);
                }
                assert forall|i: int| 0 <= i < tiles@.len() implies key_listed(
                    it.seq().unref(),
                    it.index() + 1,
                    (#[trigger] tiles@[i]).0.spec_chunk().spec_key(),
                ) by {
                    if i < before.len() {
                        assert(tiles@[i] == before[i]);
                        let j = choose|j: int|
                            0 <= j < it.index() && (#[trigger] it.seq().unref()[j])
                                == before[i].0.spec_chunk().spec_key();
                        assert(it.seq().unref()[j] == tiles@[i].0.spec_chunk().spec_key());
                    } else {
                        assert(it.seq().unref()[it.index() as int]
                            == tiles@[i].0.spec_chunk().spec_key());
                    }
                }
            }
            assert(it.index() + 1 == it.seq().len() ==> forall|p: TilePos| #[trigger]
                self.used(p) ==> lists_tile(tiles@, p)) by {
                if it.index() + 1 == it.seq().len() {
                    assert forall|p: TilePos| #[trigger] self.used(p) implies lists_tile(
                        tiles@,
                        p,
                    ) by {
                        let k = p.spec_chunk().spec_key();
                        assert(self.chunks@.dom().contains(k)) by {
                            reveal(TileGrid::tile_at);
                        }
                        assert(it.seq().unref().to_set().contains(k));
                        let j = choose|j: int|
                            0 <= j < it.seq().unref().len() && it.seq().unref()[j] == k;
                        assert(it.seq().unref()[j] == p.spec_chunk().spec_key());
                    }
                }
            }
        }
        tiles
    }
}

/// The cell stored at index `i` of an in-plane chunk lies in that chunk, at
/// that index.
pub proof fn lemma_tile_position(c: ChunkPos, i: int)
    requires
        c.in_plane(),
        0 <= i < 1024,
    ensures
        ({
            let p = TilePos { x: (c.x * 32 + i % 32) as i32, y: (c.y * 32 + i / 32) as i32 };
            p.spec_chunk() == c && p.spec_index_in_chunk() == i
        }),
{
}

} // verus!
