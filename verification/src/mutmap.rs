//! A grid under construction: the grid together with the generator that its
//! builder draws from, and the operations that paint whole regions.

use crate::grid::{lemma_copy_regions_join, lemma_set_regions_join, TileGrid};
use crate::pos::{ChunkPos, TilePos};
use crate::rect::TileRect;
use crate::rng::{entropy_seed, seeded_rng, MapRng};
use crate::tile::{Tile, TilePair};
use rand::rngs::SmallRng;
use vstd::prelude::*;

verus! {

/// A grid and the generator used to build it.
#[derive(Debug)]
pub struct MutMap {
    pub map: TileGrid,
    pub rng: MapRng,
}

impl MutMap {
    pub open spec fn wf(&self) -> bool {
        self.map.wf()
    }

    /// The cell at `pos`.
    #[verifier::inline]
    pub open spec fn tile_at(&self, pos: TilePos) -> TilePair {
        self.map.tile_at(pos)
    }

    /// The tiles of the line from `from` to `to`, which lie in one row or in
    /// one column.
    pub open spec fn line_set(from: TilePos, to: TilePos) -> Set<TilePos> {
        TileRect::spec_new(from, to).tile_set()
    }

    /// An empty grid with a generator seeded with `seed`, or, without a
    /// seed, with a number drawn from the thread's generator.
    pub fn new(seed: Option<u64>) -> (r: Self)
        ensures
            r.wf(),
            forall|c: ChunkPos| !r.map.has_chunk(c),
            forall|p: TilePos| r.tile_at(p) == TilePair::spec_blank(),
    {
        let seed: u64 = match seed {
            Some(seed) => seed,
            None => entropy_seed(),
        };
        MutMap { rng: MapRng::new(seeded_rng(seed)), map: TileGrid::new() }
    }

    /// An empty grid that draws from `rng`.
    pub fn from_rng(rng: MapRng) -> (r: Self)
        ensures
            r.wf(),
            r.rng == rng,
            forall|c: ChunkPos| !r.map.has_chunk(c),
            forall|p: TilePos| r.tile_at(p) == TilePair::spec_blank(),
    {
        MutMap { rng, map: TileGrid::new() }
    }

    /// The generator, to draw from.
    pub fn rng(&mut self) -> (r: &mut SmallRng)
        ensures
            *r == old(self).rng.rng,
            final(self).rng.rng == *final(r),
            final(self).map == old(self).map,
    {
        self.rng.as_mut()
    }

    /// Reads the cell at `pos`; see `TileGrid::index`.
    pub fn index(&self, pos: TilePos) -> (cell: TilePair)
        ensures
            cell == self.tile_at(pos),
    {
        self.map.index(pos)
    }

    /// The cell at `pos`, to write to; see `TileGrid::index_mut`.
    pub fn index_mut(&mut self, pos: TilePos) -> (cell: &mut TilePair)
        requires
            old(self).wf(),
        ensures
            *cell == old(self).tile_at(pos),
            final(self).wf(),
            final(self).rng == old(self).rng,
            final(self).tile_at(pos) == *final(cell),
            forall|p: TilePos| p != pos ==> final(self).tile_at(p) == old(self).tile_at(p),
            forall|c: ChunkPos|
                final(self).map.has_chunk(c) <==> old(self).map.has_chunk(c) || c
                    == pos.spec_chunk(),
    {
        self.map.index_mut(pos)
    }

    /// Sets `tile` on the cell at `pos`.
    pub fn set_tile(&mut self, tile: Tile, pos: TilePos)
        requires
            old(self).wf(),
        ensures
            final(self).wf(),
            final(self).rng == old(self).rng,
            final(self).map.is_set_of(&old(self).map, set![pos], tile),
    {
        self.map.index_mut(pos).set(tile);
        proof {
            assert forall|c: ChunkPos| #[trigger]
                self.map.has_chunk(c) <==> old(self).map.has_chunk(c)
                    || TileGrid::region_meets_chunk(set![pos], c) by {
                if c == pos.spec_chunk() {
                    assert(set![pos].contains(pos));
                }
            }
        }
    }

    /// Sets `tile` on the cells `(x, y)` with `from <= x <= to`.
    fn fill_row(&mut self, tile: Tile, y: i32, from: i32, to: i32)
        requires
            old(self).wf(),
        ensures
            final(self).wf(),
            final(self).rng == old(self).rng,
            final(self).map.is_set_of(
                &old(self).map,
                Set::new(|p: TilePos| p.y == y && from <= p.x <= to),
                tile,
            ),
    {
        let mut x: i64 = from as i64;
        proof {
            assert(Set::new(|p: TilePos| p.y == y && from <= p.x < x) =~= Set::<TilePos>::empty());
            assert forall|c: ChunkPos| !TileGrid::region_meets_chunk(Set::<TilePos>::empty(), c) by {}
        }
        while x <= to as i64
            invariant
                self.wf(),
                self.rng == old(self).rng,
                from <= x,
                x <= to + 1 || x == from,
                self.map.is_set_of(
                    &old(self).map,
                    Set::new(|p: TilePos| p.y == y && from <= p.x < x),
                    tile,
                ),
            decreases to + 1 - x,
        {
            let ghost before = self.map;
            let pos = TilePos::of(x as i32, y);
            self.set_tile(tile, pos);
            proof {
                let done = Set::new(|p: TilePos| p.y == y && from <= p.x < x);
                lemma_set_regions_join(&old(self).map, &before, &self.map, done, set![pos], tile);
                assert(done.union(set![pos]) =~= Set::new(
                    |p: TilePos| p.y == y && from <= p.x < x + 1,
                ));
            }
            x = x + 1;
        }
        proof {
            assert(Set::new(|p: TilePos| p.y == y && from <= p.x < x) =~= Set::new(
                |p: TilePos| p.y == y && from <= p.x <= to,
            ));
        }
    }
}

impl MutMap {
    /// Sets `tile` on the cells `(x, y)` with `from <= y <= to`.
    fn fill_column(&mut self, tile: Tile, x: i32, from: i32, to: i32)
        requires
            old(self).wf(),
        ensures
            final(self).wf(),
            final(self).rng == old(self).rng,
            final(self).map.is_set_of(
                &old(self).map,
                Set::new(|p: TilePos| p.x == x && from <= p.y <= to),
                tile,
            ),
    {
        let mut y: i64 = from as i64;
        proof {
            assert(Set::new(|p: TilePos| p.x == x && from <= p.y < y) =~= Set::<TilePos>::empty());
            assert forall|c: ChunkPos| !TileGrid::region_meets_chunk(Set::<TilePos>::empty(), c) by {}
        }
        while y <= to as i64
            invariant
                self.wf(),
                self.rng == old(self).rng,
                from <= y,
                y <= to + 1 || y == from,
                self.map.is_set_of(
                    &old(self).map,
                    Set::new(|p: TilePos| p.x == x && from <= p.y < y),
                    tile,
                ),
            decreases to + 1 - y,
        {
            let ghost before = self.map;
            let pos = TilePos::of(x, y as i32);
            self.set_tile(tile, pos);
            proof {
                let done = Set::new(|p: TilePos| p.x == x && from <= p.y < y);
                lemma_set_regions_join(&old(self).map, &before, &self.map, done, set![pos], tile);
                assert(done.union(set![pos]) =~= Set::new(
                    |p: TilePos| p.x == x && from <= p.y < y + 1,
                ));
            }
            y = y + 1;
        }
        proof {
            assert(Set::new(|p: TilePos| p.x == x && from <= p.y < y) =~= Set::new(
                |p: TilePos| p.x == x && from <= p.y <= to,
            ));
        }
    }

    /// Sets `tile` on every cell of the rectangle with the corners `from`
    /// and `to`, both included.
    pub fn fill(&mut self, tile: Tile, from: TilePos, to: TilePos)
        requires
            old(self).wf(),
        ensures
            final(self).wf(),
            final(self).rng == old(self).rng,
            final(self).map.is_set_of(&old(self).map, TileRect::spec_new(from, to).tile_set(), tile),
    {
        let rect = TileRect::new(from, to);
        let mut y: i64 = rect.min.y as i64;
        proof {
            assert(Set::new(
                |p: TilePos| rect.min.y <= p.y < y && rect.min.x <= p.x <= rect.max.x,
            ) =~= Set::<TilePos>::empty());
            assert forall|c: ChunkPos| !TileGrid::region_meets_chunk(Set::<TilePos>::empty(), c) by {}
        }
        while y <= rect.max.y as i64
            invariant
                self.wf(),
                self.rng == old(self).rng,
                rect.sorted(),
                rect.min.y <= y <= rect.max.y + 1,
                self.map.is_set_of(
                    &old(self).map,
                    Set::new(|p: TilePos| rect.min.y <= p.y < y && rect.min.x <= p.x <= rect.max.x),
                    tile,
                ),
            decreases rect.max.y + 1 - y,
        {
            let ghost before = self.map;
            self.fill_row(tile, y as i32, rect.min.x, rect.max.x);
            proof {
                let done = Set::new(
                    |p: TilePos| rect.min.y <= p.y < y && rect.min.x <= p.x <= rect.max.x,
                );
                let row = Set::new(|p: TilePos| p.y == y as i32 && rect.min.x <= p.x <= rect.max.x);
                lemma_set_regions_join(&old(self).map, &before, &self.map, done, row, tile);
                assert(done.union(row) =~= Set::new(
                    |p: TilePos| rect.min.y <= p.y < y + 1 && rect.min.x <= p.x <= rect.max.x,
                ));
            }
            y = y + 1;
        }
        proof {
            assert(Set::new(
                |p: TilePos| rect.min.y <= p.y < y && rect.min.x <= p.x <= rect.max.x,
            ) =~= rect.tile_set());
        }
    }

    /// Sets `tile` on every cell of the line from `from` to `to`, both
    /// included. The two must lie in one row or in one column.
    pub fn fill_line(&mut self, tile: Tile, from: TilePos, to: TilePos)
        requires
            old(self).wf(),
            from.x == to.x || from.y == to.y,
        ensures
            final(self).wf(),
            final(self).rng == old(self).rng,
            final(self).map.is_set_of(&old(self).map, Self::line_set(from, to), tile),
    {
        let rect = TileRect::new(from, to);
        if rect.min.y == rect.max.y {
            self.fill_row(tile, rect.min.y, rect.min.x, rect.max.x);
            proof {
                assert(Set::new(
                    |p: TilePos| p.y == rect.min.y && rect.min.x <= p.x <= rect.max.x,
                ) =~= rect.tile_set());
            }
        } else {
            self.fill_column(tile, rect.min.x, rect.min.y, rect.max.y);
            proof {
                assert(Set::new(
                    |p: TilePos| p.x == rect.min.x && rect.min.y <= p.y <= rect.max.y,
                ) =~= rect.tile_set());
            }
        }
    }

    /// Sets `tile` on every cell on the rim of the rectangle with the
    /// corners `from` and `to`, and on no cell inside it.
    pub fn fill_border(&mut self, tile: Tile, from: TilePos, to: TilePos)
        requires
            old(self).wf(),
        ensures
            final(self).wf(),
            final(self).rng == old(self).rng,
            final(self).map.is_set_of(
                &old(self).map,
                TileRect::spec_new(from, to).border_set(),
                tile,
            ),
    {
        let rect = TileRect::new(from, to);
        let top_left = TilePos::of(rect.min.x, rect.min.y);
        let top_right = TilePos::of(rect.max.x, rect.min.y);
        let bottom_left = TilePos::of(rect.min.x, rect.max.y);
        let bottom_right = TilePos::of(rect.max.x, rect.max.y);
        let ghost top = Self::line_set(top_left, top_right);
        let ghost bottom = Self::line_set(bottom_left, bottom_right);
        let ghost left = Self::line_set(top_left, bottom_left);
        let ghost right = Self::line_set(top_right, bottom_right);
        self.fill_line(tile, top_left, top_right);
        let ghost after_top = self.map;
        self.fill_line(tile, bottom_left, bottom_right);
        let ghost after_bottom = self.map;
        self.fill_line(tile, top_left, bottom_left);
        let ghost after_left = self.map;
        self.fill_line(tile, top_right, bottom_right);
        proof {
            lemma_set_regions_join(&old(self).map, &after_top, &after_bottom, top, bottom, tile);
            lemma_set_regions_join(
                &old(self).map,
                &after_bottom,
                &after_left,
                top.union(bottom),
                left,
                tile,
            );
            lemma_set_regions_join(
                &old(self).map,
                &after_left,
                &self.map,
                top.union(bottom).union(left),
                right,
                tile,
            );
            assert(top.union(bottom).union(left).union(right) =~= rect.border_set());
        }
    }
}

impl MutMap {
    /// The cells that a copy of the cells of `rect` covers when the copy of
    /// `rect.min` is put at `destination`.
    pub open spec fn copy_target(rect: TileRect, destination: TilePos) -> Set<TilePos> {
        Set::new(
            |p: TilePos|
                0 <= p.x - destination.x <= rect.max.x - rect.min.x && 0 <= p.y - destination.y
                    <= rect.max.y - rect.min.y,
        )
    }

    /// Copies the cells `(x, y)` of `other` with `from <= x <= to` to the
    /// cells from `target` on, in the row of `target`.
    fn copy_row(&mut self, other: &Self, y: i32, from: i32, to: i32, target: TilePos)
        requires
            old(self).wf(),
            from <= to ==> target.x + (to - from) <= i32::MAX,
        ensures
            final(self).wf(),
            final(self).rng == old(self).rng,
            final(self).map.is_copy_of(
                &old(self).map,
                &other.map,
                Set::new(|p: TilePos| p.y == target.y && 0 <= p.x - target.x <= to - from),
                from - target.x,
                y - target.y,
            ),
    {
        let ghost dx = from - target.x;
        let ghost dy = y - target.y;
        let mut x: i64 = from as i64;
        proof {
            assert(Set::new(|p: TilePos| p.y == target.y && 0 <= p.x - target.x < x - from)
                =~= Set::<TilePos>::empty());
            assert forall|c: ChunkPos| !TileGrid::region_meets_chunk(Set::<TilePos>::empty(), c) by {}
        }
        while x <= to as i64
            invariant
                self.wf(),
                self.rng == old(self).rng,
                from <= to ==> target.x + (to - from) <= i32::MAX,
                dx == from - target.x,
                dy == y - target.y,
                from <= x,
                x <= to + 1 || x == from,
                self.map.is_copy_of(
                    &old(self).map,
                    &other.map,
                    Set::new(|p: TilePos| p.y == target.y && 0 <= p.x - target.x < x - from),
                    dx,
                    dy,
                ),
            decreases to + 1 - x,
        {
            let ghost before = self.map;
            let source = TilePos::of(x as i32, y);
            let pos = TilePos::of((target.x as i64 + (x - from as i64)) as i32, target.y);
            let cell = other.map.index(source);
            *self.map.index_mut(pos) = cell;
            proof {
                assert(pos.spec_offset(dx, dy) == source);
                assert forall|c: ChunkPos| #[trigger]
                    self.map.has_chunk(c) <==> before.has_chunk(c) || TileGrid::region_meets_chunk(
                        set![pos],
                        c,
                    ) by {
                    if c == pos.spec_chunk() {
                        assert(set![pos].contains(pos));
                    }
                }
                assert(self.map.is_copy_of(&before, &other.map, set![pos], dx, dy));
                let done = Set::new(
                    |p: TilePos| p.y == target.y && 0 <= p.x - target.x < x - from,
                );
                lemma_copy_regions_join(
                    &old(self).map,
                    &before,
                    &self.map,
                    &other.map,
                    done,
                    set![pos],
                    dx,
                    dy,
                );
                assert(done.union(set![pos]) =~= Set::new(
                    |p: TilePos| p.y == target.y && 0 <= p.x - target.x < x + 1 - from,
                ));
            }
            x = x + 1;
        }
        proof {
            assert(Set::new(|p: TilePos| p.y == target.y && 0 <= p.x - target.x < x - from)
                =~= Set::new(|p: TilePos| p.y == target.y && 0 <= p.x - target.x <= to - from));
        }
    }

    /// Copies the used rectangle of `other` into this grid, cell for cell,
    /// empty cells and plucked marks included, so that the copy of its
    /// smallest corner lies at `destination`. The copy must fit the plane.
    pub fn copy_from(&mut self, other: &Self, destination: TilePos)
        requires
            old(self).wf(),
            other.wf(),
            other.map.spec_used_rect().sorted() ==> destination.x + (
            other.map.spec_used_rect().max.x - other.map.spec_used_rect().min.x) <= i32::MAX
                && destination.y + (other.map.spec_used_rect().max.y
                - other.map.spec_used_rect().min.y) <= i32::MAX,
        ensures
            final(self).wf(),
            final(self).rng == old(self).rng,
            final(self).map.is_copy_of(
                &old(self).map,
                &other.map,
                Self::copy_target(other.map.spec_used_rect(), destination),
                other.map.spec_used_rect().min.x - destination.x,
                other.map.spec_used_rect().min.y - destination.y,
            ),
    {
        let rect = other.map.used_tiles();
        let ghost dx = rect.min.x - destination.x;
        let ghost dy = rect.min.y - destination.y;
        let ghost width = rect.max.x - rect.min.x;
        if !(rect.min.x <= rect.max.x && rect.min.y <= rect.max.y) {
            proof {
                assert(Self::copy_target(rect, destination) =~= Set::<TilePos>::empty()) by {
                    assert(rect == crate::grid::spec_no_tiles());
                }
                assert forall|c: ChunkPos| !TileGrid::region_meets_chunk(
                    Set::<TilePos>::empty(),
                    c,
                ) by {}
            }
            return ;
        }
        let mut y: i64 = rect.min.y as i64;
        proof {
            assert(Set::new(
                |p: TilePos|
                    0 <= p.y - destination.y < y - rect.min.y && 0 <= p.x - destination.x <= width,
            ) =~= Set::<TilePos>::empty());
            assert forall|c: ChunkPos| !TileGrid::region_meets_chunk(Set::<TilePos>::empty(), c) by {}
        }
        while y <= rect.max.y as i64
            invariant
                self.wf(),
                self.rng == old(self).rng,
                rect.sorted(),
                destination.x + (rect.max.x - rect.min.x) <= i32::MAX,
                destination.y + (rect.max.y - rect.min.y) <= i32::MAX,
                dx == rect.min.x - destination.x,
                dy == rect.min.y - destination.y,
                width == rect.max.x - rect.min.x,
                rect.min.y <= y <= rect.max.y + 1,
                self.map.is_copy_of(
                    &old(self).map,
                    &other.map,
                    Set::new(
                        |p: TilePos|
                            0 <= p.y - destination.y < y - rect.min.y && 0 <= p.x - destination.x
                                <= width,
                    ),
                    dx,
                    dy,
                ),
            decreases rect.max.y + 1 - y,
        {
            let ghost before = self.map;
            let target = TilePos::of(
                destination.x,
                (destination.y as i64 + (y - rect.min.y as i64)) as i32,
            );
            self.copy_row(other, y as i32, rect.min.x, rect.max.x, target);
            proof {
                let done = Set::new(
                    |p: TilePos|
                        0 <= p.y - destination.y < y - rect.min.y && 0 <= p.x - destination.x
                            <= width,
                );
                let row = Set::new(
                    |p: TilePos| p.y == target.y && 0 <= p.x - target.x <= rect.max.x - rect.min.x,
                );
                lemma_copy_regions_join(
                    &old(self).map,
                    &before,
                    &self.map,
                    &other.map,
                    done,
                    row,
                    dx,
                    dy,
                );
                assert(done.union(row) =~= Set::new(
                    |p: TilePos|
                        0 <= p.y - destination.y < y + 1 - rect.min.y && 0 <= p.x - destination.x
                            <= width,
                ));
            }
            y = y + 1;
        }
        proof {
            assert(Set::new(
                |p: TilePos|
                    0 <= p.y - destination.y < y - rect.min.y && 0 <= p.x - destination.x <= width,
            ) =~= Self::copy_target(rect, destination));
        }
    }
}

/// Whether `a` comes before `b` when tiles are read row by row, each row
/// from small `x` to large.
pub open spec fn reads_before(a: TilePos, b: TilePos) -> bool {
    a.y < b.y || (a.y == b.y && a.x < b.x)
}

/// Whether the tile at `pos` is among the plucked tiles `taken`.
pub open spec fn was_taken(taken: Seq<(TilePos, Tile)>, pos: TilePos) -> bool {
    exists|i: int| 0 <= i < taken.len() && (#[trigger] taken[i]).0 == pos
}

impl MutMap {
    /// Hands over the tiles that `predicate` accepts: every cell of the used
    /// rectangle that is not plucked yet is shown to `predicate`, row by
    /// row; each accepted cell is marked as plucked and its position and
    /// foreground are returned, in that order. Plucked cells are never shown
    /// again, so no tile is handed over twice.
    pub fn pluck_tiles(&mut self, predicate: impl Fn(TilePos, &TilePair) -> bool) -> (taken: Vec<
        (TilePos, Tile),
    >)
        requires
            old(self).wf(),
            forall|pos: TilePos, cell: TilePair| call_requires(predicate, (pos, &cell)),
        ensures
            final(self).wf(),
            final(self).rng == old(self).rng,
            forall|p: TilePos| #[trigger]
                final(self).tile_at(p) == if was_taken(taken@, p) {
                    old(self).tile_at(p).spec_plucked()
                } else {
                    old(self).tile_at(p)
                },
            forall|i: int|
                0 <= i < taken.len() ==> {
                    let p = (#[trigger] taken[i]).0;
                    &&& old(self).map.spec_used_rect().contains(p)
                    &&& !old(self).tile_at(p).plucked
                    &&& taken[i].1 == old(self).tile_at(p).foreground
                    &&& call_ensures(predicate, (p, &old(self).tile_at(p)), true)
                },
            forall|i: int, j: int|
                0 <= i < j < taken.len() ==> reads_before(
                    (#[trigger] taken[i]).0,
                    (#[trigger] taken[j]).0,
                ),
            forall|p: TilePos|
                old(self).map.spec_used_rect().contains(p) && !old(self).tile_at(p).plucked
                    && !was_taken(taken@, p) ==> call_ensures(
                    predicate,
                    (p, &#[trigger] old(self).tile_at(p)),
                    false,
                ),
            forall|c: ChunkPos| #[trigger]
                final(self).map.has_chunk(c) <==> old(self).map.has_chunk(c) || exists|i: int|
                    0 <= i < taken.len() && (#[trigger] taken[i]).0.spec_chunk() == c,
    {
        let mut taken: Vec<(TilePos, Tile)> = Vec::new();
        let rect = self.map.used_tiles();
        if !(rect.min.x <= rect.max.x && rect.min.y <= rect.max.y) {
            return taken;
        }
        let mut y: i64 = rect.min.y as i64;
        while y <= rect.max.y as i64
            invariant
                self.wf(),
                self.rng == old(self).rng,
                rect == old(self).map.spec_used_rect(),
                rect.sorted(),
                rect.min.y <= y <= rect.max.y + 1,
                forall|pos: TilePos, cell: TilePair| call_requires(predicate, (pos, &cell)),
                forall|p: TilePos| #[trigger]
                    self.tile_at(p) == if was_taken(taken@, p) {
                        old(self).tile_at(p).spec_plucked()
                    } else {
                        old(self).tile_at(p)
                    },
                forall|i: int|
                    0 <= i < taken.len() ==> {
                        let p = (#[trigger] taken[i]).0;
                        &&& rect.contains(p)
                        &&& p.y < y
                        &&& !old(self).tile_at(p).plucked
                        &&& taken[i].1 == old(self).tile_at(p).foreground
                        &&& call_ensures(predicate, (p, &old(self).tile_at(p)), true)
                    },
                forall|i: int, j: int|
                    0 <= i < j < taken.len() ==> reads_before(
                        (#[trigger] taken[i]).0,
                        (#[trigger] taken[j]).0,
                    ),
                forall|p: TilePos|
                    rect.contains(p) && p.y < y && !old(self).tile_at(p).plucked && !was_taken(
                        taken@,
                        p,
                    ) ==> call_ensures(predicate, (p, &#[trigger] old(self).tile_at(p)), false),
                forall|c: ChunkPos| #[trigger]
                    self.map.has_chunk(c) <==> old(self).map.has_chunk(c) || exists|i: int|
                        0 <= i < taken.len() && (#[trigger] taken[i]).0.spec_chunk() == c,
            decreases rect.max.y + 1 - y,
        {
            let mut x: i64 = rect.min.x as i64;
            while x <= rect.max.x as i64
                invariant
                    self.wf(),
                    self.rng == old(self).rng,
                    rect.sorted(),
                    rect.min.y <= y <= rect.max.y,
                    rect.min.x <= x <= rect.max.x + 1,
                    forall|pos: TilePos, cell: TilePair| call_requires(predicate, (pos, &cell)),
                    forall|p: TilePos| #[trigger]
                        self.tile_at(p) == if was_taken(taken@, p) {
                            old(self).tile_at(p).spec_plucked()
                        } else {
                            old(self).tile_at(p)
                        },
                    forall|i: int|
                        0 <= i < taken.len() ==> {
                            let p = (#[trigger] taken[i]).0;
                            &&& rect.contains(p)
                            &&& (p.y < y || (p.y == y && p.x < x))
                            &&& !old(self).tile_at(p).plucked
                            &&& taken[i].1 == old(self).tile_at(p).foreground
                            &&& call_ensures(predicate, (p, &old(self).tile_at(p)), true)
                        },
                    forall|i: int, j: int|
                        0 <= i < j < taken.len() ==> reads_before(
                            (#[trigger] taken[i]).0,
                            (#[trigger] taken[j]).0,
                        ),
                    forall|p: TilePos|
                        rect.contains(p) && (p.y < y || (p.y == y && p.x < x)) && !old(
                            self,
                        ).tile_at(p).plucked && !was_taken(taken@, p) ==> call_ensures(
                            predicate,
                            (p, &#[trigger] old(self).tile_at(p)),
                            false,
                        ),
                    forall|c: ChunkPos| #[trigger]
                        self.map.has_chunk(c) <==> old(self).map.has_chunk(c) || exists|i: int|
                            0 <= i < taken.len() && (#[trigger] taken[i]).0.spec_chunk() == c,
                decreases rect.max.x + 1 - x,
            {
                let pos = TilePos::of(x as i32, y as i32);
                let cell = self.map.index(pos);
                assert(!was_taken(taken@, pos));
                assert(cell == self.tile_at(pos));
                if !cell.plucked && predicate(pos, &cell) {
                    let ghost before = taken@;
                    let ghost map_before = self.map;
                    self.map.index_mut(pos).plucked = true;
                    taken.push((pos, cell.foreground));
                    proof {
                        let last = before.len() as int;
                        assert(taken@[last].0 == pos);
                        assert forall|p: TilePos| was_taken(taken@, p) <==> was_taken(before, p)
                            || p == pos by {
                            if was_taken(before, p) {
                                let i = choose|i: int|
                                    0 <= i < before.len() && (#[trigger] before[i]).0 == p;
                                assert(taken@[i].0 == p);
                            }
                            if was_taken(taken@, p) {
                                let i = choose|i: int|
                                    0 <= i < taken@.len() && (#[trigger] taken@[i]).0 == p;
                                if i < last {
                                    assert(before[i].0 == p);
                                }
                            }
                        }
                        assert forall|c: ChunkPos| #[trigger]
                            self.map.has_chunk(c) <==> old(self).map.has_chunk(c) || exists|i: int|
                                0 <= i < taken.len() && (#[trigger] taken[i]).0.spec_chunk()
                                    == c by {
                            if c == pos.spec_chunk() {
                                assert(taken@[last].0.spec_chunk() == c);
                            }
                            if map_before.has_chunk(c) && !old(self).map.has_chunk(c) {
                                let i = choose|i: int|
                                    0 <= i < before.len() && (#[trigger] before[i]).0.spec_chunk()
                                        == c;
                                assert(taken@[i].0.spec_chunk() == c);
                            }
                            if exists|i: int|
                                0 <= i < taken.len() && (#[trigger] taken[i]).0.spec_chunk()
                                    == c {
                                let i = choose|i: int|
                                    0 <= i < taken.len() && (#[trigger] taken[i]).0.spec_chunk()
                                        == c;
                                if i < last {
                                    assert(before[i].0.spec_chunk() == c);
                                }
                            }
                        }
                    }
                }
                x = x + 1;
            }
            y = y + 1;
        }
        taken
    }
}

} // verus!
