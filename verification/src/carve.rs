//! The steps that join rooms into a dungeon: hallways along the partition,
//! paths from the doors to the hallways, walls around every floor, and
//! spawn points.

use crate::grid::{lemma_set_regions_join, TileGrid};
use crate::mutmap::MutMap;
use crate::pos::{ChunkPos, Direction, TilePos};
use crate::rect::TileRect;
use crate::room::{floor_tile, wall_tile};
use crate::tile::{FloorType, Landmark, Tile, TilePair, TileType, Tileset, WallShape};
use vstd::prelude::*;

verus! {

/// The tile `k` steps from `pos` in direction `dir`.
pub open spec fn path_tile(pos: TilePos, dir: Direction, k: int) -> TilePos {
    pos.spec_offset(k * dir.dx(), k * dir.dy())
}

/// The tiles one to `n - 1` steps from `pos` in direction `dir`.
pub open spec fn path_set(pos: TilePos, dir: Direction, n: int) -> Set<TilePos> {
    Set::new(|p: TilePos| exists|k: int| 1 <= k < n && p == #[trigger] path_tile(pos, dir, k))
}

/// The number of steps from `pos` in direction `dir`, counted from `from`,
/// to the first tile that holds something, or `limit` if the tiles at less
/// than `limit` steps are all empty.
pub open spec fn steps_to_obstacle(
    grid: &TileGrid,
    pos: TilePos,
    dir: Direction,
    from: int,
    limit: int,
) -> int
    decreases limit - from,
{
    if from >= limit {
        limit
    } else if !grid.tile_at(path_tile(pos, dir, from)).spec_is_empty() {
        from
    } else {
        steps_to_obstacle(grid, pos, dir, from + 1, limit)
    }
}

/// The direction in which a path leaves the door at `pos`: away from the
/// room's floor. A north-south door is left to the west if the tile to its
/// east is floor, and to the east if not; an east-west door to the south if
/// the tile to its north is floor, and to the north if not.
pub open spec fn spec_paving_direction(grid: &TileGrid, pos: TilePos) -> Direction {
    if grid.tile_at(pos).foreground.ty is DoorNS {
        if grid.tile_at(pos.spec_neighbor(Direction::East)).spec_is_floor() {
            Direction::West
        } else {
            Direction::East
        }
    } else {
        if grid.tile_at(pos.spec_neighbor(Direction::North)).spec_is_floor() {
            Direction::South
        } else {
            Direction::North
        }
    }
}

impl MutMap {
    /// The direction in which a path leaves the door at `pos`.
    pub fn paving_direction(&self, pos: TilePos) -> (dir: Direction)
        requires
            self.tile_at(pos).spec_is_door(),
            pos.interior(),
        ensures
            dir == spec_paving_direction(&self.map, pos),
    {
        match self.map.index(pos).foreground.ty {
            TileType::DoorNS { .. } => {
                if self.map.index(pos.neighbor(Direction::East)).is_floor() {
                    Direction::West
                } else {
                    Direction::East
                }
            },
            _ => {
                if self.map.index(pos.neighbor(Direction::North)).is_floor() {
                    Direction::South
                } else {
                    Direction::North
                }
            },
        }
    }

    /// Paves a straight path of floor from the door at `pos`, away from its
    /// room, over empty tiles, until a tile that holds something is met or
    /// the tile `limit` steps away is reached, which is not paved. Says
    /// whether something was met.
    pub fn pave_from_door(&mut self, pos: TilePos, limit: i32) -> (connected: bool)
        requires
            old(self).wf(),
            old(self).tile_at(pos).spec_is_door(),
            1 <= limit,
            i32::MIN < pos.x - limit && pos.x + limit < i32::MAX,
            i32::MIN < pos.y - limit && pos.y + limit < i32::MAX,
        ensures
            final(self).wf(),
            final(self).rng == old(self).rng,
            ({
                let dir = spec_paving_direction(&old(self).map, pos);
                let steps = steps_to_obstacle(&old(self).map, pos, dir, 1, limit as int);
                &&& 1 <= steps <= limit
                &&& connected == (steps < limit)
                &&& final(self).map.is_set_of(
                    &old(self).map,
                    path_set(pos, dir, steps),
                    floor_tile(Tileset::Rock),
                )
                &&& forall|p: TilePos| #[trigger]
                    path_set(pos, dir, steps).contains(p) ==> old(self).tile_at(p).spec_is_empty()
            }),
            gently_changed(&old(self).map, &final(self).map),
            built_on(&old(self).map, &final(self).map),
    {
        let dir = self.paving_direction(pos);
        let delta = dir.delta();
        let floor = Tile { ty: TileType::Floor(FloorType::Tileset), tileset: Tileset::Rock };
        let mut tiles: i32 = 1;
        proof {
            assert(path_set(pos, dir, 1) =~= Set::<TilePos>::empty());
            assert forall|c: ChunkPos| !TileGrid::region_meets_chunk(Set::<TilePos>::empty(), c) by {}
        }
        while tiles < limit
            invariant
                self.wf(),
                self.rng == old(self).rng,
                dir == spec_paving_direction(&old(self).map, pos),
                delta.x == dir.dx() && delta.y == dir.dy(),
                floor == floor_tile(Tileset::Rock),
                1 <= tiles <= limit,
                i32::MIN < pos.x - limit && pos.x + limit < i32::MAX,
                i32::MIN < pos.y - limit && pos.y + limit < i32::MAX,
                steps_to_obstacle(&old(self).map, pos, dir, 1, limit as int) == steps_to_obstacle(
                    &old(self).map,
                    pos,
                    dir,
                    tiles as int,
                    limit as int,
                ),
                self.map.is_set_of(&old(self).map, path_set(pos, dir, tiles as int), floor),
                forall|p: TilePos| #[trigger]
                    path_set(pos, dir, tiles as int).contains(p) ==> old(self).tile_at(
                        p,
                    ).spec_is_empty(),
            decreases limit - tiles,
        {
            assert(-1 <= delta.x <= 1 && -1 <= delta.y <= 1);
            assert(-limit < delta.x * tiles < limit && -limit < delta.y * tiles < limit)
                by (nonlinear_arith)
                requires
                    -1 <= delta.x <= 1,
                    -1 <= delta.y <= 1,
                    1 <= tiles < limit,
            ;
            let next = TilePos::of(pos.x + delta.x * tiles, pos.y + delta.y * tiles);
            assert(next == path_tile(pos, dir, tiles as int));
            proof {
                assert(!path_set(pos, dir, tiles as int).contains(next)) by {
                    if path_set(pos, dir, tiles as int).contains(next) {
                        let k = choose|k: int|
                            1 <= k < tiles && next == #[trigger] path_tile(pos, dir, k);
                        lemma_path_tiles_differ(pos, dir, k, tiles as int, limit as int);
                    }
                }
            }
            if !self.map.index(next).is_empty() {
                proof {
                    lemma_paved(&old(self).map, &self.map, pos, dir, tiles as int, limit as int);
                }
                return true;
            }
            let ghost before = self.map;
            self.set_tile(floor, next);
            proof {
                let done = path_set(pos, dir, tiles as int);
                lemma_set_regions_join(&old(self).map, &before, &self.map, done, set![next], floor);
                assert(done.union(set![next]) =~= path_set(pos, dir, tiles + 1)) by {
                    assert forall|p: TilePos| done.union(set![next]).contains(p) implies path_set(
                        pos,
                        dir,
                        tiles + 1,
                    ).contains(p) by {
                        if p == next {
                            assert(p == path_tile(pos, dir, tiles as int));
                        } else {
                            let k = choose|k: int|
                                1 <= k < tiles && p == #[trigger] path_tile(pos, dir, k);
                            assert(p == path_tile(pos, dir, k));
                        }
                    }
                    assert forall|p: TilePos|
                        path_set(pos, dir, tiles + 1).contains(p) implies done.union(
                        set![next],
                    ).contains(p) by {
                        let k = choose|k: int|
                            1 <= k < tiles + 1 && p == #[trigger] path_tile(pos, dir, k);
                        if k < tiles {
                            assert(p == path_tile(pos, dir, k));
                        }
                    }
                }
            }
            tiles = tiles + 1;
        }
        proof {
            lemma_paved(&old(self).map, &self.map, pos, dir, limit as int, limit as int);
        }
        false
    }
}

/// A grid in which floor was set on the empty tiles of a path is gently
/// changed, and has the path paved.
proof fn lemma_paved(
    before: &TileGrid,
    after: &TileGrid,
    pos: TilePos,
    dir: Direction,
    n: int,
    limit: int,
)
    requires
        1 <= n <= limit,
        dir.dx() == 0 || dir.dy() == 0,
        after.is_set_of(before, path_set(pos, dir, n), floor_tile(Tileset::Rock)),
        forall|p: TilePos| #[trigger]
            path_set(pos, dir, n).contains(p) ==> before.tile_at(p).spec_is_empty(),
        n < limit ==> !after.tile_at(path_tile(pos, dir, n)).spec_is_empty(),
    ensures
        gently_changed(before, after),
        built_on(before, after),
{
    assert forall|p: TilePos|
        #[trigger] after.tile_at(p) == before.tile_at(p) || (before.tile_at(p).spec_is_empty() && (
        after.tile_at(p) == before.tile_at(p).after_set(floor_tile(Tileset::Rock))
            || after.tile_at(p) == before.tile_at(p).after_set(wall_tile(Tileset::Rock)))) || (
        before.tile_at(p).spec_is_floor() && after.tile_at(p) == spawned(
            before.tile_at(p),
        )) by {
        if !path_set(pos, dir, n).contains(p) {
            assert(after.tile_at(p) == before.tile_at(p));
        }
    }
    assert forall|p: TilePos|
        #[trigger] after.tile_at(p) == before.tile_at(p) || before.tile_at(p).spec_is_empty() || (
        before.tile_at(p).spec_is_floor() && after.tile_at(p) == spawned(
            before.tile_at(p),
        )) by {
        if !path_set(pos, dir, n).contains(p) {
            assert(after.tile_at(p) == before.tile_at(p));
        }
    }
}

/// Tiles at different numbers of steps along a path are different tiles.
pub proof fn lemma_path_tiles_differ(pos: TilePos, dir: Direction, a: int, b: int, limit: int)
    requires
        1 <= a < b <= limit,
        i32::MIN < pos.x - limit && pos.x + limit < i32::MAX,
        i32::MIN < pos.y - limit && pos.y + limit < i32::MAX,
    ensures
        path_tile(pos, dir, a) != path_tile(pos, dir, b),
{
    assert(a * dir.dx() != b * dir.dx() || a * dir.dy() != b * dir.dy()) by (nonlinear_arith)
        requires
            a != b,
            (dir.dx() == 1 || dir.dx() == -1 || dir.dx() == 0),
            (dir.dy() == 1 || dir.dy() == -1 || dir.dy() == 0),
            dir.dx() != 0 || dir.dy() != 0,
    ;
    assert(-limit <= a * dir.dx() <= limit && -limit <= a * dir.dy() <= limit) by (nonlinear_arith)
        requires
            1 <= a <= limit,
            -1 <= dir.dx() <= 1,
            -1 <= dir.dy() <= 1,
    ;
    assert(-limit <= b * dir.dx() <= limit && -limit <= b * dir.dy() <= limit) by (nonlinear_arith)
        requires
            1 <= b <= limit,
            -1 <= dir.dx() <= 1,
            -1 <= dir.dy() <= 1,
    ;
}

/// Whether `after` differs from `before` only where `before` had an empty
/// cell, or a floor that got a spawn point.
pub open spec fn gently_changed(before: &TileGrid, after: &TileGrid) -> bool {
    forall|p: TilePos|
        #[trigger] after.tile_at(p) == before.tile_at(p) || before.tile_at(p).spec_is_empty() || (
        before.tile_at(p).spec_is_floor() && after.tile_at(p) == spawned(before.tile_at(p)))
}

/// Whether `after` is `before` built on: it differs only where `before` had
/// an empty cell that got the floor of paths or the wall that encloses
/// floors, or a floor that got a spawn point.
pub open spec fn built_on(before: &TileGrid, after: &TileGrid) -> bool {
    forall|p: TilePos|
        #[trigger] after.tile_at(p) == before.tile_at(p) || (before.tile_at(p).spec_is_empty() && (
        after.tile_at(p) == before.tile_at(p).after_set(floor_tile(Tileset::Rock))
            || after.tile_at(p) == before.tile_at(p).after_set(wall_tile(Tileset::Rock)))) || (
        before.tile_at(p).spec_is_floor() && after.tile_at(p) == spawned(before.tile_at(p)))
}

/// Building on a grid changes it gently.
pub proof fn lemma_built_on_gentle(before: &TileGrid, after: &TileGrid)
    requires
        built_on(before, after),
    ensures
        gently_changed(before, after),
{
    assert forall|p: TilePos|
        #[trigger] after.tile_at(p) == before.tile_at(p) || before.tile_at(p).spec_is_empty() || (
        before.tile_at(p).spec_is_floor() && after.tile_at(p) == spawned(
            before.tile_at(p),
        )) by {
        assert(after.tile_at(p) == before.tile_at(p) || (before.tile_at(p).spec_is_empty() && (
        after.tile_at(p) == before.tile_at(p).after_set(floor_tile(Tileset::Rock))
            || after.tile_at(p) == before.tile_at(p).after_set(wall_tile(Tileset::Rock)))) || (
        before.tile_at(p).spec_is_floor() && after.tile_at(p) == spawned(before.tile_at(p))));
    }
}

/// Whether a floor lies on one of the eight tiles around `p`.
pub open spec fn floor_beside(grid: &TileGrid, p: TilePos) -> bool {
    exists|q: TilePos| #[trigger] q.moore_adjacent(p) && grid.tile_at(q).spec_is_floor()
}

/// Whether every floor is enclosed: none of the tiles around a floor is
/// empty.
pub open spec fn floors_enclosed(grid: &TileGrid) -> bool {
    forall|q: TilePos, p: TilePos|
        grid.tile_at(q).spec_is_floor() && #[trigger] q.moore_adjacent(p) ==> !grid.tile_at(
            p,
        ).spec_is_empty()
}

/// The rim tiles of the rectangles `rects`, each taken with its corners in
/// order.
pub open spec fn rims_of(rects: Seq<TileRect>, n: int) -> Set<TilePos> {
    Set::new(
        |p: TilePos|
            exists|i: int|
                0 <= i < n && TileRect::spec_new(
                    (#[trigger] rects[i]).min,
                    rects[i].max,
                ).on_border(p),
    )
}

/// The spawn point of the player, as it is put on a floor.
pub open spec fn spawn_landmark() -> TileType {
    TileType::Landmark { ty: Landmark::SpawnPlayer, flip: false }
}

/// The cell with a spawn point of the player put in its foreground.
pub open spec fn spawned(cell: TilePair) -> TilePair {
    TilePair {
        foreground: Tile { ty: spawn_landmark(), tileset: cell.foreground.tileset },
        background: cell.background,
        plucked: cell.plucked,
    }
}

impl MutMap {
    /// Paves the rim of every rectangle of `rects` with floor.
    pub fn carve_hallways(&mut self, rects: &Vec<TileRect>)
        requires
            old(self).wf(),
        ensures
            final(self).wf(),
            final(self).rng == old(self).rng,
            final(self).map.is_set_of(
                &old(self).map,
                rims_of(rects@, rects@.len() as int),
                floor_tile(Tileset::Rock),
            ),
    {
        let floor = Tile { ty: TileType::Floor(FloorType::Tileset), tileset: Tileset::Rock };
        let mut i: usize = 0;
        proof {
            assert(rims_of(rects@, 0) =~= Set::<TilePos>::empty());
            assert forall|c: ChunkPos| !TileGrid::region_meets_chunk(Set::<TilePos>::empty(), c) by {}
        }
        while i < rects.len()
            invariant
                self.wf(),
                self.rng == old(self).rng,
                floor == floor_tile(Tileset::Rock),
                i <= rects.len(),
                self.map.is_set_of(&old(self).map, rims_of(rects@, i as int), floor),
            decreases rects.len() - i,
        {
            let ghost before = self.map;
            let rect = rects[i];
            self.fill_border(floor, rect.min, rect.max);
            proof {
                let rim = TileRect::spec_new(rect.min, rect.max).border_set();
                lemma_set_regions_join(
                    &old(self).map,
                    &before,
                    &self.map,
                    rims_of(rects@, i as int),
                    rim,
                    floor,
                );
                assert(rims_of(rects@, i as int).union(rim) =~= rims_of(rects@, i + 1)) by {
                    assert forall|p: TilePos| rim.contains(p) implies rims_of(
                        rects@,
                        i + 1,
                    ).contains(p) by {
                        assert(TileRect::spec_new(rects@[i as int].min, rects@[i as int].max).on_border(p));
                    }
                }
            }
            i += 1;
        }
    }

    /// Makes the floor at `pos` a spawn point of the player, and says
    /// whether it did: only a floor takes a spawn point.
    pub fn place_spawn(&mut self, pos: TilePos) -> (placed: bool)
        requires
            old(self).wf(),
        ensures
            final(self).wf(),
            final(self).rng == old(self).rng,
            placed == old(self).tile_at(pos).spec_is_floor(),
            forall|p: TilePos| p != pos ==> final(self).tile_at(p) == old(self).tile_at(p),
            !placed ==> final(self).tile_at(pos) == old(self).tile_at(pos),
            placed ==> final(self).tile_at(pos) == spawned(old(self).tile_at(pos)),
    {
        if !self.map.index(pos).is_floor() {
            return false;
        }
        self.map.index_mut(pos).foreground.ty = TileType::Landmark {
            ty: Landmark::SpawnPlayer,
            flip: false,
        };
        true
    }
}

impl MutMap {
    /// Puts solid wall on every empty tile that has a floor on one of the
    /// eight tiles around it. Afterwards every floor is enclosed.
    pub fn enclose_floors(&mut self)
        requires
            old(self).wf(),
        ensures
            final(self).wf(),
            final(self).rng == old(self).rng,
            forall|p: TilePos| #[trigger]
                final(self).tile_at(p) == if old(self).tile_at(p).spec_is_empty() && floor_beside(
                    &old(self).map,
                    p,
                ) {
                    old(self).tile_at(p).after_set(wall_tile(Tileset::Rock))
                } else {
                    old(self).tile_at(p)
                },
            floors_enclosed(&final(self).map),
            built_on(&old(self).map, &final(self).map),
    {
        let wall = Tile { ty: TileType::Wall(WallShape::Solid), tileset: Tileset::Rock };
        let rect = self.map.used_tiles();
        let directions = Direction::moore();
        let ghost mut walled: Set<TilePos> = Set::empty();
        proof {
            assert forall|q: TilePos|
                (#[trigger] old(self).tile_at(q)).spec_is_floor() implies rect.contains(q) by {
                assert(old(self).map.used(q));
            }
        }
        if !(rect.min.x <= rect.max.x && rect.min.y <= rect.max.y) {
            return ;
        }
        let mut y: i64 = rect.min.y as i64;
        while y <= rect.max.y as i64
            invariant
                self.wf(),
                self.rng == old(self).rng,
                wall == wall_tile(Tileset::Rock),
                directions@ == Direction::spec_moore(),
                rect.sorted(),
                rect.min.y <= y <= rect.max.y + 1,
                forall|q: TilePos|
                    (#[trigger] old(self).tile_at(q)).spec_is_floor() ==> rect.contains(q),
                forall|p: TilePos| #[trigger]
                    self.tile_at(p) == if walled.contains(p) {
                        old(self).tile_at(p).after_set(wall)
                    } else {
                        old(self).tile_at(p)
                    },
                forall|p: TilePos| #[trigger]
                    walled.contains(p) ==> old(self).tile_at(p).spec_is_empty() && floor_beside(
                        &old(self).map,
                        p,
                    ),
                forall|q: TilePos, p: TilePos|
                    q.y < y && old(self).tile_at(q).spec_is_floor() && #[trigger] q.moore_adjacent(
                        p,
                    ) && old(self).tile_at(p).spec_is_empty() ==> walled.contains(p),
            decreases rect.max.y + 1 - y,
        {
            let mut x: i64 = rect.min.x as i64;
            while x <= rect.max.x as i64
                invariant
                    self.wf(),
                    self.rng == old(self).rng,
                    wall == wall_tile(Tileset::Rock),
                    directions@ == Direction::spec_moore(),
                    rect.sorted(),
                    rect.min.y <= y <= rect.max.y,
                    rect.min.x <= x <= rect.max.x + 1,
                    forall|q: TilePos|
                    (#[trigger] old(self).tile_at(q)).spec_is_floor() ==> rect.contains(q),
                    forall|p: TilePos| #[trigger]
                        self.tile_at(p) == if walled.contains(p) {
                            old(self).tile_at(p).after_set(wall)
                        } else {
                            old(self).tile_at(p)
                        },
                    forall|p: TilePos| #[trigger]
                        walled.contains(p) ==> old(self).tile_at(p).spec_is_empty()
                            && floor_beside(&old(self).map, p),
                    forall|q: TilePos, p: TilePos|
                        (q.y < y || (q.y == y && q.x < x)) && old(self).tile_at(q).spec_is_floor()
                            && #[trigger] q.moore_adjacent(p) && old(self).tile_at(
                            p,
                        ).spec_is_empty() ==> walled.contains(p),
                decreases rect.max.x + 1 - x,
            {
                let pos = TilePos::of(x as i32, y as i32);
                let cell = self.map.index(pos);
                assert(cell == self.tile_at(pos));
                if cell.is_floor() {
                    assert(old(self).tile_at(pos).spec_is_floor());
                    let mut d: usize = 0;
                    while d < 8
                        invariant
                            self.wf(),
                            self.rng == old(self).rng,
                            wall == wall_tile(Tileset::Rock),
                            directions@ == Direction::spec_moore(),
                            d <= 8,
                            old(self).tile_at(pos).spec_is_floor(),
                            forall|p: TilePos| #[trigger]
                                self.tile_at(p) == if walled.contains(p) {
                                    old(self).tile_at(p).after_set(wall)
                                } else {
                                    old(self).tile_at(p)
                                },
                            forall|p: TilePos| #[trigger]
                                walled.contains(p) ==> old(self).tile_at(p).spec_is_empty()
                                    && floor_beside(&old(self).map, p),
                            forall|q: TilePos, p: TilePos|
                                (q.y < y || (q.y == y && q.x < x)) && old(self).tile_at(
                                    q,
                                ).spec_is_floor() && #[trigger] q.moore_adjacent(p) && old(
                                    self,
                                ).tile_at(p).spec_is_empty() ==> walled.contains(p),
                            forall|k: int|
                                0 <= k < d ==> {
                                    let dir = #[trigger] directions@[k];
                                    pos.can_offset(dir.dx(), dir.dy()) && old(self).tile_at(
                                        pos.spec_neighbor(dir),
                                    ).spec_is_empty() ==> walled.contains(pos.spec_neighbor(dir))
                                },
                        decreases 8 - d,
                    {
                        let dir = directions[d];
                        if let Some(other) = pos.checked_neighbor(dir) {
                            let beside = self.map.index(other);
                            assert(beside == self.tile_at(other));
                            if beside.is_empty() {
                                let ghost before = self.map;
                                self.set_tile(wall, other);
                                proof {
                                    assert(pos.moore_adjacent(other));
                                    assert(floor_beside(&old(self).map, other));
                                    assert forall|p: TilePos| #[trigger]
                                        self.tile_at(p) == if walled.insert(other).contains(p) {
                                            old(self).tile_at(p).after_set(wall)
                                        } else {
                                            old(self).tile_at(p)
                                        } by {
                                        assert(self.map.tile_at(p) == if set![other].contains(p) {
                                            before.tile_at(p).after_set(wall)
                                        } else {
                                            before.tile_at(p)
                                        });
                                    }
                                    walled = walled.insert(other);
                                }
                            }
                        }
                        d += 1;
                    }
                    proof {
                        assert forall|p: TilePos|
                            #[trigger] pos.moore_adjacent(p) && old(self).tile_at(
                                p,
                            ).spec_is_empty() implies walled.contains(p) by {
                            let dir = crate::pos::lemma_moore_adjacent_direction(pos, p);
                            let k = choose|k: int| 0 <= k < 8 && Direction::spec_moore()[k] == dir;
                            assert(directions@[k] == dir);
                        }
                    }
                }
                x = x + 1;
            }
            y = y + 1;
        }
        proof {
            assert forall|p: TilePos| #[trigger]
                self.tile_at(p) == if old(self).tile_at(p).spec_is_empty() && floor_beside(
                    &old(self).map,
                    p,
                ) {
                    old(self).tile_at(p).after_set(wall_tile(Tileset::Rock))
                } else {
                    old(self).tile_at(p)
                } by {
                if old(self).tile_at(p).spec_is_empty() && floor_beside(&old(self).map, p) {
                    let q = choose|q: TilePos| #[trigger]
                        q.moore_adjacent(p) && old(self).map.tile_at(q).spec_is_floor();
                    assert(old(self).tile_at(q).spec_is_floor());
                    assert(rect.contains(q));
                    assert(q.moore_adjacent(p));
                }
            }
            assert forall|q: TilePos, p: TilePos|
                self.map.tile_at(q).spec_is_floor() && #[trigger] q.moore_adjacent(
                    p,
                ) implies !self.map.tile_at(p).spec_is_empty() by {
                assert(self.tile_at(q) == self.map.tile_at(q));
                assert(self.tile_at(p) == self.map.tile_at(p));
                assert(old(self).tile_at(q).spec_is_floor());
                assert(rect.contains(q));
            }
        }
    }
}

} // verus!
