//! The dungeon generator: hallways along a binary space partition, a room in
//! every leaf, paths from the doors, walls around every floor, and spawn
//! points for the player.

use crate::carve::{
    built_on, floors_enclosed, gently_changed, path_set, spawn_landmark, spawned,
    spec_paving_direction, steps_to_obstacle,
};
use crate::grid::{lemma_used_rect_unique, TileGrid};
use crate::mutmap::MutMap;
use crate::partition::{interiors_apart, partition, rect_within, spec_map_rect};
use crate::pos::{Direction, TileDelta, TilePos};
use crate::rect::TileRect;
use crate::rng::{choose_from, draw_range, draw_range_inclusive, seeded_rng, MapRng};
use crate::room::{
    floor_cell, generate_room, is_room, lemma_room_doors, room_cell, room_cells, room_fits,
    walled_east_west, walled_north_south, GenerateError, MAX_DOORS,
};
use crate::stages::{
    is_dungeon, laid_out, lemma_finish, lemma_laid_out, lemma_stage_built, lemma_walled_up,
    walled_up,
};
use crate::tile::{Landmark, TilePair, TileType, Tileset};
use vstd::pervasive::unreached;
use vstd::prelude::*;

verus! {

/// A room keeps at least this many tiles between its walls and the rim of
/// its leaf of the partition.
pub const MIN_ROOM_INSET: i32 = 3;

/// A room keeps less than this many tiles between its walls and the rim of
/// its leaf of the partition.
pub const MAX_ROOM_INSET: i32 = 7;

/// A path from a door is given up when the tile this many steps from the
/// door is reached.
pub const PAVING_LIMIT: i32 = 250;

/// Places that are drawn in the search for spawn points.
pub const SPAWN_ATTEMPTS: u32 = 1000;

/// The search for spawn points ends when this many are placed.
pub const MAX_SPAWNS: u32 = 5;

/// Whether a closed door stands at `pos`, of the kind that its walls ask
/// for: a north-south door between walls to its north and south, an
/// east-west door between walls to its east and west.
pub open spec fn door_stands(grid: &TileGrid, pos: TilePos) -> bool {
    let ty = grid.tile_at(pos).foreground.ty;
    &&& ty == (TileType::DoorNS { open: false }) || ty == (TileType::DoorEW { open: false })
    &&& ty is DoorNS ==> walled_north_south(grid, pos)
    &&& ty is DoorEW ==> walled_east_west(grid, pos)
}

/// Whether the room on `rect` has its doors at `doors`: one to four of
/// them, each standing on the rim of the room, off its corners, none listed
/// twice, no two sharing a side.
pub open spec fn room_doors_stand(grid: &TileGrid, rect: TileRect, doors: Seq<TilePos>) -> bool {
    &&& 1 <= doors.len() <= MAX_DOORS
    &&& forall|i: int|
        0 <= i < doors.len() ==> rect.on_border(#[trigger] doors[i]) && !rect.is_corner(doors[i])
            && door_stands(grid, doors[i])
    &&& forall|i: int, j: int|
        0 <= i < doors.len() && 0 <= j < doors.len() && i != j ==> (#[trigger] doors[i]) != (
        #[trigger] doors[j]) && !doors[i].von_neumann_adjacent(doors[j])
}

/// Whether `grid` holds, on `rect`, a room with its doors at `doors`, as it
/// was generated but for the floors that became spawn points: wall on the
/// rim but for the doors, and inside one shrine and floor.
pub open spec fn room_kept(grid: &TileGrid, rect: TileRect, doors: Seq<TilePos>) -> bool {
    exists|tileset: Tileset, shrine: TilePos, kind: Landmark, flip: bool|
        {
            &&& #[trigger] room_kept_as(grid, rect, doors, tileset, shrine, kind, flip)
            &&& rect.contains(shrine) && !rect.on_border(shrine)
            &&& kind == Landmark::ShrineIdol || kind == Landmark::ShrineSkulls
        }
}

/// Whether every cell of `rect` is the cell of the room with the given
/// skin, shrine and doors, or a floor of that room with a spawn point on it.
pub open spec fn room_kept_as(
    grid: &TileGrid,
    rect: TileRect,
    doors: Seq<TilePos>,
    tileset: Tileset,
    shrine: TilePos,
    kind: Landmark,
    flip: bool,
) -> bool {
    forall|p: TilePos|
        rect.contains(p) ==> {
            let cell = room_cell(rect, doors, tileset, shrine, kind, flip, p);
            #[trigger] grid.tile_at(p) == cell || (cell == floor_cell(tileset) && grid.tile_at(p)
                == spawned(cell))
        }
}

/// A gentle change leaves a room a room.
pub proof fn lemma_room_kept(
    before: &TileGrid,
    after: &TileGrid,
    rect: TileRect,
    doors: Seq<TilePos>,
)
    requires
        room_kept(before, rect, doors),
        gently_changed(before, after),
    ensures
        room_kept(after, rect, doors),
{
    let (tileset, shrine, kind, flip) = choose|
        tileset: Tileset,
        shrine: TilePos,
        kind: Landmark,
        flip: bool,
    |
        {
            &&& #[trigger] room_kept_as(before, rect, doors, tileset, shrine, kind, flip)
            &&& rect.contains(shrine) && !rect.on_border(shrine)
            &&& kind == Landmark::ShrineIdol || kind == Landmark::ShrineSkulls
        };
    assert forall|p: TilePos| rect.contains(p) implies ({
        let cell = room_cell(rect, doors, tileset, shrine, kind, flip, p);
        #[trigger] after.tile_at(p) == cell || (cell == floor_cell(tileset) && after.tile_at(p)
            == spawned(cell))
    }) by {
        let cell = room_cell(rect, doors, tileset, shrine, kind, flip, p);
        assert(before.tile_at(p) == cell || (cell == floor_cell(tileset) && before.tile_at(p)
            == spawned(cell)));
        assert(after.tile_at(p) == before.tile_at(p) || before.tile_at(p).spec_is_empty() || (
        before.tile_at(p).spec_is_floor() && after.tile_at(p) == spawned(before.tile_at(p))));
    }
    assert(room_kept_as(after, rect, doors, tileset, shrine, kind, flip));
}

/// Whether every wall and every door of `before` is found unchanged in
/// `after`.
pub open spec fn keeps_structures(before: &TileGrid, after: &TileGrid) -> bool {
    forall|p: TilePos|
        (#[trigger] before.tile_at(p)).spec_is_door() || before.tile_at(p).spec_is_wall()
            ==> after.tile_at(p) == before.tile_at(p)
}

/// Doors that stand keep standing while walls and doors are left alone.
pub proof fn lemma_doors_kept(
    before: &TileGrid,
    after: &TileGrid,
    rect: TileRect,
    doors: Seq<TilePos>,
)
    requires
        room_doors_stand(before, rect, doors),
        keeps_structures(before, after),
    ensures
        room_doors_stand(after, rect, doors),
{
    assert forall|i: int| 0 <= i < doors.len() implies rect.on_border(#[trigger] doors[i])
        && door_stands(after, doors[i]) by {
        let pos = doors[i];
        assert(door_stands(before, pos));
        assert(before.tile_at(pos).spec_is_door());
        let north = pos.spec_neighbor(Direction::North);
        let south = pos.spec_neighbor(Direction::South);
        let east = pos.spec_neighbor(Direction::East);
        let west = pos.spec_neighbor(Direction::West);
        if before.tile_at(pos).foreground.ty is DoorNS {
            assert(before.tile_at(north).spec_is_wall() && before.tile_at(south).spec_is_wall());
        } else {
            assert(before.tile_at(east).spec_is_wall() && before.tile_at(west).spec_is_wall());
        }
    }
}

/// Enclosed floors stay enclosed when a floor becomes something that is
/// neither floor nor empty, and nothing else changes.
pub proof fn lemma_enclosure_kept(before: &TileGrid, after: &TileGrid, pos: TilePos)
    requires
        floors_enclosed(before),
        forall|p: TilePos| p != pos ==> #[trigger] after.tile_at(p) == before.tile_at(p),
        !after.tile_at(pos).spec_is_floor(),
        !after.tile_at(pos).spec_is_empty(),
    ensures
        floors_enclosed(after),
{
    assert forall|q: TilePos, p: TilePos|
        after.tile_at(q).spec_is_floor() && #[trigger] q.moore_adjacent(p) implies !after.tile_at(
        p,
    ).spec_is_empty() by {
        assert(before.tile_at(q).spec_is_floor());
    }
}

/// The rectangle `leaf` with `inset` tiles taken off on every side.
pub open spec fn spec_inset(leaf: TileRect, inset: int) -> TileRect {
    TileRect {
        min: TilePos { x: (leaf.min.x + inset) as i32, y: (leaf.min.y + inset) as i32 },
        max: TilePos { x: (leaf.max.x - inset) as i32, y: (leaf.max.y - inset) as i32 },
    }
}

/// The used rectangle of a grid that holds a room is the room's rectangle.
proof fn lemma_room_used_rect(room: &TileGrid, rect: TileRect, doors: Seq<TilePos>)
    requires
        room_fits(rect),
        is_room(room, rect, doors),
    ensures
        room.spec_used_rect() == rect,
        forall|p: TilePos| rect.contains(p) ==> !(#[trigger] room.tile_at(p)).spec_is_empty(),
        forall|p: TilePos| !rect.contains(p) ==> #[trigger] room.tile_at(p) == TilePair::spec_blank(),
{
    let (tileset, shrine, kind, flip) = choose|
        tileset: Tileset,
        shrine: TilePos,
        kind: Landmark,
        flip: bool,
    |
        {
            &&& #[trigger] room_cells(room, rect, doors, tileset, shrine, kind, flip)
            &&& 1 <= doors.len() <= MAX_DOORS
            &&& rect.contains(shrine) && !rect.on_border(shrine)
            &&& kind == Landmark::ShrineIdol || kind == Landmark::ShrineSkulls
        };
    assert forall|p: TilePos| rect.contains(p) implies !(#[trigger] room.tile_at(
        p,
    )).spec_is_empty() by {
        assert(room.tile_at(p) == room_cell(rect, doors, tileset, shrine, kind, flip, p));
    }
    assert forall|p: TilePos| !rect.contains(p) implies #[trigger] room.tile_at(p)
        == TilePair::spec_blank() by {
        assert(room.tile_at(p) == room_cell(rect, doors, tileset, shrine, kind, flip, p));
    }
    assert(room.used(rect.min) && room.used(rect.max));
    assert(room.any_used());
    assert forall|p: TilePos| #[trigger] room.used(p) implies rect.contains(p) by {
        if !rect.contains(p) {
            assert(room.tile_at(p) == TilePair::spec_blank());
        }
    }
    assert(room.is_used_rect(rect));
    lemma_used_rect_unique(*room, rect, room.spec_used_rect());
}

/// A room copied into a grid has its doors standing there.
proof fn lemma_room_copied(
    room: &TileGrid,
    before: &TileGrid,
    after: &TileGrid,
    local_rect: TileRect,
    origin: TilePos,
    local: Seq<TilePos>,
    world: Seq<TilePos>,
)
    requires
        local_rect.min == (TilePos { x: 0, y: 0 }),
        room_fits(local_rect),
        local_rect.max.x <= 4 * crate::partition::MAP_RADIUS,
        local_rect.max.y <= 4 * crate::partition::MAP_RADIUS,
        -2 * crate::partition::MAP_RADIUS <= origin.x <= 2 * crate::partition::MAP_RADIUS,
        -2 * crate::partition::MAP_RADIUS <= origin.y <= 2 * crate::partition::MAP_RADIUS,
        is_room(room, local_rect, local),
        after.is_copy_of(
            before,
            room,
            MutMap::copy_target(local_rect, origin),
            -origin.x,
            -origin.y,
        ),
        world.len() == local.len(),
        forall|i: int|
            0 <= i < local.len() ==> #[trigger] world[i] == local[i].spec_offset(
                origin.x as int,
                origin.y as int,
            ),
    ensures
        ({
            let rect = TileRect {
                min: origin,
                max: origin.spec_offset(local_rect.max.x as int, local_rect.max.y as int),
            };
            &&& room_doors_stand(after, rect, world)
            &&& forall|p: TilePos| rect.contains(p) ==> !(#[trigger] after.tile_at(p)).spec_is_empty()
            &&& forall|p: TilePos| !rect.contains(p) ==> #[trigger] after.tile_at(p) == before.tile_at(p)
        }),
{
    let rect = TileRect {
        min: origin,
        max: origin.spec_offset(local_rect.max.x as int, local_rect.max.y as int),
    };
    let target = MutMap::copy_target(local_rect, origin);
    lemma_room_used_rect(room, local_rect, local);
    lemma_room_doors(room, local_rect, local);
    assert forall|p: TilePos| target.contains(p) <==> rect.contains(p) by {}
    assert forall|p: TilePos| rect.contains(p) implies #[trigger] after.tile_at(p) == room.tile_at(
        p.spec_offset(-origin.x, -origin.y),
    ) && local_rect.contains(p.spec_offset(-origin.x, -origin.y)) by {
        assert(target.contains(p));
    }
    assert forall|p: TilePos| !rect.contains(p) implies #[trigger] after.tile_at(p)
        == before.tile_at(p) by {
        assert(!target.contains(p));
    }
    assert forall|i: int| 0 <= i < world.len() implies rect.on_border(#[trigger] world[i])
        && door_stands(after, world[i]) by {
        let w = world[i];
        let l = local[i];
        assert(w == l.spec_offset(origin.x as int, origin.y as int));
        assert(local_rect.on_border(l));
        assert(w.spec_offset(-origin.x, -origin.y) == l);
        assert(after.tile_at(w) == room.tile_at(l));
        let ln = l.spec_neighbor(Direction::North);
        let ls = l.spec_neighbor(Direction::South);
        let le = l.spec_neighbor(Direction::East);
        let lw = l.spec_neighbor(Direction::West);
        let wn = w.spec_neighbor(Direction::North);
        let ws = w.spec_neighbor(Direction::South);
        let we = w.spec_neighbor(Direction::East);
        let ww = w.spec_neighbor(Direction::West);
        assert(wn.spec_offset(-origin.x, -origin.y) == ln);
        assert(ws.spec_offset(-origin.x, -origin.y) == ls);
        assert(we.spec_offset(-origin.x, -origin.y) == le);
        assert(ww.spec_offset(-origin.x, -origin.y) == lw);
        if room.tile_at(l).foreground.ty is DoorNS {
            assert(walled_north_south(room, l));
            assert(local_rect.contains(ln) && local_rect.contains(ls)) by {
                if !local_rect.contains(ln) {
                    assert(room.tile_at(ln) == TilePair::spec_blank());
                }
                if !local_rect.contains(ls) {
                    assert(room.tile_at(ls) == TilePair::spec_blank());
                }
            }
            assert(rect.contains(wn) && rect.contains(ws));
            assert(after.tile_at(wn) == room.tile_at(ln));
            assert(after.tile_at(ws) == room.tile_at(ls));
        } else {
            assert(walled_east_west(room, l));
            assert(local_rect.contains(le) && local_rect.contains(lw)) by {
                if !local_rect.contains(le) {
                    assert(room.tile_at(le) == TilePair::spec_blank());
                }
                if !local_rect.contains(lw) {
                    assert(room.tile_at(lw) == TilePair::spec_blank());
                }
            }
            assert(rect.contains(we) && rect.contains(ww));
            assert(after.tile_at(we) == room.tile_at(le));
            assert(after.tile_at(ww) == room.tile_at(lw));
        }
    }
    assert forall|i: int, j: int|
        0 <= i < world.len() && 0 <= j < world.len() && i != j implies (#[trigger] world[i]) != (
    #[trigger] world[j]) && !world[i].von_neumann_adjacent(world[j]) by {
        assert(local[i] != local[j] && !local[i].von_neumann_adjacent(local[j]));
        assert(local_rect.on_border(local[i]) && local_rect.on_border(local[j]));
        assert(world[i] == local[i].spec_offset(origin.x as int, origin.y as int));
        assert(world[j] == local[j].spec_offset(origin.x as int, origin.y as int));
    }
}

/// A room copied into a grid is a room there.
proof fn lemma_room_layout_copied(
    room: &TileGrid,
    before: &TileGrid,
    after: &TileGrid,
    local_rect: TileRect,
    origin: TilePos,
    local: Seq<TilePos>,
    world: Seq<TilePos>,
)
    requires
        local_rect.min == (TilePos { x: 0, y: 0 }),
        room_fits(local_rect),
        local_rect.max.x <= 4 * crate::partition::MAP_RADIUS,
        local_rect.max.y <= 4 * crate::partition::MAP_RADIUS,
        -2 * crate::partition::MAP_RADIUS <= origin.x <= 2 * crate::partition::MAP_RADIUS,
        -2 * crate::partition::MAP_RADIUS <= origin.y <= 2 * crate::partition::MAP_RADIUS,
        is_room(room, local_rect, local),
        after.is_copy_of(
            before,
            room,
            MutMap::copy_target(local_rect, origin),
            -origin.x,
            -origin.y,
        ),
        world.len() == local.len(),
        forall|i: int|
            0 <= i < local.len() ==> #[trigger] world[i] == local[i].spec_offset(
                origin.x as int,
                origin.y as int,
            ),
    ensures
        room_kept(
            after,
            TileRect {
                min: origin,
                max: origin.spec_offset(local_rect.max.x as int, local_rect.max.y as int),
            },
            world,
        ),
        forall|p: TilePos|
            (TileRect {
                min: origin,
                max: origin.spec_offset(local_rect.max.x as int, local_rect.max.y as int),
            }).contains(p) ==> (#[trigger] after.tile_at(p)).foreground.ty != spawn_landmark(),
{
    let rect = TileRect {
        min: origin,
        max: origin.spec_offset(local_rect.max.x as int, local_rect.max.y as int),
    };
    let target = MutMap::copy_target(local_rect, origin);
    let (tileset, local_shrine, kind, flip) = choose|
        tileset: Tileset,
        shrine: TilePos,
        kind: Landmark,
        flip: bool,
    |
        {
            &&& #[trigger] room_cells(room, local_rect, local, tileset, shrine, kind, flip)
            &&& 1 <= local.len() <= MAX_DOORS
            &&& local_rect.contains(shrine) && !local_rect.on_border(shrine)
            &&& kind == Landmark::ShrineIdol || kind == Landmark::ShrineSkulls
        };
    let shrine = local_shrine.spec_offset(origin.x as int, origin.y as int);
    assert forall|p: TilePos| rect.contains(p) implies #[trigger] after.tile_at(p) == room_cell(
        rect,
        world,
        tileset,
        shrine,
        kind,
        flip,
        p,
    ) by {
        let l = p.spec_offset(-origin.x, -origin.y);
        assert(target.contains(p));
        assert(after.tile_at(p) == room.tile_at(l));
        assert(room.tile_at(l) == room_cell(local_rect, local, tileset, local_shrine, kind, flip, l));
        assert(local_rect.contains(l));
        assert(local_rect.on_border(l) == rect.on_border(p));
        assert(local.contains(l) == world.contains(p)) by {
            if local.contains(l) {
                let i = choose|i: int| 0 <= i < local.len() && local[i] == l;
                assert(world[i] == p);
            }
            if world.contains(p) {
                let i = choose|i: int| 0 <= i < world.len() && world[i] == p;
                assert(world[i] == local[i].spec_offset(origin.x as int, origin.y as int));
                assert(local_rect.on_border(local[i]));
                assert(local[i] == l);
            }
        }
        assert((l == local_shrine) == (p == shrine));
    }
    assert(room_kept_as(after, rect, world, tileset, shrine, kind, flip));
}

impl MutMap {
    /// Builds a room in the leaf `leaf` of the partition, `inset` tiles off
    /// its rim on every side: the room is generated in a grid of its own,
    /// with draws from this grid's generator, and copied to its place.
    /// Returns the room's rectangle and the places of its doors.
    ///
    /// Fails with `RoomTooSmall` exactly where the inset leaves no tile off
    /// the rim of the room, and with `NoDoor` where the room took no door.
    pub fn place_room(&mut self, leaf: TileRect, inset: i32) -> (r: Result<
        (TileRect, Vec<TilePos>),
        GenerateError,
    >)
        requires
            old(self).wf(),
            leaf.sorted(),
            rect_within(leaf, spec_map_rect()),
            MIN_ROOM_INSET <= inset < MAX_ROOM_INSET,
        ensures
            final(self).wf(),
            !room_fits(spec_inset(leaf, inset as int)) <==> r == Err::<
                (TileRect, Vec<TilePos>),
                GenerateError,
            >(GenerateError::RoomTooSmall),
            r is Err ==> r->Err_0 == GenerateError::RoomTooSmall || r->Err_0
                == GenerateError::NoDoor,
            r matches Ok(room) ==> {
                &&& room.0 == spec_inset(leaf, inset as int)
                &&& room_kept(&final(self).map, room.0, room.1@)
                &&& forall|p: TilePos|
                    room.0.contains(p) ==> (#[trigger] final(self).tile_at(p)).foreground.ty
                        != spawn_landmark()
                &&& room_doors_stand(&final(self).map, room.0, room.1@)
                &&& forall|p: TilePos|
                    room.0.contains(p) ==> !(#[trigger] final(self).tile_at(p)).spec_is_empty()
                &&& forall|p: TilePos|
                    !room.0.contains(p) ==> #[trigger] final(self).tile_at(p) == old(self).tile_at(
                        p,
                    )
            },
    {
        let rect = TileRect::new_presorted(
            TilePos::of(leaf.min.x + inset, leaf.min.y + inset),
            TilePos::of(leaf.max.x - inset, leaf.max.y - inset),
        );
        let mut local_rect = rect;
        local_rect.translate(TileDelta::of(-rect.min.x, -rect.min.y));
        let (room, local) = match generate_room(&mut self.rng, local_rect) {
            Ok(room) => room,
            Err(e) => {
                return Err(e);
            },
        };
        proof {
            lemma_room_used_rect(&room.map, local_rect, local@);
        }
        let ghost before = self.map;
        self.copy_from(&room, rect.min);
        let mut doors: Vec<TilePos> = Vec::new();
        let mut i: usize = 0;
        proof {
            lemma_room_doors(&room.map, local_rect, local@);
            assert forall|k: int| 0 <= k < local@.len() implies local_rect.contains(
                #[trigger] local@[k],
            ) by {}
        }
        while i < local.len()
            invariant
                i <= local.len(),
                doors.len() == i,
                leaf.sorted(),
                rect_within(leaf, spec_map_rect()),
                rect == spec_inset(leaf, inset as int),
                MIN_ROOM_INSET <= inset < MAX_ROOM_INSET,
                local_rect.min == (TilePos { x: 0, y: 0 }),
                local_rect.max == (TilePos {
                    x: (rect.max.x - rect.min.x) as i32,
                    y: (rect.max.y - rect.min.y) as i32,
                }),
                forall|k: int| 0 <= k < local@.len() ==> local_rect.contains(#[trigger] local@[k]),
                forall|k: int|
                    0 <= k < i ==> #[trigger] doors@[k] == local@[k].spec_offset(
                        rect.min.x as int,
                        rect.min.y as int,
                    ),
            decreases local.len() - i,
        {
            assert(local_rect.contains(local@[i as int]));
            doors.push(local[i].offset(TileDelta::of(rect.min.x, rect.min.y)));
            i += 1;
        }
        proof {
            lemma_room_copied(&room.map, &before, &self.map, local_rect, rect.min, local@, doors@);
            lemma_room_layout_copied(
                &room.map,
                &before,
                &self.map,
                local_rect,
                rect.min,
                local@,
                doors@,
            );
        }
        Ok((rect, doors))
    }
}

/// Whether every room of `rooms` has its doors, those of the room at index
/// `k` being `room_doors[k]`, standing in `grid`.
pub open spec fn all_doors_stand(
    grid: &TileGrid,
    rooms: Seq<TileRect>,
    room_doors: Seq<Vec<TilePos>>,
) -> bool {
    &&& rooms.len() == room_doors.len()
    &&& forall|k: int|
        0 <= k < rooms.len() ==> room_doors_stand(grid, #[trigger] rooms[k], room_doors[k]@)
}

/// The doors of every room keep standing while walls and doors are left
/// alone.
pub proof fn lemma_all_doors_kept(
    before: &TileGrid,
    after: &TileGrid,
    rooms: Seq<TileRect>,
    room_doors: Seq<Vec<TilePos>>,
)
    requires
        all_doors_stand(before, rooms, room_doors),
        keeps_structures(before, after),
    ensures
        all_doors_stand(after, rooms, room_doors),
{
    assert forall|k: int| 0 <= k < rooms.len() implies room_doors_stand(
        after,
        #[trigger] rooms[k],
        room_doors[k]@,
    ) by {
        lemma_doors_kept(before, after, rooms[k], room_doors[k]@);
    }
}

/// Whether every room of `rooms`, with the doors `room_doors[k]` for the
/// room at index `k`, is kept in `grid`.
pub open spec fn all_rooms_kept(
    grid: &TileGrid,
    rooms: Seq<TileRect>,
    room_doors: Seq<Vec<TilePos>>,
) -> bool {
    &&& rooms.len() == room_doors.len()
    &&& forall|k: int| 0 <= k < rooms.len() ==> room_kept(grid, #[trigger] rooms[k], room_doors[k]@)
}

/// A gentle change leaves every room a room.
pub proof fn lemma_all_rooms_kept(
    before: &TileGrid,
    after: &TileGrid,
    rooms: Seq<TileRect>,
    room_doors: Seq<Vec<TilePos>>,
)
    requires
        all_rooms_kept(before, rooms, room_doors),
        gently_changed(before, after),
    ensures
        all_rooms_kept(after, rooms, room_doors),
{
    assert forall|k: int| 0 <= k < rooms.len() implies room_kept(
        after,
        #[trigger] rooms[k],
        room_doors[k]@,
    ) by {
        lemma_room_kept(before, after, rooms[k], room_doors[k]@);
    }
}

/// A room stays a room while none of its cells changes.
pub proof fn lemma_room_untouched(
    before: &TileGrid,
    after: &TileGrid,
    rect: TileRect,
    doors: Seq<TilePos>,
)
    requires
        room_kept(before, rect, doors),
        forall|p: TilePos| rect.contains(p) ==> #[trigger] after.tile_at(p) == before.tile_at(p),
    ensures
        room_kept(after, rect, doors),
{
    let (tileset, shrine, kind, flip) = choose|
        tileset: Tileset,
        shrine: TilePos,
        kind: Landmark,
        flip: bool,
    |
        {
            &&& #[trigger] room_kept_as(before, rect, doors, tileset, shrine, kind, flip)
            &&& rect.contains(shrine) && !rect.on_border(shrine)
            &&& kind == Landmark::ShrineIdol || kind == Landmark::ShrineSkulls
        };
    assert forall|p: TilePos| rect.contains(p) implies ({
        let cell = room_cell(rect, doors, tileset, shrine, kind, flip, p);
        #[trigger] after.tile_at(p) == cell || (cell == floor_cell(tileset) && after.tile_at(p)
            == spawned(cell))
    }) by {
        let cell = room_cell(rect, doors, tileset, shrine, kind, flip, p);
        assert(before.tile_at(p) == cell || (cell == floor_cell(tileset) && before.tile_at(p)
            == spawned(cell)));
        assert(after.tile_at(p) == before.tile_at(p));
    }
    assert(room_kept_as(after, rect, doors, tileset, shrine, kind, flip));
}

/// The doors of a room keep standing while none of the room's cells
/// changes: the walls that a door stands between are cells of its room.
pub proof fn lemma_doors_untouched(
    before: &TileGrid,
    after: &TileGrid,
    rect: TileRect,
    doors: Seq<TilePos>,
)
    requires
        room_kept(before, rect, doors),
        room_doors_stand(before, rect, doors),
        forall|p: TilePos| rect.contains(p) ==> #[trigger] after.tile_at(p) == before.tile_at(p),
    ensures
        room_doors_stand(after, rect, doors),
{
    let (tileset, shrine, kind, flip) = choose|
        tileset: Tileset,
        shrine: TilePos,
        kind: Landmark,
        flip: bool,
    |
        {
            &&& #[trigger] room_kept_as(before, rect, doors, tileset, shrine, kind, flip)
            &&& rect.contains(shrine) && !rect.on_border(shrine)
            &&& kind == Landmark::ShrineIdol || kind == Landmark::ShrineSkulls
        };
    assert forall|i: int| 0 <= i < doors.len() implies door_stands(after, #[trigger] doors[i]) by {
        let door = doors[i];
        assert(rect.on_border(door) && !rect.is_corner(door) && door_stands(before, door));
        assert(doors.contains(door));
        let cell = room_cell(rect, doors, tileset, shrine, kind, flip, door);
        assert(before.tile_at(door) == cell || (cell == floor_cell(tileset) && before.tile_at(door)
            == spawned(cell)));
        assert(after.tile_at(door) == before.tile_at(door));
        assert(before.tile_at(door).foreground.ty == crate::room::door_kind_at(rect, door));
        if door.x == rect.min.x || door.x == rect.max.x {
            assert(rect.contains(door.spec_neighbor(Direction::North)));
            assert(rect.contains(door.spec_neighbor(Direction::South)));
        } else {
            assert(rect.contains(door.spec_neighbor(Direction::East)));
            assert(rect.contains(door.spec_neighbor(Direction::West)));
        }
    }
}

/// Whether `p` is a tile of one of the first `n` of `rooms`.
pub open spec fn in_a_room(rooms: Seq<TileRect>, n: int, p: TilePos) -> bool {
    exists|k: int| 0 <= k < n && (#[trigger] rooms[k]).contains(p)
}

/// Whether the rim of every rectangle of `hallways` is paved: each of its
/// tiles holds the hallway floor, with or without a spawn point on it.
pub open spec fn hallways_kept(grid: &TileGrid, hallways: Seq<TileRect>) -> bool {
    forall|k: int, p: TilePos|
        0 <= k < hallways.len() && (#[trigger] hallways[k]).on_border(p) ==> #[trigger] grid.tile_at(
            p,
        ) == floor_cell(Tileset::Rock) || grid.tile_at(p) == spawned(floor_cell(Tileset::Rock))
}

/// A gentle change leaves the hallways paved.
pub proof fn lemma_hallways_kept(before: &TileGrid, after: &TileGrid, hallways: Seq<TileRect>)
    requires
        hallways_kept(before, hallways),
        gently_changed(before, after),
    ensures
        hallways_kept(after, hallways),
{
    assert forall|k: int, p: TilePos|
        0 <= k < hallways.len() && (#[trigger] hallways[k]).on_border(
            p,
        ) implies #[trigger] after.tile_at(p) == floor_cell(Tileset::Rock) || after.tile_at(p)
        == spawned(floor_cell(Tileset::Rock)) by {
        assert(before.tile_at(p) == floor_cell(Tileset::Rock) || before.tile_at(p) == spawned(
            floor_cell(Tileset::Rock),
        ));
        assert(after.tile_at(p) == before.tile_at(p) || before.tile_at(p).spec_is_empty() || (
        before.tile_at(p).spec_is_floor() && after.tile_at(p) == spawned(before.tile_at(p))));
    }
}

/// Whether the room at index `k` lies in the leaf at index `k`, at least
/// `MIN_ROOM_INSET` tiles off its rim, for every `k` below `n`.
pub open spec fn rooms_in_leaves(rooms: Seq<TileRect>, leaves: Seq<TileRect>, n: int) -> bool {
    forall|k: int|
        0 <= k < n ==> {
            let room = #[trigger] rooms[k];
            &&& room.sorted()
            &&& is_inset(room, leaves[k])
            &&& leaves[k].min.x + MIN_ROOM_INSET <= room.min.x
            &&& leaves[k].min.y + MIN_ROOM_INSET <= room.min.y
            &&& room.max.x + MIN_ROOM_INSET <= leaves[k].max.x
            &&& room.max.y + MIN_ROOM_INSET <= leaves[k].max.y
        }
}

/// Whether `room` is `leaf` with the same number of tiles taken off on
/// every side, at least `MIN_ROOM_INSET` and less than `MAX_ROOM_INSET`.
pub open spec fn is_inset(room: TileRect, leaf: TileRect) -> bool {
    exists|inset: int|
        MIN_ROOM_INSET <= inset < MAX_ROOM_INSET && room == #[trigger] spec_inset(leaf, inset)
}

/// Whether the rectangles are leaves of a partition of the map rectangle:
/// each lies in it, and no two share a tile off their rims.
pub open spec fn are_leaves(leaves: Seq<TileRect>) -> bool {
    &&& forall|k: int|
        0 <= k < leaves.len() ==> (#[trigger] leaves[k]).sorted() && rect_within(
            leaves[k],
            spec_map_rect(),
        )
    &&& forall|i: int, j: int|
        0 <= i < j < leaves.len() ==> interiors_apart(#[trigger] leaves[i], #[trigger] leaves[j])
}

impl MutMap {
    /// Builds a room in every leaf of `leaves`, each a number of tiles off
    /// the rim of its leaf that is drawn from `MIN_ROOM_INSET ..
    /// MAX_ROOM_INSET`. Returns the rooms' rectangles and, for each room,
    /// the places of its doors.
    ///
    /// Fails with the error of the first room that could not be built.
    pub fn build_rooms(&mut self, leaves: &Vec<TileRect>) -> (r: Result<
        (Vec<TileRect>, Vec<Vec<TilePos>>),
        GenerateError,
    >)
        requires
            old(self).wf(),
            are_leaves(leaves@),
        ensures
            final(self).wf(),
            r is Err ==> r->Err_0 == GenerateError::RoomTooSmall || r->Err_0
                == GenerateError::NoDoor,
            r matches Ok(built) ==> {
                &&& built.0.len() == leaves.len()
                &&& rooms_in_leaves(built.0@, leaves@, leaves.len() as int)
                &&& all_doors_stand(&final(self).map, built.0@, built.1@)
                &&& all_rooms_kept(&final(self).map, built.0@, built.1@)
                &&& forall|p: TilePos|
                    !in_a_room(built.0@, built.0@.len() as int, p)
                        ==> #[trigger] final(self).tile_at(p) == old(self).tile_at(p)
                &&& forall|p: TilePos|
                    in_a_room(built.0@, built.0@.len() as int, p)
                        ==> (#[trigger] final(self).tile_at(p)).foreground.ty != spawn_landmark()
            },
    {
        let mut rooms: Vec<TileRect> = Vec::new();
        let mut room_doors: Vec<Vec<TilePos>> = Vec::new();
        let mut i: usize = 0;
        while i < leaves.len()
            invariant
                self.wf(),
                are_leaves(leaves@),
                i <= leaves.len(),
                rooms.len() == i,
                rooms_in_leaves(rooms@, leaves@, i as int),
                all_doors_stand(&self.map, rooms@, room_doors@),
                all_rooms_kept(&self.map, rooms@, room_doors@),
                forall|p: TilePos|
                    !in_a_room(rooms@, i as int, p)
                        ==> #[trigger] self.tile_at(p) == old(self).tile_at(p),
                forall|p: TilePos|
                    in_a_room(rooms@, i as int, p) ==> (#[trigger] self.tile_at(p)).foreground.ty
                        != spawn_landmark(),
            decreases leaves.len() - i,
        {
            let leaf = leaves[i];
            let inset: i32 = draw_range(self.rng.as_mut(), MIN_ROOM_INSET, MAX_ROOM_INSET);
            let ghost before = self.map;
            let ghost rooms_before = rooms@;
            let ghost doors_before = room_doors@;
            let (rect, doors) = match self.place_room(leaf, inset) {
                Ok(room) => room,
                Err(e) => {
                    return Err(e);
                },
            };
            rooms.push(rect);
            room_doors.push(doors);
            proof {
                assert(room_fits(rect));
                assert forall|p: TilePos| in_a_room(rooms@, i + 1, p) implies (
                #[trigger] self.map.tile_at(p)).foreground.ty != spawn_landmark() by {
                    assert(rooms@[i as int] == rect);
                    if !rect.contains(p) {
                        let k = choose|k: int| 0 <= k < i + 1 && (#[trigger] rooms@[k]).contains(p);
                        assert(rooms_before[k].contains(p));
                        assert(in_a_room(rooms_before, i as int, p));
                        assert(self.map.tile_at(p) == before.tile_at(p));
                    }
                }
                assert forall|p: TilePos| !in_a_room(rooms@, i + 1, p) implies #[trigger]
                    self.map.tile_at(p) == old(self).map.tile_at(p) by {
                    assert(rooms@[i as int] == rect);
                    assert(!rect.contains(p));
                    if in_a_room(rooms_before, i as int, p) {
                        let k = choose|k: int|
                            0 <= k < i && (#[trigger] rooms_before[k]).contains(p);
                        assert(rooms@[k].contains(p));
                    }
                    assert(self.map.tile_at(p) == before.tile_at(p));
                }
                assert forall|k: int| 0 <= k < rooms@.len() implies room_kept(
                    &self.map,
                    #[trigger] rooms@[k],
                    room_doors@[k]@,
                ) by {
                    if k < i {
                        assert(rooms@[k] == rooms_before[k]);
                        assert(room_doors@[k] == doors_before[k]);
                        assert(interiors_apart(leaves@[k], leaves@[i as int]));
                        assert forall|p: TilePos| rooms_before[k].contains(p) implies #[trigger]
                            self.map.tile_at(p) == before.tile_at(p) by {
                            assert(!rect.contains(p));
                        }
                        lemma_room_untouched(&before, &self.map, rooms_before[k], doors_before[k]@);
                    }
                }
                assert forall|k: int| 0 <= k < rooms@.len() implies room_doors_stand(
                    &self.map,
                    #[trigger] rooms@[k],
                    room_doors@[k]@,
                ) by {
                    if k < i {
                        assert(rooms@[k] == rooms_before[k]);
                        assert(room_doors@[k] == doors_before[k]);
                        assert(interiors_apart(leaves@[k], leaves@[i as int]));
                        assert(room_kept(&before, rooms_before[k], doors_before[k]@));
                        assert(room_doors_stand(&before, rooms_before[k], doors_before[k]@));
                        assert forall|p: TilePos| rooms_before[k].contains(p) implies #[trigger]
                            self.map.tile_at(p) == before.tile_at(p) by {
                            assert(!rect.contains(p));
                        }
                        lemma_doors_untouched(
                            &before,
                            &self.map,
                            rooms_before[k],
                            doors_before[k]@,
                        );
                    }
                }
                assert(is_inset(rect, leaf)) by {
                    assert(rect == spec_inset(leaf, inset as int));
                }
                assert forall|k: int| 0 <= k < i + 1 implies ({
                    let room = #[trigger] rooms@[k];
                    &&& room.sorted()
                    &&& is_inset(room, leaves@[k])
                    &&& leaves@[k].min.x + MIN_ROOM_INSET <= room.min.x
                    &&& leaves@[k].min.y + MIN_ROOM_INSET <= room.min.y
                    &&& room.max.x + MIN_ROOM_INSET <= leaves@[k].max.x
                    &&& room.max.y + MIN_ROOM_INSET <= leaves@[k].max.y
                }) by {
                    if k < i {
                        assert(rooms@[k] == rooms_before[k]);
                    }
                }
            }
            i += 1;
        }
        Ok((rooms, room_doors))
    }
}

/// Whether `after` differs from `before` only where `before` had an empty
/// cell that got the floor of paths.
pub open spec fn only_paved(before: &TileGrid, after: &TileGrid) -> bool {
    forall|p: TilePos|
        #[trigger] after.tile_at(p) == before.tile_at(p) || (before.tile_at(p).spec_is_empty()
            && after.tile_at(p) == before.tile_at(p).after_set(
            crate::room::floor_tile(Tileset::Rock),
        ))
}

/// Paving a path in a grid that was only paved leaves it only paved.
proof fn lemma_paved_on(first: &TileGrid, before: &TileGrid, after: &TileGrid)
    requires
        only_paved(first, before),
        built_on(before, after),
        forall|p: TilePos|
            #[trigger] after.tile_at(p) == before.tile_at(p) || before.tile_at(p).spec_is_empty(),
        forall|p: TilePos|
            #[trigger] after.tile_at(p) == before.tile_at(p) || after.tile_at(p) == before.tile_at(
                p,
            ).after_set(crate::room::floor_tile(Tileset::Rock)),
    ensures
        only_paved(first, after),
{
    assert forall|p: TilePos|
        #[trigger] after.tile_at(p) == first.tile_at(p) || (first.tile_at(p).spec_is_empty()
            && after.tile_at(p) == first.tile_at(p).after_set(
            crate::room::floor_tile(Tileset::Rock),
        )) by {
        assert(before.tile_at(p) == first.tile_at(p) || (first.tile_at(p).spec_is_empty()
            && before.tile_at(p) == first.tile_at(p).after_set(
            crate::room::floor_tile(Tileset::Rock),
        )));
        assert(after.tile_at(p) == before.tile_at(p) || before.tile_at(p).spec_is_empty());
        assert(after.tile_at(p) == before.tile_at(p) || after.tile_at(p) == before.tile_at(
            p,
        ).after_set(crate::room::floor_tile(Tileset::Rock)));
    }
}

/// A grid that was only paved was built on.
proof fn lemma_only_paved_built(before: &TileGrid, after: &TileGrid)
    requires
        only_paved(before, after),
    ensures
        built_on(before, after),
{
    assert forall|p: TilePos|
        #[trigger] after.tile_at(p) == before.tile_at(p) || (before.tile_at(p).spec_is_empty() && (
        after.tile_at(p) == before.tile_at(p).after_set(crate::room::floor_tile(Tileset::Rock))
            || after.tile_at(p) == before.tile_at(p).after_set(
            crate::room::wall_tile(Tileset::Rock),
        ))) || (before.tile_at(p).spec_is_floor() && after.tile_at(p) == spawned(
            before.tile_at(p),
        )) by {
        assert(after.tile_at(p) == before.tile_at(p) || (before.tile_at(p).spec_is_empty()
            && after.tile_at(p) == before.tile_at(p).after_set(
            crate::room::floor_tile(Tileset::Rock),
        )));
    }
}

/// A gentle change leaves walls and doors alone.
pub proof fn lemma_gentle_keeps_structures(before: &TileGrid, after: &TileGrid)
    requires
        gently_changed(before, after),
    ensures
        keeps_structures(before, after),
{
    assert forall|p: TilePos|
        (#[trigger] before.tile_at(p)).spec_is_door() || before.tile_at(
            p,
        ).spec_is_wall() implies after.tile_at(p) == before.tile_at(p) by {
        assert(after.tile_at(p) == before.tile_at(p) || before.tile_at(p).spec_is_empty() || (
        before.tile_at(p).spec_is_floor() && after.tile_at(p) == spawned(before.tile_at(p))));
    }
}

/// The doors of the first `rooms` rooms, room by room, followed by the
/// first `doors` doors of the room after them.
pub open spec fn doors_in_order(room_doors: Seq<Vec<TilePos>>, rooms: int, doors: int) -> Seq<
    TilePos,
>
    decreases rooms, doors,
{
    if doors > 0 {
        doors_in_order(room_doors, rooms, doors - 1).push(room_doors[rooms]@[doors - 1])
    } else if rooms > 0 {
        doors_in_order(room_doors, rooms - 1, room_doors[rooms - 1]@.len() as int)
    } else {
        Seq::empty()
    }
}

/// The number of steps that the path from `door` takes on `grid`; see
/// `steps_to_obstacle`.
pub open spec fn paving_steps(grid: &TileGrid, door: TilePos) -> int {
    steps_to_obstacle(grid, door, spec_paving_direction(grid, door), 1, PAVING_LIMIT as int)
}

/// Whether `after` is `before` with the path from `door` paved: floor set
/// on the tiles less than `paving_steps` steps from the door, in the
/// direction in which a path leaves it.
pub open spec fn is_paved_from(before: &TileGrid, after: &TileGrid, door: TilePos) -> bool {
    after.is_set_of(
        before,
        path_set(door, spec_paving_direction(before, door), paving_steps(before, door)),
        crate::room::floor_tile(Tileset::Rock),
    )
}

/// Whether each grid of `grids` but the first is the grid before it with
/// the path paved from the door of `doors` at its place.
pub open spec fn is_paving(grids: Seq<TileGrid>, doors: Seq<TilePos>) -> bool {
    &&& grids.len() == doors.len() + 1
    &&& forall|k: int|
        0 <= k < doors.len() ==> is_paved_from(&#[trigger] grids[k], &grids[k + 1], doors[k])
}

/// Of the first `n` doors of `doors`, those whose path met nothing within
/// the limit on the grid that it was paved on, in their order.
pub open spec fn loose_among(grids: Seq<TileGrid>, doors: Seq<TilePos>, n: int) -> Seq<TilePos>
    decreases n,
{
    if n <= 0 {
        Seq::empty()
    } else {
        let rest = loose_among(grids, doors, n - 1);
        if paving_steps(&grids[n - 1], doors[n - 1]) == PAVING_LIMIT {
            rest.push(doors[n - 1])
        } else {
            rest
        }
    }
}

/// Whether `after` is `before` with a path paved from each door of `doors`,
/// one after the other, each on the grid that the paths before it left, and
/// `loose` are the doors whose path met nothing within the limit.
pub open spec fn is_door_paving(
    before: &TileGrid,
    after: &TileGrid,
    doors: Seq<TilePos>,
    loose: Seq<TilePos>,
) -> bool {
    exists|grids: Seq<TileGrid>|
        {
            &&& #[trigger] is_paving(grids, doors)
            &&& grids[0] == *before
            &&& grids[doors.len() as int] == *after
            &&& loose == loose_among(grids, doors, doors.len() as int)
        }
}

/// The loose doors among the first `n` are read from the first `n` grids
/// and doors alone.
pub proof fn lemma_loose_frame(
    a: Seq<TileGrid>,
    doors_a: Seq<TilePos>,
    b: Seq<TileGrid>,
    doors_b: Seq<TilePos>,
    n: int,
)
    requires
        forall|k: int|
            #![trigger a[k]]
            #![trigger doors_a[k]]
            0 <= k < n ==> a[k] == b[k] && doors_a[k] == doors_b[k],
    ensures
        loose_among(a, doors_a, n) == loose_among(b, doors_b, n),
    decreases n,
{
    if n > 0 {
        lemma_loose_frame(a, doors_a, b, doors_b, n - 1);
        assert(a[n - 1] == b[n - 1]);
    }
}

/// Whether a path of `PAVING_LIMIT` steps from `pos`, whichever way it
/// leads, stays among the tiles that a position can name.
pub open spec fn paving_fits(pos: TilePos) -> bool {
    &&& i32::MIN < pos.x - PAVING_LIMIT && pos.x + PAVING_LIMIT < i32::MAX
    &&& i32::MIN < pos.y - PAVING_LIMIT && pos.y + PAVING_LIMIT < i32::MAX
}

/// Whether a path can be paved from every door of `room_doors`: each place
/// holds a door in `grid`, and a path from it fits.
pub open spec fn doors_pavable(grid: &TileGrid, room_doors: Seq<Vec<TilePos>>) -> bool {
    forall|i: int, j: int|
        0 <= i < room_doors.len() && 0 <= j < room_doors[i]@.len() ==> grid.tile_at(
            #[trigger] room_doors[i]@[j],
        ).spec_is_door() && paving_fits(room_doors[i]@[j])
}

/// Whether `pos` is one of the doors of `room_doors`.
pub open spec fn is_listed_door(room_doors: Seq<Vec<TilePos>>, pos: TilePos) -> bool {
    exists|i: int, j: int|
        0 <= i < room_doors.len() && 0 <= j < room_doors[i]@.len() && (
        #[trigger] room_doors[i]@[j]) == pos
}

impl MutMap {
    /// Paves a path from every door, room by room, as `pave_from_door` does
    /// with the limit `PAVING_LIMIT`. Returns the doors whose path met
    /// nothing within the limit.
    pub fn pave_doors(&mut self, room_doors: &Vec<Vec<TilePos>>) -> (loose: Vec<TilePos>)
        requires
            old(self).wf(),
            doors_pavable(&old(self).map, room_doors@),
        ensures
            final(self).wf(),
            final(self).rng == old(self).rng,
            is_door_paving(
                &old(self).map,
                &final(self).map,
                doors_in_order(room_doors@, room_doors@.len() as int, 0),
                loose@,
            ),
            only_paved(&old(self).map, &final(self).map),
            built_on(&old(self).map, &final(self).map),
    {
        let mut loose: Vec<TilePos> = Vec::new();
        let mut i: usize = 0;
        let ghost mut grids: Seq<TileGrid> = seq![self.map];
        let ghost mut done: Seq<TilePos> = Seq::empty();
        while i < room_doors.len()
            invariant
                self.wf(),
                self.rng == old(self).rng,
                i <= room_doors.len(),
                doors_pavable(&old(self).map, room_doors@),
                only_paved(&old(self).map, &self.map),
                is_paving(grids, done),
                grids[0] == old(self).map,
                grids[done.len() as int] == self.map,
                loose@ == loose_among(grids, done, done.len() as int),
                done == doors_in_order(room_doors@, i as int, 0),
            decreases room_doors.len() - i,
        {
            let mut j: usize = 0;
            while j < room_doors[i].len()
                invariant
                    self.wf(),
                    self.rng == old(self).rng,
                    i < room_doors.len(),
                    j <= room_doors[i as int].len(),
                    doors_pavable(&old(self).map, room_doors@),
                    only_paved(&old(self).map, &self.map),
                    is_paving(grids, done),
                    grids[0] == old(self).map,
                    grids[done.len() as int] == self.map,
                    loose@ == loose_among(grids, done, done.len() as int),
                    done == doors_in_order(room_doors@, i as int, j as int),
                decreases room_doors[i as int].len() - j,
            {
                let pos = room_doors[i][j];
                proof {
                    assert(old(self).tile_at(room_doors@[i as int]@[j as int]).spec_is_door());
                    assert(paving_fits(pos));
                    assert(self.tile_at(pos) == old(self).tile_at(pos));
                }
                let ghost before = self.map;
                let connected = self.pave_from_door(pos, PAVING_LIMIT);
                proof {
                    lemma_paved_on(&old(self).map, &before, &self.map);
                    let n = done.len() as int;
                    let more = grids.push(self.map);
                    let doors = done.push(pos);
                    assert(is_paved_from(&before, &self.map, pos));
                    assert forall|k: int| 0 <= k < doors.len() implies is_paved_from(
                        &#[trigger] more[k],
                        &more[k + 1],
                        doors[k],
                    ) by {
                        if k < n {
                            assert(more[k] == grids[k] && more[k + 1] == grids[k + 1] && doors[k]
                                == done[k]);
                            assert(is_paved_from(&grids[k], &grids[k + 1], done[k]));
                        }
                    }
                    lemma_loose_frame(more, doors, grids, done, n);
                    assert(connected == (paving_steps(&before, pos) < PAVING_LIMIT));
                    grids = more;
                    done = doors;
                    assert(done == doors_in_order(room_doors@, i as int, j + 1));
                }
                if !connected {
                    loose.push(pos);
                }
                j += 1;
            }
            proof {
                assert(doors_in_order(room_doors@, i + 1, 0) == doors_in_order(
                    room_doors@,
                    i as int,
                    room_doors@[i as int]@.len() as int,
                ));
            }
            i += 1;
        }
        proof {
            lemma_only_paved_built(&old(self).map, &self.map);
            assert(is_paving(grids, done));
        }
        loose
    }

    /// Makes up to `MAX_SPAWNS` floors spawn points of the player: up to
    /// `SPAWN_ATTEMPTS` times a leaf of `leaves` is picked and a tile of it
    /// is drawn, which becomes a spawn point if it is a floor. Places are
    /// drawn until `MAX_SPAWNS` spawn points are placed or `SPAWN_ATTEMPTS`
    /// places were drawn. Returns the spawn points, in the order in which
    /// they were placed: the places drawn that were floors, each once.
    pub fn place_spawns(&mut self, leaves: &Vec<TileRect>) -> (spawns: Vec<TilePos>)
        requires
            old(self).wf(),
            leaves.len() > 0,
            forall|k: int| 0 <= k < leaves.len() ==> (#[trigger] leaves[k]).sorted(),
        ensures
            final(self).wf(),
            exists|places: Seq<TilePos>| #[trigger]
                is_spawn_search(&old(self).map, leaves@, places, spawns@),
            spawns.len() <= MAX_SPAWNS,
            forall|i: int, j: int|
                0 <= i < j < spawns.len() ==> #[trigger] spawns[i] != #[trigger] spawns[j],
            forall|i: int|
                0 <= i < spawns.len() ==> old(self).tile_at(#[trigger] spawns[i]).spec_is_floor()
                    && in_a_leaf(leaves@, spawns[i]),
            forall|p: TilePos| #[trigger]
                final(self).tile_at(p) == if spawns@.contains(p) {
                    spawned(old(self).tile_at(p))
                } else {
                    old(self).tile_at(p)
                },
            built_on(&old(self).map, &final(self).map),
            floors_enclosed(&old(self).map) ==> floors_enclosed(&final(self).map),
    {
        let mut spawns: Vec<TilePos> = Vec::new();
        let mut attempt: u32 = 0;
        let ghost mut places: Seq<TilePos> = Seq::empty();
        while attempt < SPAWN_ATTEMPTS
            invariant_except_break
                spawns.len() < MAX_SPAWNS,
                places.len() == attempt,
            invariant
                self.wf(),
                leaves.len() > 0,
                places.len() <= SPAWN_ATTEMPTS,
                forall|i: int| 0 <= i < places.len() ==> in_a_leaf(leaves@, #[trigger] places[i]),
                spawns@ == spawns_among(&old(self).map, places),
                forall|k: int| 0 <= k < leaves.len() ==> (#[trigger] leaves[k]).sorted(),
                attempt <= SPAWN_ATTEMPTS,
                spawns.len() <= MAX_SPAWNS,
                forall|i: int, j: int|
                    0 <= i < j < spawns.len() ==> #[trigger] spawns[i] != #[trigger] spawns[j],
                forall|i: int|
                    0 <= i < spawns.len() ==> old(self).tile_at(
                        #[trigger] spawns[i],
                    ).spec_is_floor() && in_a_leaf(leaves@, spawns[i]),
                forall|p: TilePos| #[trigger]
                    self.tile_at(p) == if spawns@.contains(p) {
                        spawned(old(self).tile_at(p))
                    } else {
                        old(self).tile_at(p)
                    },
                floors_enclosed(&old(self).map) ==> floors_enclosed(&self.map),
            ensures
                is_spawn_search(&old(self).map, leaves@, places, spawns@),
            decreases SPAWN_ATTEMPTS - attempt,
        {
            let leaf = match choose_from(self.rng.as_mut(), leaves) {
                Some(leaf) => leaf,
                None => unreached(),
            };
            let x: i32 = draw_range_inclusive(self.rng.as_mut(), leaf.min.x, leaf.max.x);
            let y: i32 = draw_range_inclusive(self.rng.as_mut(), leaf.min.y, leaf.max.y);
            let pos = TilePos::of(x, y);
            let ghost before = self.map;
            let ghost placed = spawns@;
            let ghost tried = places;
            proof {
                let k = choose|k: int| 0 <= k < leaves@.len() && leaves@[k] == leaf;
                assert(leaves@[k].contains(pos));
                places = tried.push(pos);
                assert(places.drop_last() =~= tried);
                assert(places.last() == pos);
                assert(self.tile_at(pos).spec_is_floor() <==> old(self).tile_at(pos).spec_is_floor()
                    && !placed.contains(pos));
                assert forall|i: int| 0 <= i < places.len() implies in_a_leaf(
                    leaves@,
                    #[trigger] places[i],
                ) by {
                    if i < tried.len() {
                        assert(places[i] == tried[i]);
                    }
                }
            }
            if self.place_spawn(pos) {
                assert(!placed.contains(pos));
                spawns.push(pos);
                proof {
                    if floors_enclosed(&before) {
                        lemma_enclosure_kept(&before, &self.map, pos);
                    }
                    assert(spawns@ =~= placed.push(pos));
                    assert(spawns@[placed.len() as int] == pos);
                    assert forall|p: TilePos| spawns@.contains(p) <==> placed.contains(p) || p
                        == pos by {
                        if placed.contains(p) {
                            let i = choose|i: int| 0 <= i < placed.len() && placed[i] == p;
                            assert(spawns@[i] == p);
                        }
                    }
                    assert forall|i: int, j: int| 0 <= i < j < spawns.len() implies #[trigger] spawns[i]
                        != #[trigger] spawns[j] by {
                        if j == placed.len() {
                            assert(placed.contains(placed[i]));
                        }
                    }
                }
                if spawns.len() >= MAX_SPAWNS as usize {
                    break ;
                }
            }
            attempt += 1;
        }
        proof {
            assert(is_spawn_search(&old(self).map, leaves@, places, spawns@));
            assert forall|p: TilePos|
                #[trigger] self.map.tile_at(p) == old(self).map.tile_at(p) || (old(
                    self,
                ).map.tile_at(p).spec_is_empty() && (self.map.tile_at(p) == old(self).map.tile_at(
                    p,
                ).after_set(crate::room::floor_tile(Tileset::Rock)) || self.map.tile_at(p) == old(
                    self,
                ).map.tile_at(p).after_set(crate::room::wall_tile(Tileset::Rock)))) || (old(
                    self,
                ).map.tile_at(p).spec_is_floor() && self.map.tile_at(p) == spawned(
                    old(self).map.tile_at(p),
                )) by {
                if spawns@.contains(p) {
                    let i = choose|i: int| 0 <= i < spawns@.len() && spawns@[i] == p;
                    assert(old(self).tile_at(spawns[i]).spec_is_floor());
                }
            }
        }
        spawns
    }
}

/// The spawn points that are placed when the places `places` are tried in
/// order on `grid`: a place becomes a spawn point if it is a floor of
/// `grid` and no spawn point yet.
pub open spec fn spawns_among(grid: &TileGrid, places: Seq<TilePos>) -> Seq<TilePos>
    decreases places.len(),
{
    if places.len() == 0 {
        Seq::empty()
    } else {
        let before = spawns_among(grid, places.drop_last());
        if grid.tile_at(places.last()).spec_is_floor() && !before.contains(places.last()) {
            before.push(places.last())
        } else {
            before
        }
    }
}

/// Whether a search for spawn points on `grid` that drew the places
/// `places` placed the spawn points `spawns`: every place lies in a leaf;
/// the spawn points are those that the places give, in their order; and the
/// search went on until the spawn point that made `MAX_SPAWNS` was placed,
/// or else until `SPAWN_ATTEMPTS` places were drawn.
pub open spec fn is_spawn_search(
    grid: &TileGrid,
    leaves: Seq<TileRect>,
    places: Seq<TilePos>,
    spawns: Seq<TilePos>,
) -> bool {
    &&& places.len() <= SPAWN_ATTEMPTS
    &&& forall|i: int| 0 <= i < places.len() ==> in_a_leaf(leaves, #[trigger] places[i])
    &&& spawns == spawns_among(grid, places)
    &&& if spawns.len() < MAX_SPAWNS {
        places.len() == SPAWN_ATTEMPTS
    } else {
        places.len() > 0 && spawns_among(grid, places.drop_last()).len() < MAX_SPAWNS
    }
}

/// Whether `p` is a tile of one of `leaves`.
pub open spec fn in_a_leaf(leaves: Seq<TileRect>, p: TilePos) -> bool {
    exists|k: int| 0 <= k < leaves.len() && (#[trigger] leaves[k]).contains(p)
}

/// A generated dungeon: the grid, the rooms in it, and its doors.
pub struct Dungeon {
    pub map: MutMap,
    /// The rectangles of the partition; the rim of each is a hallway.
    pub hallways: Vec<TileRect>,
    /// The rectangles of the rooms, walls included.
    pub rooms: Vec<TileRect>,
    /// For each room, in the order of `rooms`, the places of its doors.
    pub room_doors: Vec<Vec<TilePos>>,
    /// The doors whose path met neither hallway nor room.
    pub loose_doors: Vec<TilePos>,
    /// The spawn points of the player.
    pub spawns: Vec<TilePos>,
}

impl Dungeon {
    /// What holds of every generated dungeon: its grid is well formed and,
    /// with its hallways, rooms, doors and spawn points, a dungeon as
    /// `is_dungeon` says.
    pub open spec fn well_built(&self) -> bool {
        &&& self.map.wf()
        &&& is_dungeon(
            &self.map.map,
            self.hallways@,
            self.rooms@,
            self.room_doors@,
            self.loose_doors@,
            self.spawns@,
        )
    }
}

/// The count of spawn points, if there is one, and else the error of a
/// search that placed none.
pub fn require_spawn(placed: usize) -> (r: Result<usize, GenerateError>)
    ensures
        placed == 0 <==> r == Err::<usize, GenerateError>(GenerateError::NoSpawn),
        placed > 0 <==> r == Ok::<usize, GenerateError>(placed),
{
    if placed == 0 {
        Err(GenerateError::NoSpawn)
    } else {
        Ok(placed)
    }
}

/// Partitions the map rectangle with draws from a generator seeded with
/// `seed`, carves the hallways and builds the rooms. Returns the grid, the
/// rectangles of the partition, its leaves, the rooms and their doors.
fn lay_out(seed: u64) -> (r: Result<
    (MutMap, Vec<TileRect>, Vec<TileRect>, Vec<TileRect>, Vec<Vec<TilePos>>),
    GenerateError,
>)
    ensures
        r is Err ==> r->Err_0 == GenerateError::RoomTooSmall || r->Err_0 == GenerateError::NoDoor,
        r matches Ok(laid) ==> laid.0.wf() && laid_out(
            &laid.0.map,
            laid.1@,
            laid.2@,
            laid.3@,
            laid.4@,
        ),
{
    let mut rng = MapRng::new(seeded_rng(seed));
    let (all_rects, leaves) = partition(rng.as_mut());
    let mut res = MutMap::from_rng(rng);
    res.carve_hallways(&all_rects);
    let ghost carved = res.map;
    let (rooms, room_doors) = match res.build_rooms(&leaves) {
        Ok(built) => built,
        Err(e) => {
            return Err(e);
        },
    };
    proof {
        lemma_stage_built(&carved, &res.map, all_rects@, leaves@, rooms@, room_doors@);
        reveal(laid_out);
    }
    Ok((res, all_rects, leaves, rooms, room_doors))
}

/// Paves the path of every door of a laid-out grid and encloses its
/// floors. Returns the doors whose path met nothing: there are none.
fn pave_and_wall(
    map: &mut MutMap,
    hallways: &Vec<TileRect>,
    leaves: &Vec<TileRect>,
    rooms: &Vec<TileRect>,
    room_doors: &Vec<Vec<TilePos>>,
) -> (loose: Vec<TilePos>)
    requires
        old(map).wf(),
        laid_out(&old(map).map, hallways@, leaves@, rooms@, room_doors@),
    ensures
        final(map).wf(),
        walled_up(&old(map).map, &final(map).map, hallways@, rooms@, room_doors@, loose@),
        floors_enclosed(&final(map).map),
{
    proof {
        lemma_laid_out(&map.map, hallways@, leaves@, rooms@, room_doors@);
    }
    let loose = map.pave_doors(room_doors);
    let ghost paved = map.map;
    map.enclose_floors();
    proof {
        lemma_walled_up(
            &old(map).map,
            &paved,
            &map.map,
            hallways@,
            leaves@,
            rooms@,
            room_doors@,
            loose@,
        );
    }
    loose
}

/// Generates a dungeon from `seed`: the map rectangle is partitioned, the
/// rim of every rectangle of the partition becomes a hallway, every leaf
/// gets a room, every door a path away from its room, every floor walls
/// around it, and up to `MAX_SPAWNS` floors become spawn points.
///
/// Fails with `RoomTooSmall` or `NoDoor` where a room could not be built,
/// and with `NoSpawn` where no place drawn for a spawn point was a floor.
pub fn generate_dungeon(seed: u64) -> (r: Result<Dungeon, GenerateError>)
    ensures
        r matches Ok(dungeon) ==> dungeon.well_built(),
{
    let (mut res, hallways, leaves, rooms, room_doors) = match lay_out(seed) {
        Ok(laid) => laid,
        Err(e) => {
            return Err(e);
        },
    };
    let ghost built = res.map;
    let loose_doors = pave_and_wall(&mut res, &hallways, &leaves, &rooms, &room_doors);
    let ghost walled = res.map;
    proof {
        lemma_laid_out(&built, hallways@, leaves@, rooms@, room_doors@);
    }
    let spawns = res.place_spawns(&leaves);
    match require_spawn(spawns.len()) {
        Ok(_) => {},
        Err(e) => {
            return Err(e);
        },
    }
    proof {
        let places = choose|places: Seq<TilePos>| #[trigger]
            is_spawn_search(&walled, leaves@, places, spawns@);
        lemma_finish(
            &built,
            &walled,
            &res.map,
            hallways@,
            leaves@,
            rooms@,
            room_doors@,
            loose_doors@,
            spawns@,
            places,
        );
    }
    Ok(Dungeon { map: res, hallways, rooms, room_doors, loose_doors, spawns })
}

/// Generates the grid of a dungeon from `seed`: the grid of the dungeon that
/// `generate_dungeon` generates from it, and its failures.
pub fn generate_map(seed: u64) -> (r: Result<MutMap, GenerateError>)
    ensures
        r matches Ok(map) ==> exists|dungeon: Dungeon| #[trigger]
            dungeon.well_built() && dungeon.map == map,
{
    match generate_dungeon(seed) {
        Ok(dungeon) => {
            proof {
                assert(dungeon.well_built() && dungeon.map == dungeon.map);
            }
            Ok(dungeon.map)
        },
        Err(e) => Err(e),
    }
}

} // verus!
