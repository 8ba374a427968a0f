//! What holds of the grid between the steps of the generator, and why each
//! step keeps it.

use crate::carve::{
    floor_beside, path_set, path_tile, spawn_landmark, spawned, spec_paving_direction,
    steps_to_obstacle,
};
use crate::carve::{built_on, floors_enclosed, lemma_built_on_gentle, rims_of};
use crate::generate::{
    all_doors_stand, all_rooms_kept, are_leaves, door_stands, doors_in_order, doors_pavable,
    hallways_kept, in_a_room, is_door_paving, is_paved_from, is_paving, lemma_all_doors_kept,
    lemma_all_rooms_kept, lemma_gentle_keeps_structures, lemma_hallways_kept, loose_among,
    paving_fits, paving_steps, room_doors_stand, room_kept, room_kept_as, rooms_in_leaves,
    PAVING_LIMIT,
};
use crate::partition::interiors_apart;
use crate::grid::{lemma_used_rect_unique, TileGrid};
use crate::partition::{rect_within, spec_map_rect, MAP_RADIUS};
use crate::pos::{Direction, TilePos};
use crate::rect::TileRect;
use crate::room::{floor_cell, floor_tile, room_cell, wall_tile};
use crate::tile::{Landmark, TilePair, Tileset};
use vstd::prelude::*;

verus! {

/// The map rectangle widened by the ring of wall around it.
pub open spec fn spec_ring() -> TileRect {
    TileRect {
        min: TilePos { x: (-MAP_RADIUS - 1) as i32, y: (-MAP_RADIUS - 1) as i32 },
        max: TilePos { x: (MAP_RADIUS + 1) as i32, y: (MAP_RADIUS + 1) as i32 },
    }
}

/// The cell of the wall that encloses floors: rock wall set on a blank cell.
pub open spec fn rock_wall_cell() -> TilePair {
    TilePair::spec_blank().after_set(wall_tile(Tileset::Rock))
}

/// Whether the cell is blank or bare hallway floor.
pub open spec fn is_plain(cell: TilePair) -> bool {
    cell == TilePair::spec_blank() || cell == floor_cell(Tileset::Rock)
}

/// Whether no cell of `grid` holds a spawn point.
pub open spec fn no_spawns(grid: &TileGrid) -> bool {
    forall|p: TilePos| (#[trigger] grid.tile_at(p)).foreground.ty != spawn_landmark()
}

/// Whether every room lies in the map rectangle, at least three tiles off
/// its rim.
pub open spec fn rooms_placed(rooms: Seq<TileRect>) -> bool {
    forall|k: int|
        0 <= k < rooms.len() ==> {
            let room = #[trigger] rooms[k];
            &&& room.sorted()
            &&& -MAP_RADIUS + 3 <= room.min.x && room.max.x <= MAP_RADIUS - 3
            &&& -MAP_RADIUS + 3 <= room.min.y && room.max.y <= MAP_RADIUS - 3
        }
}

/// What holds of the grid from the building of the rooms to the paving of
/// the last path: the rooms stand as they were built; outside them there is
/// nothing but blank cells and bare hallway floor; the rim of the map
/// rectangle is hallway floor, and nothing lies outside it.
pub open spec fn paving_state(
    grid: &TileGrid,
    rooms: Seq<TileRect>,
    room_doors: Seq<Vec<TilePos>>,
) -> bool {
    &&& all_rooms_kept(grid, rooms, room_doors)
    &&& no_spawns(grid)
    &&& forall|p: TilePos|
        !in_a_room(rooms, rooms.len() as int, p) ==> is_plain(#[trigger] grid.tile_at(p))
    &&& forall|p: TilePos|
        !spec_map_rect().contains(p) ==> #[trigger] grid.tile_at(p) == TilePair::spec_blank()
    &&& forall|p: TilePos|
        spec_map_rect().on_border(p) ==> #[trigger] grid.tile_at(p) == floor_cell(Tileset::Rock)
}

/// Whether `after` is `before` with rock wall set on every empty tile that
/// has a floor on one of the eight tiles around it.
pub open spec fn is_enclosed_of(before: &TileGrid, after: &TileGrid) -> bool {
    forall|p: TilePos| #[trigger]
        after.tile_at(p) == if before.tile_at(p).spec_is_empty() && floor_beside(before, p) {
            before.tile_at(p).after_set(wall_tile(Tileset::Rock))
        } else {
            before.tile_at(p)
        }
}

/// Whether `after` is `before` with a spawn point put on each of `spawns`.
pub open spec fn is_spawned_of(before: &TileGrid, after: &TileGrid, spawns: Seq<TilePos>) -> bool {
    forall|p: TilePos| #[trigger]
        after.tile_at(p) == if spawns.contains(p) {
            spawned(before.tile_at(p))
        } else {
            before.tile_at(p)
        }
}

/// What holds of the grid once the floors are enclosed: the rooms stand as
/// they were built; outside them there is nothing but blank cells, bare
/// hallway floor and rock wall; the map rectangle has a ring of rock wall
/// around it, and nothing lies outside the ring.
pub open spec fn walled_state(
    grid: &TileGrid,
    rooms: Seq<TileRect>,
    room_doors: Seq<Vec<TilePos>>,
) -> bool {
    &&& all_rooms_kept(grid, rooms, room_doors)
    &&& no_spawns(grid)
    &&& forall|p: TilePos|
        !in_a_room(rooms, rooms.len() as int, p) ==> is_plain(#[trigger] grid.tile_at(p))
            || grid.tile_at(p) == rock_wall_cell()
    &&& forall|p: TilePos|
        !spec_ring().contains(p) ==> #[trigger] grid.tile_at(p) == TilePair::spec_blank()
    &&& forall|p: TilePos|
        spec_ring().on_border(p) ==> #[trigger] grid.tile_at(p) == rock_wall_cell()
}

/// Whether the cell is one that a finished dungeon holds outside its
/// rooms: blank, hallway floor bare or with a spawn point, or rock wall.
pub open spec fn is_outside_cell(cell: TilePair) -> bool {
    ||| cell == TilePair::spec_blank()
    ||| cell == floor_cell(Tileset::Rock)
    ||| cell == spawned(floor_cell(Tileset::Rock))
    ||| cell == rock_wall_cell()
}

/// What holds of the grid of a finished dungeon, besides its rooms: outside
/// the rooms every cell is whole; the map rectangle has a ring of rock wall
/// around it, nothing lies outside the ring, and the ring is the used
/// rectangle; the layers of every cell are in order and no cell is plucked;
/// a cell holds a spawn point if and only if `spawns` lists it; and none of
/// the tiles around a spawn point is empty.
pub open spec fn finished_state(grid: &TileGrid, rooms: Seq<TileRect>, spawns: Seq<TilePos>) -> bool {
    &&& forall|p: TilePos|
        !in_a_room(rooms, rooms.len() as int, p) ==> is_outside_cell(#[trigger] grid.tile_at(p))
    &&& forall|p: TilePos|
        !spec_ring().contains(p) ==> #[trigger] grid.tile_at(p) == TilePair::spec_blank()
    &&& forall|p: TilePos|
        spec_ring().on_border(p) ==> #[trigger] grid.tile_at(p) == rock_wall_cell()
    &&& grid.is_used_rect(spec_ring())
    &&& grid.spec_used_rect() == spec_ring()
    &&& forall|p: TilePos|
        (#[trigger] grid.tile_at(p)).layers_in_order() && !grid.tile_at(p).plucked
    &&& forall|p: TilePos|
        (#[trigger] grid.tile_at(p)).foreground.ty == spawn_landmark() <==> spawns.contains(p)
    &&& forall|i: int, q: TilePos|
        0 <= i < spawns.len() && (#[trigger] spawns[i]).moore_adjacent(q) ==> !(
        #[trigger] grid.tile_at(q)).spec_is_empty()
}

/// The tiles of a path are empty on the grid that the path is counted on,
/// and the tile that ends it short of the limit is not.
pub proof fn lemma_steps(grid: &TileGrid, pos: TilePos, dir: Direction, from: int, limit: int)
    requires
        from <= limit,
    ensures
        from <= steps_to_obstacle(grid, pos, dir, from, limit) <= limit,
        forall|k: int|
            from <= k < steps_to_obstacle(grid, pos, dir, from, limit) ==> (#[trigger] grid.tile_at(
                path_tile(pos, dir, k),
            )).spec_is_empty(),
        steps_to_obstacle(grid, pos, dir, from, limit) < limit ==> !grid.tile_at(
            path_tile(pos, dir, steps_to_obstacle(grid, pos, dir, from, limit)),
        ).spec_is_empty(),
    decreases limit - from,
{
    if from < limit && grid.tile_at(path_tile(pos, dir, from)).spec_is_empty() {
        lemma_steps(grid, pos, dir, from + 1, limit);
    }
}

/// A path ends at the latest where something lies in its way.
pub proof fn lemma_steps_bounded(
    grid: &TileGrid,
    pos: TilePos,
    dir: Direction,
    from: int,
    limit: int,
    at: int,
)
    requires
        from <= at < limit,
        !grid.tile_at(path_tile(pos, dir, at)).spec_is_empty(),
    ensures
        steps_to_obstacle(grid, pos, dir, from, limit) <= at,
    decreases at - from,
{
    if from < at && grid.tile_at(path_tile(pos, dir, from)).spec_is_empty() {
        lemma_steps_bounded(grid, pos, dir, from + 1, limit, at);
    }
}

/// No cell of a room that is kept is empty.
pub proof fn lemma_room_used(grid: &TileGrid, rect: TileRect, doors: Seq<TilePos>)
    requires
        room_kept(grid, rect, doors),
    ensures
        forall|p: TilePos| rect.contains(p) ==> !(#[trigger] grid.tile_at(p)).spec_is_empty(),
{
    let (tileset, shrine, kind, flip) = choose|
        tileset: Tileset,
        shrine: TilePos,
        kind: Landmark,
        flip: bool,
    |
        {
            &&& #[trigger] room_kept_as(grid, rect, doors, tileset, shrine, kind, flip)
            &&& rect.contains(shrine) && !rect.on_border(shrine)
            &&& kind == Landmark::ShrineIdol || kind == Landmark::ShrineSkulls
        };
    assert forall|p: TilePos| rect.contains(p) implies !(#[trigger] grid.tile_at(
        p,
    )).spec_is_empty() by {
        let cell = room_cell(rect, doors, tileset, shrine, kind, flip, p);
        assert(grid.tile_at(p) == cell || (cell == floor_cell(tileset) && grid.tile_at(p)
            == spawned(cell)));
    }
}

/// No cell of any room that is kept is empty.
pub proof fn lemma_rooms_used(grid: &TileGrid, rooms: Seq<TileRect>, room_doors: Seq<Vec<TilePos>>)
    requires
        all_rooms_kept(grid, rooms, room_doors),
    ensures
        forall|p: TilePos|
            in_a_room(rooms, rooms.len() as int, p) ==> !(#[trigger] grid.tile_at(
                p,
            )).spec_is_empty(),
{
    assert forall|p: TilePos| in_a_room(rooms, rooms.len() as int, p) implies !(
    #[trigger] grid.tile_at(p)).spec_is_empty() by {
        let k = choose|k: int| 0 <= k < rooms.len() && (#[trigger] rooms[k]).contains(p);
        lemma_room_used(grid, rooms[k], room_doors[k]@);
    }
}

/// Where a path that leaves `door` along an axis meets the rim of the map
/// rectangle.
pub open spec fn steps_to_rim(door: TilePos, dir: Direction) -> int {
    if dir == Direction::East {
        MAP_RADIUS - door.x
    } else if dir == Direction::West {
        door.x + MAP_RADIUS
    } else if dir == Direction::South {
        MAP_RADIUS - door.y
    } else {
        door.y + MAP_RADIUS
    }
}

/// The tiles of a path along an axis from a door inside the map rectangle,
/// up to the rim of the rectangle, lie in it, and the last of them on its
/// rim.
pub proof fn lemma_ray(door: TilePos, dir: Direction, k: int)
    requires
        dir == Direction::East || dir == Direction::West || dir == Direction::South || dir
            == Direction::North,
        -MAP_RADIUS < door.x < MAP_RADIUS,
        -MAP_RADIUS < door.y < MAP_RADIUS,
        1 <= k <= steps_to_rim(door, dir),
    ensures
        spec_map_rect().contains(path_tile(door, dir, k)),
        k == steps_to_rim(door, dir) ==> spec_map_rect().on_border(path_tile(door, dir, k)),
{
    assert(k * 1 == k && k * 0 == 0 && k * (-1) == -k) by (nonlinear_arith);
}

/// The path of a door inside the map rectangle meets something before the
/// limit, at the latest the hallway on the rim of the rectangle; its tiles
/// are empty and lie inside the rectangle, off its rim.
pub proof fn lemma_path_inside(before: &TileGrid, door: TilePos)
    requires
        forall|p: TilePos|
            spec_map_rect().on_border(p) ==> !(#[trigger] before.tile_at(p)).spec_is_empty(),
        -MAP_RADIUS < door.x < MAP_RADIUS,
        -MAP_RADIUS < door.y < MAP_RADIUS,
    ensures
        paving_steps(before, door) < PAVING_LIMIT,
        forall|p: TilePos|
            #[trigger] path_set(
                door,
                spec_paving_direction(before, door),
                paving_steps(before, door),
            ).contains(p) ==> before.tile_at(p).spec_is_empty() && spec_map_rect().contains(p)
                && !spec_map_rect().on_border(p),
{
    let dir = spec_paving_direction(before, door);
    let steps = paving_steps(before, door);
    let rim = steps_to_rim(door, dir);
    lemma_ray(door, dir, rim);
    assert(!before.tile_at(path_tile(door, dir, rim)).spec_is_empty());
    lemma_steps_bounded(before, door, dir, 1, PAVING_LIMIT as int, rim);
    lemma_steps(before, door, dir, 1, PAVING_LIMIT as int);
    let path = path_set(door, dir, steps);
    assert forall|p: TilePos| #[trigger] path.contains(p) implies before.tile_at(p).spec_is_empty()
        && spec_map_rect().contains(p) && !spec_map_rect().on_border(p) by {
        let k = choose|k: int| 1 <= k < steps && p == #[trigger] path_tile(door, dir, k);
        lemma_ray(door, dir, k);
        assert(before.tile_at(path_tile(door, dir, k)).spec_is_empty());
    }
}

/// Setting hallway floor on empty tiles inside the map rectangle keeps the
/// state of the grid.
pub proof fn lemma_paved_state(
    before: &TileGrid,
    after: &TileGrid,
    rooms: Seq<TileRect>,
    room_doors: Seq<Vec<TilePos>>,
    path: Set<TilePos>,
)
    requires
        paving_state(before, rooms, room_doors),
        forall|p: TilePos|
            #[trigger] path.contains(p) ==> before.tile_at(p).spec_is_empty()
                && spec_map_rect().contains(p),
        forall|p: TilePos| #[trigger]
            after.tile_at(p) == if path.contains(p) {
                before.tile_at(p).after_set(floor_tile(Tileset::Rock))
            } else {
                before.tile_at(p)
            },
    ensures
        paving_state(after, rooms, room_doors),
{
    lemma_rooms_used(before, rooms, room_doors);
    assert forall|k: int| 0 <= k < rooms.len() implies room_kept(
        after,
        #[trigger] rooms[k],
        room_doors[k]@,
    ) by {
        assert forall|p: TilePos| rooms[k].contains(p) implies #[trigger] after.tile_at(p)
            == before.tile_at(p) by {
            assert(in_a_room(rooms, rooms.len() as int, p));
            assert(!before.tile_at(p).spec_is_empty());
        }
        crate::generate::lemma_room_untouched(before, after, rooms[k], room_doors[k]@);
    }
    assert forall|p: TilePos| (#[trigger] after.tile_at(p)).foreground.ty != spawn_landmark() by {
        assert(before.tile_at(p).foreground.ty != spawn_landmark());
    }
    assert forall|p: TilePos| !in_a_room(rooms, rooms.len() as int, p) implies is_plain(
        #[trigger] after.tile_at(p),
    ) by {
        assert(is_plain(before.tile_at(p)));
    }
    assert forall|p: TilePos| !spec_map_rect().contains(p) implies #[trigger] after.tile_at(p)
        == TilePair::spec_blank() by {
        assert(before.tile_at(p) == TilePair::spec_blank());
    }
    assert forall|p: TilePos| spec_map_rect().on_border(p) implies #[trigger] after.tile_at(p)
        == floor_cell(Tileset::Rock) by {
        assert(before.tile_at(p) == floor_cell(Tileset::Rock));
    }
}

/// Paving the path of a door keeps the state of the grid, and the path
/// meets something before the limit.
pub proof fn lemma_paved_step(
    before: &TileGrid,
    after: &TileGrid,
    rooms: Seq<TileRect>,
    room_doors: Seq<Vec<TilePos>>,
    door: TilePos,
)
    requires
        paving_state(before, rooms, room_doors),
        -MAP_RADIUS < door.x < MAP_RADIUS,
        -MAP_RADIUS < door.y < MAP_RADIUS,
        is_paved_from(before, after, door),
    ensures
        paving_state(after, rooms, room_doors),
        paving_steps(before, door) < PAVING_LIMIT,
{
    assert forall|p: TilePos| spec_map_rect().on_border(p) implies !(#[trigger] before.tile_at(
        p,
    )).spec_is_empty() by {
        assert(before.tile_at(p) == floor_cell(Tileset::Rock));
    }
    lemma_path_inside(before, door);
    lemma_paved_state(
        before,
        after,
        rooms,
        room_doors,
        path_set(door, spec_paving_direction(before, door), paving_steps(before, door)),
    );
}

/// Paving the paths of doors inside the map rectangle, one after the other,
/// keeps the state of the grid, and leaves no door loose.
pub proof fn lemma_paving_keeps(
    grids: Seq<TileGrid>,
    doors: Seq<TilePos>,
    rooms: Seq<TileRect>,
    room_doors: Seq<Vec<TilePos>>,
    n: int,
)
    requires
        is_paving(grids, doors),
        paving_state(&grids[0], rooms, room_doors),
        forall|k: int|
            0 <= k < doors.len() ==> -MAP_RADIUS < (#[trigger] doors[k]).x < MAP_RADIUS
                && -MAP_RADIUS < doors[k].y < MAP_RADIUS,
        0 <= n <= doors.len(),
    ensures
        paving_state(&grids[n], rooms, room_doors),
        loose_among(grids, doors, n) == Seq::<TilePos>::empty(),
    decreases n,
{
    if n > 0 {
        lemma_paving_keeps(grids, doors, rooms, room_doors, n - 1);
        assert(is_paved_from(&grids[n - 1], &grids[n - 1 + 1], doors[n - 1]));
        lemma_paved_step(&grids[n - 1], &grids[n], rooms, room_doors, doors[n - 1]);
    }
}

/// The layers of every cell of a room that is kept are in order, and none
/// of its cells is plucked.
pub proof fn lemma_room_layers(grid: &TileGrid, rect: TileRect, doors: Seq<TilePos>)
    requires
        room_kept(grid, rect, doors),
    ensures
        forall|p: TilePos|
            rect.contains(p) ==> (#[trigger] grid.tile_at(p)).layers_in_order() && !grid.tile_at(
                p,
            ).plucked,
{
    let (tileset, shrine, kind, flip) = choose|
        tileset: Tileset,
        shrine: TilePos,
        kind: Landmark,
        flip: bool,
    |
        {
            &&& #[trigger] room_kept_as(grid, rect, doors, tileset, shrine, kind, flip)
            &&& rect.contains(shrine) && !rect.on_border(shrine)
            &&& kind == Landmark::ShrineIdol || kind == Landmark::ShrineSkulls
        };
    assert forall|p: TilePos| rect.contains(p) implies (#[trigger] grid.tile_at(
        p,
    )).layers_in_order() && !grid.tile_at(p).plucked by {
        let cell = room_cell(rect, doors, tileset, shrine, kind, flip, p);
        assert(grid.tile_at(p) == cell || (cell == floor_cell(tileset) && grid.tile_at(p)
            == spawned(cell)));
    }
}

/// The tile of the map rectangle that lies nearest to `p`.
pub open spec fn nearest_in_map(p: TilePos) -> TilePos {
    TilePos {
        x: if p.x < -MAP_RADIUS {
            (-MAP_RADIUS) as i32
        } else if p.x > MAP_RADIUS {
            MAP_RADIUS
        } else {
            p.x
        },
        y: if p.y < -MAP_RADIUS {
            (-MAP_RADIUS) as i32
        } else if p.y > MAP_RADIUS {
            MAP_RADIUS
        } else {
            p.y
        },
    }
}

/// Enclosing the floors of a grid whose paths are paved puts a ring of rock
/// wall around the map rectangle and nothing outside the ring, and leaves
/// the rooms as they are.
pub proof fn lemma_walled(
    paved: &TileGrid,
    walled: &TileGrid,
    rooms: Seq<TileRect>,
    room_doors: Seq<Vec<TilePos>>,
)
    requires
        paving_state(paved, rooms, room_doors),
        is_enclosed_of(paved, walled),
    ensures
        walled_state(walled, rooms, room_doors),
{
    lemma_rooms_used(paved, rooms, room_doors);
    assert forall|p: TilePos|
        #[trigger] walled.tile_at(p) == paved.tile_at(p) || (paved.tile_at(p).spec_is_empty()
            && floor_beside(paved, p) && walled.tile_at(p) == paved.tile_at(p).after_set(
            wall_tile(Tileset::Rock),
        )) by {
        assert(walled.tile_at(p) == if paved.tile_at(p).spec_is_empty() && floor_beside(paved, p) {
            paved.tile_at(p).after_set(wall_tile(Tileset::Rock))
        } else {
            paved.tile_at(p)
        });
    }
    assert forall|k: int| 0 <= k < rooms.len() implies room_kept(
        walled,
        #[trigger] rooms[k],
        room_doors[k]@,
    ) by {
        assert forall|p: TilePos| rooms[k].contains(p) implies #[trigger] walled.tile_at(p)
            == paved.tile_at(p) by {
            assert(in_a_room(rooms, rooms.len() as int, p));
            assert(!paved.tile_at(p).spec_is_empty());
        }
        crate::generate::lemma_room_untouched(paved, walled, rooms[k], room_doors[k]@);
    }
    assert forall|p: TilePos| (#[trigger] walled.tile_at(p)).foreground.ty != spawn_landmark() by {
        assert(paved.tile_at(p).foreground.ty != spawn_landmark());
    }
    assert forall|p: TilePos| !in_a_room(rooms, rooms.len() as int, p) implies is_plain(
        #[trigger] walled.tile_at(p),
    ) || walled.tile_at(p) == rock_wall_cell() by {
        assert(is_plain(paved.tile_at(p)));
    }
    assert forall|p: TilePos| !spec_ring().contains(p) implies #[trigger] walled.tile_at(p)
        == TilePair::spec_blank() by {
        assert(paved.tile_at(p) == TilePair::spec_blank());
        if floor_beside(paved, p) {
            let q = choose|q: TilePos| #[trigger]
                q.moore_adjacent(p) && paved.tile_at(q).spec_is_floor();
            assert(paved.tile_at(q) == TilePair::spec_blank());
        }
    }
    assert forall|p: TilePos| spec_ring().on_border(p) implies #[trigger] walled.tile_at(p)
        == rock_wall_cell() by {
        assert(paved.tile_at(p) == TilePair::spec_blank());
        let q = nearest_in_map(p);
        assert(spec_map_rect().on_border(q));
        assert(paved.tile_at(q) == floor_cell(Tileset::Rock));
        assert(q.moore_adjacent(p) && paved.tile_at(q).spec_is_floor());
    }
}

/// Putting spawn points on floors of a grid whose floors are enclosed
/// gives a finished grid.
pub proof fn lemma_finished(
    walled: &TileGrid,
    finished: &TileGrid,
    rooms: Seq<TileRect>,
    room_doors: Seq<Vec<TilePos>>,
    spawns: Seq<TilePos>,
)
    requires
        walled_state(walled, rooms, room_doors),
        crate::carve::floors_enclosed(walled),
        is_spawned_of(walled, finished, spawns),
        forall|i: int| 0 <= i < spawns.len() ==> walled.tile_at(#[trigger] spawns[i]).spec_is_floor(),
        all_rooms_kept(finished, rooms, room_doors),
    ensures
        finished_state(finished, rooms, spawns),
{
    assert forall|p: TilePos|
        #[trigger] finished.tile_at(p) == walled.tile_at(p) || (walled.tile_at(p).spec_is_floor()
            && spawns.contains(p) && finished.tile_at(p) == spawned(walled.tile_at(p))) by {
        assert(finished.tile_at(p) == if spawns.contains(p) {
            spawned(walled.tile_at(p))
        } else {
            walled.tile_at(p)
        });
        if spawns.contains(p) {
            let i = choose|i: int| 0 <= i < spawns.len() && spawns[i] == p;
            assert(walled.tile_at(spawns[i]).spec_is_floor());
        }
    }
    assert forall|p: TilePos| !in_a_room(rooms, rooms.len() as int, p) implies is_outside_cell(
        #[trigger] finished.tile_at(p),
    ) by {
        assert(is_plain(walled.tile_at(p)) || walled.tile_at(p) == rock_wall_cell());
    }
    assert forall|p: TilePos| !spec_ring().contains(p) implies #[trigger] finished.tile_at(p)
        == TilePair::spec_blank() by {
        assert(walled.tile_at(p) == TilePair::spec_blank());
    }
    assert forall|p: TilePos| spec_ring().on_border(p) implies #[trigger] finished.tile_at(p)
        == rock_wall_cell() by {
        assert(walled.tile_at(p) == rock_wall_cell());
    }
    assert forall|p: TilePos|
        (#[trigger] finished.tile_at(p)).layers_in_order() && !finished.tile_at(p).plucked by {
        if in_a_room(rooms, rooms.len() as int, p) {
            let k = choose|k: int| 0 <= k < rooms.len() && (#[trigger] rooms[k]).contains(p);
            lemma_room_layers(finished, rooms[k], room_doors[k]@);
        } else {
            assert(is_outside_cell(finished.tile_at(p)));
        }
    }
    assert forall|p: TilePos|
        (#[trigger] finished.tile_at(p)).foreground.ty == spawn_landmark() <==> spawns.contains(
            p,
        ) by {
        assert(walled.tile_at(p).foreground.ty != spawn_landmark());
    }
    assert forall|i: int, q: TilePos|
        0 <= i < spawns.len() && (#[trigger] spawns[i]).moore_adjacent(q) implies !(
    #[trigger] finished.tile_at(q)).spec_is_empty() by {
        assert(walled.tile_at(spawns[i]).spec_is_floor());
        assert(!walled.tile_at(q).spec_is_empty());
    }
    lemma_ring_used(finished);
}

/// A grid with a ring of rock wall and nothing outside it has the ring as
/// its used rectangle.
pub proof fn lemma_ring_used(grid: &TileGrid)
    requires
        forall|p: TilePos|
            !spec_ring().contains(p) ==> #[trigger] grid.tile_at(p) == TilePair::spec_blank(),
        forall|p: TilePos|
            spec_ring().on_border(p) ==> #[trigger] grid.tile_at(p) == rock_wall_cell(),
    ensures
        grid.is_used_rect(spec_ring()),
        grid.spec_used_rect() == spec_ring(),
{
    let ring = spec_ring();
    assert(ring.on_border(ring.min) && ring.on_border(ring.max));
    assert(grid.tile_at(ring.min) == rock_wall_cell());
    assert(grid.tile_at(ring.max) == rock_wall_cell());
    assert(grid.used(ring.min) && grid.used(ring.max));
    assert(grid.any_used());
    assert forall|p: TilePos| #[trigger] grid.used(p) implies ring.contains(p) by {
        if !ring.contains(p) {
            assert(grid.tile_at(p) == TilePair::spec_blank());
        }
    }
    assert(grid.is_used_rect(ring));
    lemma_used_rect_unique(*grid, ring, grid.spec_used_rect());
}

/// Whether `grid` is the grid with its hallways carved and its rooms built:
/// the state in which paving starts, and outside the rooms exactly the rims
/// of `hallways` are paved.
pub open spec fn is_built(
    grid: &TileGrid,
    hallways: Seq<TileRect>,
    rooms: Seq<TileRect>,
    room_doors: Seq<Vec<TilePos>>,
) -> bool {
    &&& paving_state(grid, rooms, room_doors)
    &&& forall|p: TilePos|
        !in_a_room(rooms, rooms.len() as int, p) ==> #[trigger] grid.tile_at(p) == if rims_of(
            hallways,
            hallways.len() as int,
        ).contains(p) {
            floor_cell(Tileset::Rock)
        } else {
            TilePair::spec_blank()
        }
}

/// Rooms built into the leaves of a partition whose rims are paved give a
/// built grid: the rims stay paved, the rooms share no tile and lie off the
/// rim of the map rectangle.
pub proof fn lemma_stage_built(
    carved: &TileGrid,
    built: &TileGrid,
    hallways: Seq<TileRect>,
    leaves: Seq<TileRect>,
    rooms: Seq<TileRect>,
    room_doors: Seq<Vec<TilePos>>,
)
    requires
        forall|p: TilePos|
            #[trigger] carved.tile_at(p) == if rims_of(hallways, hallways.len() as int).contains(
                p,
            ) {
                floor_cell(Tileset::Rock)
            } else {
                TilePair::spec_blank()
            },
        hallways.len() > 0,
        hallways[0] == spec_map_rect(),
        forall|k: int|
            0 <= k < hallways.len() ==> (#[trigger] hallways[k]).sorted() && rect_within(
                hallways[k],
                spec_map_rect(),
            ),
        are_leaves(leaves),
        rooms.len() == leaves.len(),
        rooms_in_leaves(rooms, leaves, leaves.len() as int),
        forall|i: int, j: int|
            0 <= i < hallways.len() && 0 <= j < leaves.len() ==> rect_within(
                #[trigger] leaves[j],
                #[trigger] hallways[i],
            ) || interiors_apart(hallways[i], leaves[j]),
        forall|p: TilePos|
            !in_a_room(rooms, rooms.len() as int, p) ==> #[trigger] built.tile_at(p)
                == carved.tile_at(p),
        forall|p: TilePos|
            in_a_room(rooms, rooms.len() as int, p) ==> (#[trigger] built.tile_at(
                p,
            )).foreground.ty != spawn_landmark(),
        all_rooms_kept(built, rooms, room_doors),
    ensures
        is_built(built, hallways, rooms, room_doors),
        hallways_kept(built, hallways),
        rooms_placed(rooms),
        forall|i: int, j: int|
            0 <= i < j < rooms.len() ==> rooms_apart(#[trigger] rooms[i], #[trigger] rooms[j]),
{
    assert forall|k: int| 0 <= k < rooms.len() implies ({
        let room = #[trigger] rooms[k];
        &&& room.sorted()
        &&& -MAP_RADIUS + 3 <= room.min.x && room.max.x <= MAP_RADIUS - 3
        &&& -MAP_RADIUS + 3 <= room.min.y && room.max.y <= MAP_RADIUS - 3
    }) by {
        assert(rect_within(leaves[k], spec_map_rect()));
    }
    assert forall|i: int, j: int| 0 <= i < j < rooms.len() implies rooms_apart(
        #[trigger] rooms[i],
        #[trigger] rooms[j],
    ) by {
        assert(interiors_apart(leaves[i], leaves[j]));
    }
    assert forall|k: int, p: TilePos|
        0 <= k < hallways.len() && #[trigger] hallways[k].on_border(p) implies !in_a_room(
        rooms,
        rooms.len() as int,
        p,
    ) && rims_of(hallways, hallways.len() as int).contains(p) by {
        let hall = hallways[k];
        assert(TileRect::spec_new(hall.min, hall.max) == hall);
        if in_a_room(rooms, rooms.len() as int, p) {
            let r = choose|r: int| 0 <= r < rooms.len() && (#[trigger] rooms[r]).contains(p);
            assert(rect_within(leaves[r], hall) || interiors_apart(hall, leaves[r]));
        }
    }
    assert forall|k: int, p: TilePos|
        0 <= k < hallways.len() && (#[trigger] hallways[k]).on_border(
            p,
        ) implies #[trigger] built.tile_at(p) == floor_cell(Tileset::Rock) || built.tile_at(p)
        == spawned(floor_cell(Tileset::Rock)) by {
        assert(hallways[k].on_border(p));
        assert(built.tile_at(p) == carved.tile_at(p));
    }
    assert forall|p: TilePos| (#[trigger] built.tile_at(p)).foreground.ty != spawn_landmark() by {
        if !in_a_room(rooms, rooms.len() as int, p) {
            assert(built.tile_at(p) == carved.tile_at(p));
        }
    }
    assert forall|p: TilePos| !in_a_room(rooms, rooms.len() as int, p) implies is_plain(
        #[trigger] built.tile_at(p),
    ) by {
        assert(built.tile_at(p) == carved.tile_at(p));
    }
    assert forall|p: TilePos| !spec_map_rect().contains(p) implies #[trigger] built.tile_at(p)
        == TilePair::spec_blank() by {
        if in_a_room(rooms, rooms.len() as int, p) {
            let r = choose|r: int| 0 <= r < rooms.len() && (#[trigger] rooms[r]).contains(p);
            assert(rooms[r].sorted());
        }
        assert(built.tile_at(p) == carved.tile_at(p));
        if rims_of(hallways, hallways.len() as int).contains(p) {
            let k = choose|k: int|
                0 <= k < hallways.len() && TileRect::spec_new(
                    (#[trigger] hallways[k]).min,
                    hallways[k].max,
                ).on_border(p);
            assert(TileRect::spec_new(hallways[k].min, hallways[k].max) == hallways[k]);
            assert(rect_within(hallways[k], spec_map_rect()));
        }
    }
    assert forall|p: TilePos| spec_map_rect().on_border(p) implies #[trigger] built.tile_at(p)
        == floor_cell(Tileset::Rock) by {
        assert(hallways[0].on_border(p));
        assert(built.tile_at(p) == carved.tile_at(p));
    }
    assert forall|p: TilePos|
        !in_a_room(rooms, rooms.len() as int, p) implies #[trigger] built.tile_at(p) == if rims_of(
        hallways,
        hallways.len() as int,
    ).contains(p) {
        floor_cell(Tileset::Rock)
    } else {
        TilePair::spec_blank()
    } by {
        assert(built.tile_at(p) == carved.tile_at(p));
    }
}

/// The doors of rooms that lie off the rim of the map rectangle lie inside
/// it.
pub proof fn lemma_doors_inside(
    grid: &TileGrid,
    rooms: Seq<TileRect>,
    room_doors: Seq<Vec<TilePos>>,
    upto: int,
    doors: int,
)
    requires
        all_doors_stand(grid, rooms, room_doors),
        rooms_placed(rooms),
        0 <= upto <= rooms.len(),
        0 <= doors,
        upto < rooms.len() ==> doors <= room_doors[upto]@.len(),
        upto == rooms.len() ==> doors == 0,
    ensures
        forall|k: int|
            0 <= k < doors_in_order(room_doors, upto, doors).len() ==> -MAP_RADIUS < (
            #[trigger] doors_in_order(room_doors, upto, doors)[k]).x < MAP_RADIUS && -MAP_RADIUS
                < doors_in_order(room_doors, upto, doors)[k].y < MAP_RADIUS,
    decreases upto, doors,
{
    if doors > 0 {
        lemma_doors_inside(grid, rooms, room_doors, upto, doors - 1);
        let door = room_doors[upto]@[doors - 1];
        let before = doors_in_order(room_doors, upto, doors - 1);
        let all = doors_in_order(room_doors, upto, doors);
        assert(all == before.push(door));
        assert(crate::generate::room_doors_stand(grid, rooms[upto], room_doors[upto]@));
        assert(rooms[upto].on_border(door));
        assert(rooms[upto].sorted());
        assert forall|k: int| 0 <= k < all.len() implies -MAP_RADIUS < (#[trigger] all[k]).x
            < MAP_RADIUS && -MAP_RADIUS < all[k].y < MAP_RADIUS by {
            if k < before.len() {
                assert(all[k] == before[k]);
            }
        }
    } else if upto > 0 {
        lemma_doors_inside(
            grid,
            rooms,
            room_doors,
            upto - 1,
            room_doors[upto - 1]@.len() as int,
        );
        assert(doors_in_order(room_doors, upto, doors) == doors_in_order(
            room_doors,
            upto - 1,
            room_doors[upto - 1]@.len() as int,
        ));
    } else {
        assert(doors_in_order(room_doors, upto, doors).len() == 0);
    }
}

/// Paving the paths of all doors of a built grid keeps its state and its
/// hallways, and leaves no door loose.
pub proof fn lemma_stage_paved(
    built: &TileGrid,
    paved: &TileGrid,
    hallways: Seq<TileRect>,
    rooms: Seq<TileRect>,
    room_doors: Seq<Vec<TilePos>>,
    loose: Seq<TilePos>,
)
    requires
        paving_state(built, rooms, room_doors),
        rooms_placed(rooms),
        hallways_kept(built, hallways),
        all_doors_stand(built, rooms, room_doors),
        is_door_paving(
            built,
            paved,
            doors_in_order(room_doors, room_doors.len() as int, 0),
            loose,
        ),
        built_on(built, paved),
    ensures
        paving_state(paved, rooms, room_doors),
        hallways_kept(paved, hallways),
        loose == Seq::<TilePos>::empty(),
{
    let doors = doors_in_order(room_doors, room_doors.len() as int, 0);
    let grids = choose|grids: Seq<TileGrid>|
        {
            &&& #[trigger] is_paving(grids, doors)
            &&& grids[0] == *built
            &&& grids[doors.len() as int] == *paved
            &&& loose == loose_among(grids, doors, doors.len() as int)
        };
    lemma_doors_inside(built, rooms, room_doors, rooms.len() as int, 0);
    lemma_paving_keeps(grids, doors, rooms, room_doors, doors.len() as int);
    lemma_built_on_gentle(built, paved);
    lemma_hallways_kept(built, paved, hallways);
}

/// Enclosing the floors of a paved grid gives a walled grid whose hallways
/// and doors stand as before.
pub proof fn lemma_stage_walled(
    paved: &TileGrid,
    walled: &TileGrid,
    hallways: Seq<TileRect>,
    rooms: Seq<TileRect>,
    room_doors: Seq<Vec<TilePos>>,
)
    requires
        paving_state(paved, rooms, room_doors),
        hallways_kept(paved, hallways),
        all_doors_stand(paved, rooms, room_doors),
        is_enclosed_of(paved, walled),
        built_on(paved, walled),
    ensures
        walled_state(walled, rooms, room_doors),
        hallways_kept(walled, hallways),
        all_doors_stand(walled, rooms, room_doors),
{
    lemma_walled(paved, walled, rooms, room_doors);
    lemma_built_on_gentle(paved, walled);
    lemma_hallways_kept(paved, walled, hallways);
    lemma_gentle_keeps_structures(paved, walled);
    lemma_all_doors_kept(paved, walled, rooms, room_doors);
}

/// Putting spawn points on floors of a walled grid gives a finished grid
/// whose rooms, hallways and doors stand as before.
pub proof fn lemma_stage_finished(
    walled: &TileGrid,
    finished: &TileGrid,
    hallways: Seq<TileRect>,
    rooms: Seq<TileRect>,
    room_doors: Seq<Vec<TilePos>>,
    spawns: Seq<TilePos>,
)
    requires
        walled_state(walled, rooms, room_doors),
        hallways_kept(walled, hallways),
        all_doors_stand(walled, rooms, room_doors),
        floors_enclosed(walled),
        is_spawned_of(walled, finished, spawns),
        forall|i: int| 0 <= i < spawns.len() ==> walled.tile_at(#[trigger] spawns[i]).spec_is_floor(),
        built_on(walled, finished),
    ensures
        finished_state(finished, rooms, spawns),
        all_rooms_kept(finished, rooms, room_doors),
        hallways_kept(finished, hallways),
        all_doors_stand(finished, rooms, room_doors),
        forall|i: int|
            0 <= i < spawns.len() ==> (#[trigger] finished.tile_at(spawns[i])).background.ty is Floor,
{
    lemma_built_on_gentle(walled, finished);
    lemma_hallways_kept(walled, finished, hallways);
    lemma_gentle_keeps_structures(walled, finished);
    lemma_all_doors_kept(walled, finished, rooms, room_doors);
    lemma_all_rooms_kept(walled, finished, rooms, room_doors);
    lemma_finished(walled, finished, rooms, room_doors, spawns);
    assert forall|i: int| 0 <= i < spawns.len() implies (#[trigger] finished.tile_at(
        spawns[i],
    )).background.ty is Floor by {
        assert(spawns.contains(spawns[i]));
        assert(finished.tile_at(spawns[i]) == spawned(walled.tile_at(spawns[i])));
    }
}

/// Whether at least five tiles lie between the two rooms on one axis.
pub open spec fn rooms_apart(a: TileRect, b: TileRect) -> bool {
    a.max.x + 6 <= b.min.x || b.max.x + 6 <= a.min.x || a.max.y + 6 <= b.min.y || b.max.y + 6
        <= a.min.y
}

/// Whether the doors of the grid are the doors of `room_doors`: every cell
/// that holds a door is listed, every listed door stands between its walls,
/// and no two doors share a side.
pub open spec fn doors_of_map(
    grid: &TileGrid,
    room_doors: Seq<Vec<TilePos>>,
) -> bool {
    &&& forall|p: TilePos|
        (#[trigger] grid.tile_at(p)).spec_is_door() ==> crate::generate::is_listed_door(
            room_doors,
            p,
        ) && crate::generate::door_stands(grid, p)
    &&& forall|p: TilePos, q: TilePos|
        grid.tile_at(p).spec_is_door() && grid.tile_at(q).spec_is_door() ==> !#[trigger] p.von_neumann_adjacent(
            q,
        )
}

/// The room that holds a door cell lists it.
pub proof fn lemma_door_listed(grid: &TileGrid, rect: TileRect, doors: Seq<TilePos>, p: TilePos)
    requires
        room_kept(grid, rect, doors),
        rect.contains(p),
        grid.tile_at(p).spec_is_door(),
    ensures
        doors.contains(p),
{
    let (tileset, shrine, kind, flip) = choose|
        tileset: Tileset,
        shrine: TilePos,
        kind: Landmark,
        flip: bool,
    |
        {
            &&& #[trigger] room_kept_as(grid, rect, doors, tileset, shrine, kind, flip)
            &&& rect.contains(shrine) && !rect.on_border(shrine)
            &&& kind == Landmark::ShrineIdol || kind == Landmark::ShrineSkulls
        };
    let cell = room_cell(rect, doors, tileset, shrine, kind, flip, p);
    assert(grid.tile_at(p) == cell || (cell == floor_cell(tileset) && grid.tile_at(p) == spawned(
        cell,
    )));
}

/// Whether `p` is a door that one of `rooms` lists, and a tile of that
/// room.
pub open spec fn listed_in_room(
    rooms: Seq<TileRect>,
    room_doors: Seq<Vec<TilePos>>,
    p: TilePos,
) -> bool {
    exists|k: int, i: int|
        0 <= k < rooms.len() && 0 <= i < room_doors[k]@.len() && (#[trigger] rooms[k]).contains(p)
            && (#[trigger] room_doors[k]@[i]) == p
}

/// A cell that holds a door is a listed door of the room that it lies in.
pub proof fn lemma_door_in_room(
    grid: &TileGrid,
    rooms: Seq<TileRect>,
    room_doors: Seq<Vec<TilePos>>,
    p: TilePos,
)
    requires
        all_rooms_kept(grid, rooms, room_doors),
        in_a_room(rooms, rooms.len() as int, p),
        grid.tile_at(p).spec_is_door(),
    ensures
        listed_in_room(rooms, room_doors, p),
{
    let k = choose|k: int| 0 <= k < rooms.len() && (#[trigger] rooms[k]).contains(p);
    lemma_door_listed(grid, rooms[k], room_doors[k]@, p);
    let i = choose|i: int| 0 <= i < room_doors[k]@.len() && room_doors[k]@[i] == p;
    assert(rooms[k].contains(p) && room_doors[k]@[i] == p);
}

/// A door that a room lists stands between its walls.
pub proof fn lemma_listed_stands(
    grid: &TileGrid,
    rooms: Seq<TileRect>,
    room_doors: Seq<Vec<TilePos>>,
    p: TilePos,
)
    requires
        all_doors_stand(grid, rooms, room_doors),
        listed_in_room(rooms, room_doors, p),
    ensures
        crate::generate::is_listed_door(room_doors, p),
        crate::generate::door_stands(grid, p),
{
    let (k, i) = choose|k: int, i: int|
        0 <= k < rooms.len() && 0 <= i < room_doors[k]@.len() && (#[trigger] rooms[k]).contains(p)
            && (#[trigger] room_doors[k]@[i]) == p;
    assert(crate::generate::room_doors_stand(grid, rooms[k], room_doors[k]@));
    assert(room_doors[k]@[i] == p);
}

/// Two listed doors of rooms that lie apart share no side.
pub proof fn lemma_listed_apart(
    grid: &TileGrid,
    rooms: Seq<TileRect>,
    room_doors: Seq<Vec<TilePos>>,
    p: TilePos,
    q: TilePos,
)
    requires
        all_doors_stand(grid, rooms, room_doors),
        forall|i: int, j: int|
            0 <= i < j < rooms.len() ==> rooms_apart(#[trigger] rooms[i], #[trigger] rooms[j]),
        listed_in_room(rooms, room_doors, p),
        listed_in_room(rooms, room_doors, q),
    ensures
        !p.von_neumann_adjacent(q),
{
    let (k, i) = choose|k: int, i: int|
        0 <= k < rooms.len() && 0 <= i < room_doors[k]@.len() && (#[trigger] rooms[k]).contains(p)
            && (#[trigger] room_doors[k]@[i]) == p;
    let (l, j) = choose|l: int, j: int|
        0 <= l < rooms.len() && 0 <= j < room_doors[l]@.len() && (#[trigger] rooms[l]).contains(q)
            && (#[trigger] room_doors[l]@[j]) == q;
    if k == l {
        assert(crate::generate::room_doors_stand(grid, rooms[k], room_doors[k]@));
        if i != j {
            assert(!room_doors[k]@[i].von_neumann_adjacent(room_doors[k]@[j]));
        }
    } else if k < l {
        assert(rooms_apart(rooms[k], rooms[l]));
    } else {
        assert(rooms_apart(rooms[l], rooms[k]));
    }
}

/// In a grid whose rooms lie apart and that holds no door outside them,
/// the doors are the listed doors, each stands between its walls, and no
/// two share a side.
pub proof fn lemma_doors_of_map(
    grid: &TileGrid,
    rooms: Seq<TileRect>,
    room_doors: Seq<Vec<TilePos>>,
)
    requires
        all_rooms_kept(grid, rooms, room_doors),
        all_doors_stand(grid, rooms, room_doors),
        forall|p: TilePos|
            !in_a_room(rooms, rooms.len() as int, p) ==> !(#[trigger] grid.tile_at(
                p,
            )).spec_is_door(),
        forall|i: int, j: int|
            0 <= i < j < rooms.len() ==> rooms_apart(#[trigger] rooms[i], #[trigger] rooms[j]),
    ensures
        doors_of_map(grid, room_doors),
{
    assert forall|p: TilePos|
        (#[trigger] grid.tile_at(p)).spec_is_door() implies crate::generate::is_listed_door(
        room_doors,
        p,
    ) && crate::generate::door_stands(grid, p) by {
        lemma_door_in_room(grid, rooms, room_doors, p);
        lemma_listed_stands(grid, rooms, room_doors, p);
    }
    assert forall|p: TilePos, q: TilePos|
        grid.tile_at(p).spec_is_door() && grid.tile_at(q).spec_is_door() implies !#[trigger] p.von_neumann_adjacent(
        q,
    ) by {
        lemma_door_in_room(grid, rooms, room_doors, p);
        lemma_door_in_room(grid, rooms, room_doors, q);
        lemma_listed_apart(grid, rooms, room_doors, p, q);
    }
}

/// Whether `grid` is laid out: `hallways` is a partition of the map
/// rectangle with the leaves `leaves`, each leaf holds one of the sixteen
/// `rooms`, and the grid is built of them; see `is_built`.
#[verifier::opaque]
pub open spec fn laid_out(
    grid: &TileGrid,
    hallways: Seq<TileRect>,
    leaves: Seq<TileRect>,
    rooms: Seq<TileRect>,
    room_doors: Seq<Vec<TilePos>>,
) -> bool {
    &&& hallways.len() == 31
    &&& hallways[0] == spec_map_rect()
    &&& crate::partition::is_partition(hallways, 0, 0, false)
    &&& leaves == crate::partition::leaves_of(hallways, 0, 0)
    &&& leaves.len() == 16
    &&& forall|k: int|
        0 <= k < leaves.len() ==> (#[trigger] leaves[k]).sorted() && rect_within(
            leaves[k],
            spec_map_rect(),
        )
    &&& rooms.len() == 16
    &&& room_doors.len() == 16
    &&& rooms_in_leaves(rooms, leaves, 16)
    &&& rooms_placed(rooms)
    &&& forall|i: int, j: int|
        0 <= i < j < rooms.len() ==> rooms_apart(#[trigger] rooms[i], #[trigger] rooms[j])
    &&& is_built(grid, hallways, rooms, room_doors)
    &&& hallways_kept(grid, hallways)
    &&& all_doors_stand(grid, rooms, room_doors)
}

/// Whether `walled` is the built grid `built` with the path of every door
/// paved and then the floors enclosed; no door was left loose.
#[verifier::opaque]
pub open spec fn walled_up(
    built: &TileGrid,
    walled: &TileGrid,
    hallways: Seq<TileRect>,
    rooms: Seq<TileRect>,
    room_doors: Seq<Vec<TilePos>>,
    loose: Seq<TilePos>,
) -> bool {
    &&& exists|paved: TileGrid|
        #[trigger] is_enclosed_of(&paved, walled) && is_door_paving(
            built,
            &paved,
            doors_in_order(room_doors, room_doors.len() as int, 0),
            loose,
        )
    &&& loose == Seq::<TilePos>::empty()
    &&& walled_state(walled, rooms, room_doors)
    &&& hallways_kept(walled, hallways)
    &&& all_doors_stand(walled, rooms, room_doors)
    &&& floors_enclosed(walled)
}

/// How a finished grid came about: there are a grid with the hallways
/// carved and the rooms built, the grid that paving the path of every door
/// on it gives, and the grid that enclosing its floors gives, and the
/// finished grid is that grid with the spawn points put on the floors among
/// the places that a search drew.
pub open spec fn was_generated(
    grid: &TileGrid,
    hallways: Seq<TileRect>,
    rooms: Seq<TileRect>,
    room_doors: Seq<Vec<TilePos>>,
    loose: Seq<TilePos>,
    spawns: Seq<TilePos>,
) -> bool {
    exists|built: TileGrid, paved: TileGrid, walled: TileGrid, places: Seq<TilePos>|
        {
            &&& #[trigger] is_built(&built, hallways, rooms, room_doors)
            &&& is_door_paving(
                &built,
                &paved,
                doors_in_order(room_doors, room_doors.len() as int, 0),
                loose,
            )
            &&& #[trigger] is_enclosed_of(&paved, &walled)
            &&& is_spawned_of(&walled, grid, spawns)
            &&& #[trigger] crate::generate::is_spawn_search(
                &walled,
                crate::partition::leaves_of(hallways, 0, 0),
                places,
                spawns,
            )
        }
}

/// What holds of the grid of every generated dungeon, with its hallways,
/// rooms, doors and spawn points.
///
/// - The hallways are a partition of the map rectangle, and the rim of each
///   of its thirty-one rectangles is paved.
/// - There are sixteen rooms, one in each leaf of the partition, three to
///   six tiles off the rim of the leaf on every side, so that at least five
///   tiles lie between any two rooms. Every room has wall on its rim but
///   for its doors, and inside floor and one shrine.
/// - Every room has one to four doors on its rim, each a closed door
///   between two walls, none listed twice. Every door of the grid is one
///   of them, and no two doors of the grid share a side.
/// - The path of every door met something; no door is loose.
/// - Outside the rooms every cell is blank, hallway floor with or without a
///   spawn point, or rock wall. A ring of rock wall lies around the map
///   rectangle, nothing lies outside it, and the ring is the used
///   rectangle. The layers of every cell are in order, and no cell is
///   plucked.
/// - Every floor is enclosed.
/// - One to five spawn points lie on floors of the leaves; a cell holds a
///   spawn point if and only if it is listed, and none of the tiles around
///   a spawn point is empty.
/// - The grid came about as `was_generated` says.
pub open spec fn is_dungeon(
    grid: &TileGrid,
    hallways: Seq<TileRect>,
    rooms: Seq<TileRect>,
    room_doors: Seq<Vec<TilePos>>,
    loose: Seq<TilePos>,
    spawns: Seq<TilePos>,
) -> bool {
    &&& hallways.len() == 31
    &&& hallways[0] == spec_map_rect()
    &&& crate::partition::is_partition(hallways, 0, 0, false)
    &&& hallways_kept(grid, hallways)
    &&& rooms.len() == 16
    &&& room_doors.len() == 16
    &&& rooms_in_leaves(rooms, crate::partition::leaves_of(hallways, 0, 0), 16)
    &&& rooms_placed(rooms)
    &&& forall|i: int, j: int|
        0 <= i < j < rooms.len() ==> rooms_apart(#[trigger] rooms[i], #[trigger] rooms[j])
    &&& all_doors_stand(grid, rooms, room_doors)
    &&& doors_of_map(grid, room_doors)
    &&& all_rooms_kept(grid, rooms, room_doors)
    &&& loose == Seq::<TilePos>::empty()
    &&& finished_state(grid, rooms, spawns)
    &&& floors_enclosed(grid)
    &&& 1 <= spawns.len() <= crate::generate::MAX_SPAWNS
    &&& forall|i: int, j: int|
        0 <= i < j < spawns.len() ==> #[trigger] spawns[i] != #[trigger] spawns[j]
    &&& forall|i: int|
        0 <= i < spawns.len() ==> crate::generate::in_a_leaf(
            crate::partition::leaves_of(hallways, 0, 0),
            #[trigger] spawns[i],
        ) && spec_map_rect().contains(spawns[i]) && grid.tile_at(spawns[i]).background.ty is Floor
    &&& was_generated(grid, hallways, rooms, room_doors, loose, spawns)
}

/// A walled grid with spawn points put on floors that a search drew is the
/// grid of a dungeon.
pub proof fn lemma_finish(
    built: &TileGrid,
    walled: &TileGrid,
    finished: &TileGrid,
    hallways: Seq<TileRect>,
    leaves: Seq<TileRect>,
    rooms: Seq<TileRect>,
    room_doors: Seq<Vec<TilePos>>,
    loose: Seq<TilePos>,
    spawns: Seq<TilePos>,
    places: Seq<TilePos>,
)
    requires
        laid_out(built, hallways, leaves, rooms, room_doors),
        walled_up(built, walled, hallways, rooms, room_doors, loose),
        is_spawned_of(walled, finished, spawns),
        forall|i: int|
            0 <= i < spawns.len() ==> walled.tile_at(#[trigger] spawns[i]).spec_is_floor()
                && crate::generate::in_a_leaf(leaves, spawns[i]),
        forall|i: int, j: int|
            0 <= i < j < spawns.len() ==> #[trigger] spawns[i] != #[trigger] spawns[j],
        1 <= spawns.len() <= crate::generate::MAX_SPAWNS,
        built_on(walled, finished),
        floors_enclosed(finished),
        crate::generate::is_spawn_search(walled, leaves, places, spawns),
    ensures
        is_dungeon(finished, hallways, rooms, room_doors, loose, spawns),
{
    reveal(laid_out);
    reveal(walled_up);
    lemma_stage_finished(walled, finished, hallways, rooms, room_doors, spawns);
    assert forall|p: TilePos| !in_a_room(rooms, rooms.len() as int, p) implies !(
    #[trigger] finished.tile_at(p)).spec_is_door() by {
        assert(is_outside_cell(finished.tile_at(p)));
    }
    lemma_doors_of_map(finished, rooms, room_doors);
    assert forall|i: int| 0 <= i < spawns.len() implies spec_map_rect().contains(
        #[trigger] spawns[i],
    ) by {
        let k = choose|k: int| 0 <= k < leaves.len() && (#[trigger] leaves[k]).contains(spawns[i]);
        assert(rect_within(leaves[k], spec_map_rect()));
    }
    let paved = choose|paved: TileGrid|
        #[trigger] is_enclosed_of(&paved, walled) && is_door_paving(
            built,
            &paved,
            doors_in_order(room_doors, room_doors.len() as int, 0),
            loose,
        );
    assert(is_built(built, hallways, rooms, room_doors) && is_enclosed_of(&paved, walled)
        && crate::generate::is_spawn_search(
        walled,
        crate::partition::leaves_of(hallways, 0, 0),
        places,
        spawns,
    ));
}

/// A laid-out grid whose door paths are paved and whose floors are then
/// enclosed is walled up.
pub proof fn lemma_walled_up(
    built: &TileGrid,
    paved: &TileGrid,
    walled: &TileGrid,
    hallways: Seq<TileRect>,
    leaves: Seq<TileRect>,
    rooms: Seq<TileRect>,
    room_doors: Seq<Vec<TilePos>>,
    loose: Seq<TilePos>,
)
    requires
        laid_out(built, hallways, leaves, rooms, room_doors),
        is_door_paving(
            built,
            paved,
            doors_in_order(room_doors, room_doors.len() as int, 0),
            loose,
        ),
        built_on(built, paved),
        is_enclosed_of(paved, walled),
        built_on(paved, walled),
        floors_enclosed(walled),
    ensures
        walled_up(built, walled, hallways, rooms, room_doors, loose),
{
    reveal(laid_out);
    reveal(walled_up);
    lemma_stage_paved(built, paved, hallways, rooms, room_doors, loose);
    lemma_built_on_gentle(built, paved);
    lemma_gentle_keeps_structures(built, paved);
    lemma_all_doors_kept(built, paved, rooms, room_doors);
    lemma_stage_walled(paved, walled, hallways, rooms, room_doors);
    assert(is_enclosed_of(paved, walled));
}

/// What a laid-out grid gives the steps that follow: its doors stand, its
/// rooms lie in the map rectangle, and its leaves are in order.
pub proof fn lemma_laid_out(
    grid: &TileGrid,
    hallways: Seq<TileRect>,
    leaves: Seq<TileRect>,
    rooms: Seq<TileRect>,
    room_doors: Seq<Vec<TilePos>>,
)
    requires
        laid_out(grid, hallways, leaves, rooms, room_doors),
    ensures
        all_doors_stand(grid, rooms, room_doors),
        doors_pavable(grid, room_doors),
        leaves.len() == 16,
        forall|k: int| 0 <= k < leaves.len() ==> (#[trigger] leaves[k]).sorted(),
{
    reveal(laid_out);
    assert forall|i: int, j: int|
        0 <= i < room_doors.len() && 0 <= j < room_doors[i]@.len() implies grid.tile_at(
        #[trigger] room_doors[i]@[j],
    ).spec_is_door() && paving_fits(room_doors[i]@[j]) by {
        let door = room_doors[i]@[j];
        assert(room_doors_stand(grid, rooms[i], room_doors[i]@));
        assert(rooms[i].on_border(door) && door_stands(grid, door));
    }
}

} // verus!
