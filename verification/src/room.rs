//! Rooms: a floor inside a rim of wall, a shrine on the floor, and up to four
//! doors in the rim.

use crate::grid::TileGrid;
use crate::mutmap::MutMap;
use crate::pos::{Direction, TilePos};
use crate::rect::TileRect;
use crate::rng::{choose_from, draw_coin, draw_range, draw_range_inclusive, MapRng};
use crate::tile::{FloorType, Landmark, Tile, TilePair, TileType, Tileset, WallShape};
use vstd::pervasive::unreached;
use vstd::prelude::*;

verus! {

/// A room gets at most this many doors.
pub const MAX_DOORS: i32 = 4;

/// Places on the rim that are tried for one door before it is given up.
pub const DOOR_ATTEMPTS: u32 = 1000;

/// Why a map could not be generated.
#[derive(Clone, Copy, Debug, PartialEq, Eq, Structural)]
pub enum GenerateError {
    /// A room rectangle has no tile that is off its rim on both axes, so the
    /// room has no floor to put its shrine on.
    RoomTooSmall,
    /// No place on the rim of a room took the room's first door.
    NoDoor,
    /// No place drawn for a spawn point was a floor.
    NoSpawn,
}

impl GenerateError {
    /// What went wrong, in words.
    pub open spec fn spec_message(&self) -> Seq<char> {
        match self {
            GenerateError::RoomTooSmall => "room is too small to hold a shrine"@,
            GenerateError::NoDoor => "could not place any doors"@,
            GenerateError::NoSpawn => "could not place any spawn points"@,
        }
    }

    /// What went wrong, in words.
    pub fn message(&self) -> (text: &'static str)
        ensures
            text@ == self.spec_message(),
    {
        match self {
            GenerateError::RoomTooSmall => "room is too small to hold a shrine",
            GenerateError::NoDoor => "could not place any doors",
            GenerateError::NoSpawn => "could not place any spawn points",
        }
    }
}

/// The floor of a skin.
pub open spec fn floor_tile(tileset: Tileset) -> Tile {
    Tile { ty: TileType::Floor(FloorType::Tileset), tileset }
}

/// The solid wall of a skin.
pub open spec fn wall_tile(tileset: Tileset) -> Tile {
    Tile { ty: TileType::Wall(WallShape::Solid), tileset }
}

/// A shrine; shrines are drawn in the default skin.
pub open spec fn shrine_tile(kind: Landmark, flip: bool) -> Tile {
    Tile { ty: TileType::Landmark { ty: kind, flip }, tileset: Tileset::BrickBlue }
}

/// A cell of room floor: a blank cell with the floor set.
pub open spec fn floor_cell(tileset: Tileset) -> TilePair {
    TilePair::spec_blank().after_set(floor_tile(tileset))
}

/// A cell of room wall: the wall set over the room's floor.
pub open spec fn wall_cell(tileset: Tileset) -> TilePair {
    floor_cell(tileset).after_set(wall_tile(tileset))
}

/// The cell that holds the shrine: the shrine set over the room's floor.
pub open spec fn shrine_cell(tileset: Tileset, kind: Landmark, flip: bool) -> TilePair {
    floor_cell(tileset).after_set(shrine_tile(kind, flip))
}

/// A cell with a door: the door set over the room's wall.
pub open spec fn door_cell(tileset: Tileset, ty: TileType) -> TilePair {
    wall_cell(tileset).after_set(Tile { ty, tileset })
}

/// The kind of door that fits a place on the rim of `rect`: in the left and
/// right columns the walls continue to the north and south, in the top and
/// bottom rows to the east and west.
pub open spec fn door_kind_at(rect: TileRect, pos: TilePos) -> TileType {
    if pos.x == rect.min.x || pos.x == rect.max.x {
        TileType::DoorNS { open: false }
    } else {
        TileType::DoorEW { open: false }
    }
}

/// Whether one of the four tiles that share a side with `pos` holds a door.
pub open spec fn door_beside(grid: &TileGrid, pos: TilePos) -> bool {
    exists|i: int|
        0 <= i < 4 && grid.tile_at(
            pos.spec_neighbor(#[trigger] Direction::spec_von_neumann()[i]),
        ).spec_is_door()
}

/// Whether the tiles north and south of `pos` are both walls.
pub open spec fn walled_north_south(grid: &TileGrid, pos: TilePos) -> bool {
    grid.tile_at(pos.spec_neighbor(Direction::North)).spec_is_wall() && grid.tile_at(
        pos.spec_neighbor(Direction::South),
    ).spec_is_wall()
}

/// Whether the tiles east and west of `pos` are both walls.
pub open spec fn walled_east_west(grid: &TileGrid, pos: TilePos) -> bool {
    grid.tile_at(pos.spec_neighbor(Direction::East)).spec_is_wall() && grid.tile_at(
        pos.spec_neighbor(Direction::West),
    ).spec_is_wall()
}

/// Whether `pos` takes a door: no door stands on it or beside it, and it
/// continues a wall, north to south or east to west.
pub open spec fn takes_door(grid: &TileGrid, pos: TilePos) -> bool {
    !grid.tile_at(pos).spec_is_door() && !door_beside(grid, pos) && (walled_north_south(grid, pos)
        || walled_east_west(grid, pos))
}

/// The kind of door that `pos` takes: north-south where the walls continue
/// north and south, east-west otherwise.
pub open spec fn door_kind_for(grid: &TileGrid, pos: TilePos) -> TileType {
    if walled_north_south(grid, pos) {
        TileType::DoorNS { open: false }
    } else {
        TileType::DoorEW { open: false }
    }
}

impl MutMap {
    /// Puts a closed door of the skin `tileset` at `pos` if the place takes
    /// one, and says whether it did. A place that holds a door or lies
    /// beside one takes none, nor does one that continues no wall, such as a
    /// corner.
    pub fn try_place_door(&mut self, pos: TilePos, tileset: Tileset) -> (placed: bool)
        requires
            old(self).wf(),
            pos.interior(),
        ensures
            final(self).wf(),
            final(self).rng == old(self).rng,
            placed == takes_door(&old(self).map, pos),
            placed ==> final(self).map.is_set_of(
                &old(self).map,
                set![pos],
                Tile { ty: door_kind_for(&old(self).map, pos), tileset },
            ),
            !placed ==> final(self).map == old(self).map,
    {
        if self.map.index(pos).is_door() {
            return false;
        }
        let around = pos.von_neumann_neighborhood();
        let mut i: usize = 0;
        while i < 4
            invariant
                i <= 4,
                around.len() == 4,
                around@ == Direction::spec_von_neumann().map_values(
                    |d: Direction| pos.spec_neighbor(d),
                ),
                self.wf(),
                self.map == old(self).map,
                self.rng == old(self).rng,
                forall|k: int|
                    0 <= k < i ==> !self.map.tile_at(
                        pos.spec_neighbor(#[trigger] Direction::spec_von_neumann()[k]),
                    ).spec_is_door(),
            decreases 4 - i,
        {
            assert(around@[i as int] == pos.spec_neighbor(Direction::spec_von_neumann()[i as int]));
            if self.map.index(around[i]).is_door() {
                return false;
            }
            i += 1;
        }
        let ty = if self.map.index(pos.neighbor(Direction::North)).is_wall() && self.map.index(
            pos.neighbor(Direction::South),
        ).is_wall() {
            TileType::DoorNS { open: false }
        } else if self.map.index(pos.neighbor(Direction::East)).is_wall() && self.map.index(
            pos.neighbor(Direction::West),
        ).is_wall() {
            TileType::DoorEW { open: false }
        } else {
            return false;
        };
        self.set_tile(Tile { ty, tileset }, pos);
        true
    }
}

/// Whether `rect` has a tile that is off its rim on both axes.
pub open spec fn room_fits(rect: TileRect) -> bool {
    rect.min.x + 1 < rect.max.x && rect.min.y + 1 < rect.max.y
}

/// The cell at `p` of a room on `rect`: nothing outside the rectangle; on
/// the rim a door where `doors` names one and wall elsewhere; inside the
/// shrine at `shrine` and floor elsewhere.
pub open spec fn room_cell(
    rect: TileRect,
    doors: Seq<TilePos>,
    tileset: Tileset,
    shrine: TilePos,
    kind: Landmark,
    flip: bool,
    p: TilePos,
) -> TilePair {
    if !rect.contains(p) {
        TilePair::spec_blank()
    } else if rect.on_border(p) {
        if doors.contains(p) {
            door_cell(tileset, door_kind_at(rect, p))
        } else {
            wall_cell(tileset)
        }
    } else if p == shrine {
        shrine_cell(tileset, kind, flip)
    } else {
        floor_cell(tileset)
    }
}

/// Whether `grid` holds exactly a room on `rect` with the given skin, shrine
/// and doors, where every door stands on the rim, off the corners, no place
/// is listed twice, and no two doors share a side.
pub open spec fn room_cells(
    grid: &TileGrid,
    rect: TileRect,
    doors: Seq<TilePos>,
    tileset: Tileset,
    shrine: TilePos,
    kind: Landmark,
    flip: bool,
) -> bool {
    &&& forall|p: TilePos| #[trigger]
        grid.tile_at(p) == room_cell(rect, doors, tileset, shrine, kind, flip, p)
    &&& forall|i: int|
        0 <= i < doors.len() ==> rect.on_border(#[trigger] doors[i]) && !rect.is_corner(doors[i])
    &&& forall|i: int, j: int|
        0 <= i < doors.len() && 0 <= j < doors.len() && i != j ==> (#[trigger] doors[i]) != (
        #[trigger] doors[j]) && !doors[i].von_neumann_adjacent(doors[j])
}

/// Whether `grid` holds a room on `rect` whose doors are `doors`: one to
/// four of them, and a shrine of one of the two kinds on a tile off the rim.
pub open spec fn is_room(grid: &TileGrid, rect: TileRect, doors: Seq<TilePos>) -> bool {
    exists|tileset: Tileset, shrine: TilePos, kind: Landmark, flip: bool|
        {
            &&& #[trigger] room_cells(grid, rect, doors, tileset, shrine, kind, flip)
            &&& 1 <= doors.len() <= MAX_DOORS
            &&& rect.contains(shrine) && !rect.on_border(shrine)
            &&& kind == Landmark::ShrineIdol || kind == Landmark::ShrineSkulls
        }
}

/// A rim place that takes a door takes the kind that fits its side of the
/// room, lies off the corners, and shares no side with a door of the room.
proof fn lemma_door_place(
    grid: &TileGrid,
    rect: TileRect,
    doors: Seq<TilePos>,
    tileset: Tileset,
    shrine: TilePos,
    kind: Landmark,
    flip: bool,
    pos: TilePos,
)
    requires
        room_fits(rect),
        rect.min.interior(),
        rect.max.interior(),
        rect.contains(shrine) && !rect.on_border(shrine),
        room_cells(grid, rect, doors, tileset, shrine, kind, flip),
        rect.on_border(pos),
        takes_door(grid, pos),
    ensures
        !rect.is_corner(pos),
        door_kind_for(grid, pos) == door_kind_at(rect, pos),
        forall|i: int|
            0 <= i < doors.len() ==> (#[trigger] doors[i]) != pos && !doors[i].von_neumann_adjacent(
                pos,
            ),
        grid.tile_at(pos).after_set(Tile { ty: door_kind_for(grid, pos), tileset }) == door_cell(
            tileset,
            door_kind_at(rect, pos),
        ),
{
    let north = pos.spec_neighbor(Direction::North);
    let east = pos.spec_neighbor(Direction::East);
    let south = pos.spec_neighbor(Direction::South);
    let west = pos.spec_neighbor(Direction::West);
    let around = Direction::spec_von_neumann();
    assert(around[0] == Direction::North && around[1] == Direction::East && around[2]
        == Direction::South && around[3] == Direction::West);
    assert(!grid.tile_at(north).spec_is_door());
    assert(!grid.tile_at(east).spec_is_door());
    assert(!grid.tile_at(south).spec_is_door());
    assert(!grid.tile_at(west).spec_is_door());
    assert(grid.tile_at(north) == room_cell(rect, doors, tileset, shrine, kind, flip, north));
    assert(grid.tile_at(east) == room_cell(rect, doors, tileset, shrine, kind, flip, east));
    assert(grid.tile_at(south) == room_cell(rect, doors, tileset, shrine, kind, flip, south));
    assert(grid.tile_at(west) == room_cell(rect, doors, tileset, shrine, kind, flip, west));
    assert(grid.tile_at(pos) == room_cell(rect, doors, tileset, shrine, kind, flip, pos));
    assert forall|i: int| 0 <= i < doors.len() implies (#[trigger] doors[i]) != pos
        && !doors[i].von_neumann_adjacent(pos) by {
        let d = doors[i];
        assert(doors.contains(d));
        assert(grid.tile_at(d) == room_cell(rect, doors, tileset, shrine, kind, flip, d));
        assert(grid.tile_at(d).spec_is_door());
        if d.von_neumann_adjacent(pos) {
            assert(d == north || d == east || d == south || d == west);
        }
    }
}

/// Every door of a room is a closed door of the kind that its walls ask
/// for: a north-south door has wall to its north and south, an east-west
/// door to its east and west. A room has one to four doors, and no two of
/// them share a side.
pub proof fn lemma_room_doors(grid: &TileGrid, rect: TileRect, doors: Seq<TilePos>)
    requires
        room_fits(rect),
        rect.min.interior(),
        rect.max.interior(),
        is_room(grid, rect, doors),
    ensures
        1 <= doors.len() <= MAX_DOORS,
        forall|i: int, j: int|
            0 <= i < doors.len() && 0 <= j < doors.len() && i != j ==> (#[trigger] doors[i]) != (
            #[trigger] doors[j]) && !doors[i].von_neumann_adjacent(doors[j]),
        forall|i: int|
            0 <= i < doors.len() ==> {
                let cell = grid.tile_at(#[trigger] doors[i]);
                &&& rect.on_border(doors[i])
                &&& cell.foreground.ty == (TileType::DoorNS { open: false }) || cell.foreground.ty
                    == (TileType::DoorEW { open: false })
                &&& cell.foreground.ty is DoorNS ==> walled_north_south(grid, doors[i])
                &&& cell.foreground.ty is DoorEW ==> walled_east_west(grid, doors[i])
            },
{
    let (tileset, shrine, kind, flip) = choose|
        tileset: Tileset,
        shrine: TilePos,
        kind: Landmark,
        flip: bool,
    |
        {
            &&& #[trigger] room_cells(grid, rect, doors, tileset, shrine, kind, flip)
            &&& 1 <= doors.len() <= MAX_DOORS
            &&& rect.contains(shrine) && !rect.on_border(shrine)
            &&& kind == Landmark::ShrineIdol || kind == Landmark::ShrineSkulls
        };
    assert forall|i: int| 0 <= i < doors.len() implies ({
        let cell = grid.tile_at(#[trigger] doors[i]);
        &&& rect.on_border(doors[i])
        &&& cell.foreground.ty == (TileType::DoorNS { open: false }) || cell.foreground.ty == (
        TileType::DoorEW { open: false })
        &&& cell.foreground.ty is DoorNS ==> walled_north_south(grid, doors[i])
        &&& cell.foreground.ty is DoorEW ==> walled_east_west(grid, doors[i])
    }) by {
        let pos = doors[i];
        let north = pos.spec_neighbor(Direction::North);
        let east = pos.spec_neighbor(Direction::East);
        let south = pos.spec_neighbor(Direction::South);
        let west = pos.spec_neighbor(Direction::West);
        assert(doors.contains(pos));
        assert(grid.tile_at(pos) == room_cell(rect, doors, tileset, shrine, kind, flip, pos));
        assert(grid.tile_at(north) == room_cell(rect, doors, tileset, shrine, kind, flip, north));
        assert(grid.tile_at(east) == room_cell(rect, doors, tileset, shrine, kind, flip, east));
        assert(grid.tile_at(south) == room_cell(rect, doors, tileset, shrine, kind, flip, south));
        assert(grid.tile_at(west) == room_cell(rect, doors, tileset, shrine, kind, flip, west));
        assert forall|q: TilePos| pos.von_neumann_adjacent(q) implies !doors.contains(q) by {
            if doors.contains(q) {
                let j = choose|j: int| 0 <= j < doors.len() && doors[j] == q;
                assert(i == j || (doors[i] != doors[j] && !doors[i].von_neumann_adjacent(
                    doors[j],
                )));
            }
        }
        assert(pos.von_neumann_adjacent(north) && pos.von_neumann_adjacent(south)
            && pos.von_neumann_adjacent(east) && pos.von_neumann_adjacent(west));
    }
}

/// The count of doors found, if there is one, and else the error of a room
/// that took no door.
pub fn require_door(found: usize) -> (r: Result<usize, GenerateError>)
    ensures
        found == 0 <==> r == Err::<usize, GenerateError>(GenerateError::NoDoor),
        found > 0 <==> r == Ok::<usize, GenerateError>(found),
{
    if found == 0 {
        Err(GenerateError::NoDoor)
    } else {
        Ok(found)
    }
}

/// Every skin, in the order in which rooms pick from them.
pub open spec fn spec_all_tilesets() -> Seq<Tileset> {
    seq![
        Tileset::BrickBlue,
        Tileset::BrickCyan,
        Tileset::BrickGreen,
        Tileset::BrickPurple,
        Tileset::BrickRed,
        Tileset::BrickYellow,
        Tileset::Catacomb,
        Tileset::Cocutos,
        Tileset::Crypt,
        Tileset::Gallery,
        Tileset::Gehena,
        Tileset::Hive,
        Tileset::Lair,
        Tileset::Lapis,
        Tileset::Moss,
        Tileset::Mucus,
        Tileset::Normal,
        Tileset::PandemBlue,
        Tileset::PandemGreen,
        Tileset::PandemPurple,
        Tileset::PandemRed,
        Tileset::PandemYellow,
        Tileset::Rock,
        Tileset::Tunnel,
    ]
}

/// Every skin, in the order in which rooms pick from them.
pub fn all_tilesets() -> (r: Vec<Tileset>)
    ensures
        r@ == spec_all_tilesets(),
        r.len() == 24,
{
    let r = vec![
        Tileset::BrickBlue,
        Tileset::BrickCyan,
        Tileset::BrickGreen,
        Tileset::BrickPurple,
        Tileset::BrickRed,
        Tileset::BrickYellow,
        Tileset::Catacomb,
        Tileset::Cocutos,
        Tileset::Crypt,
        Tileset::Gallery,
        Tileset::Gehena,
        Tileset::Hive,
        Tileset::Lair,
        Tileset::Lapis,
        Tileset::Moss,
        Tileset::Mucus,
        Tileset::Normal,
        Tileset::PandemBlue,
        Tileset::PandemGreen,
        Tileset::PandemPurple,
        Tileset::PandemRed,
        Tileset::PandemYellow,
        Tileset::Rock,
        Tileset::Tunnel,
    ];
    assert(r@ =~= spec_all_tilesets());
    r
}

/// The kinds of shrine that rooms pick from.
pub fn shrine_kinds() -> (r: Vec<Landmark>)
    ensures
        r@ == seq![Landmark::ShrineIdol, Landmark::ShrineSkulls],
{
    let r = vec![Landmark::ShrineIdol, Landmark::ShrineSkulls];
    assert(r@ =~= seq![Landmark::ShrineIdol, Landmark::ShrineSkulls]);
    r
}

impl MutMap {
    /// Lays out an empty room on `rect`: floor of the skin `tileset` on
    /// every tile, then solid wall on the rim.
    pub fn lay_room(&mut self, rect: TileRect, tileset: Tileset)
        requires
            old(self).wf(),
            rect.sorted(),
        ensures
            final(self).wf(),
            final(self).rng == old(self).rng,
            forall|p: TilePos| #[trigger]
                final(self).tile_at(p) == if rect.on_border(p) {
                    old(self).tile_at(p).after_set(floor_tile(tileset)).after_set(
                        wall_tile(tileset),
                    )
                } else if rect.contains(p) {
                    old(self).tile_at(p).after_set(floor_tile(tileset))
                } else {
                    old(self).tile_at(p)
                },
    {
        let floor = Tile { ty: TileType::Floor(FloorType::Tileset), tileset };
        let wall = Tile { ty: TileType::Wall(WallShape::Solid), tileset };
        self.fill(floor, rect.min, rect.max);
        let ghost floored = self.map;
        self.fill_border(wall, rect.min, rect.max);
        proof {
            assert(TileRect::spec_new(rect.min, rect.max) == rect);
            assert forall|p: TilePos| #[trigger]
                self.tile_at(p) == if rect.on_border(p) {
                    old(self).tile_at(p).after_set(floor_tile(tileset)).after_set(
                        wall_tile(tileset),
                    )
                } else if rect.contains(p) {
                    old(self).tile_at(p).after_set(floor_tile(tileset))
                } else {
                    old(self).tile_at(p)
                } by {
                assert(self.map.tile_at(p) == if rect.border_set().contains(p) {
                    floored.tile_at(p).after_set(wall)
                } else {
                    floored.tile_at(p)
                });
                assert(floored.tile_at(p) == if rect.tile_set().contains(p) {
                    old(self).map.tile_at(p).after_set(floor)
                } else {
                    old(self).map.tile_at(p)
                });
            }
        }
    }
}

/// Generates a room on `rect`, with draws from `rng`: a skin for its floor
/// and walls, a kind of shrine, the shrine's place off the rim and whether
/// it is mirrored, then a number of doors from one to four, and for each
/// door up to `DOOR_ATTEMPTS` places on the rim until one takes it. Returns
/// the room, in a grid of its own, and the places of its doors.
///
/// Fails with `RoomTooSmall` exactly where `rect` has no tile off its rim,
/// and with `NoDoor` where none of the places drawn for the first door took
/// it.
pub fn generate_room(rng: &mut MapRng, rect: TileRect) -> (r: Result<
    (MutMap, Vec<TilePos>),
    GenerateError,
>)
    requires
        rect.min.interior(),
        rect.max.interior(),
    ensures
        !room_fits(rect) <==> r == Err::<(MutMap, Vec<TilePos>), GenerateError>(
            GenerateError::RoomTooSmall,
        ),
        r is Err ==> r->Err_0 == GenerateError::RoomTooSmall || r->Err_0 == GenerateError::NoDoor,
        r matches Ok(room) ==> room.0.wf() && is_room(&room.0.map, rect, room.1@),
{
    let mut res = MutMap::new(None);
    let tilesets = all_tilesets();
    let tileset = match choose_from(rng.as_mut(), &tilesets) {
        Some(tileset) => tileset,
        None => unreached(),
    };
    if !(rect.min.x + 1 < rect.max.x && rect.min.y + 1 < rect.max.y) {
        return Err(GenerateError::RoomTooSmall);
    }
    res.lay_room(rect, tileset);
    let kinds = shrine_kinds();
    let kind = match choose_from(rng.as_mut(), &kinds) {
        Some(kind) => kind,
        None => unreached(),
    };
    let shrine = TilePos::of(
        draw_range(rng.as_mut(), rect.min.x + 1, rect.max.x),
        draw_range(rng.as_mut(), rect.min.y + 1, rect.max.y),
    );
    let flip = draw_coin(rng.as_mut());
    let ghost laid = res.map;
    res.set_tile(Tile { ty: TileType::Landmark { ty: kind, flip }, tileset: Tileset::BrickBlue }, shrine);
    let mut doors: Vec<TilePos> = Vec::new();
    proof {
        assert(kind == kinds@[0] || kind == kinds@[1]);
        assert forall|p: TilePos| #[trigger]
            res.map.tile_at(p) == room_cell(rect, doors@, tileset, shrine, kind, flip, p) by {
            assert(res.map.tile_at(p) == if set![shrine].contains(p) {
                laid.tile_at(p).after_set(shrine_tile(kind, flip))
            } else {
                laid.tile_at(p)
            });
            assert(laid.tile_at(p) == if rect.on_border(p) {
                TilePair::spec_blank().after_set(floor_tile(tileset)).after_set(wall_tile(tileset))
            } else if rect.contains(p) {
                TilePair::spec_blank().after_set(floor_tile(tileset))
            } else {
                TilePair::spec_blank()
            });
        }
    }
    let door_count: i32 = draw_range_inclusive(rng.as_mut(), 1, MAX_DOORS);
    let mut door: i32 = 0;
    while door < door_count
        invariant
            res.wf(),
            room_fits(rect),
            rect.min.interior(),
            rect.max.interior(),
            rect.contains(shrine) && !rect.on_border(shrine),
            kind == Landmark::ShrineIdol || kind == Landmark::ShrineSkulls,
            1 <= door_count <= MAX_DOORS,
            0 <= door <= door_count,
            doors.len() <= door,
            door > 0 ==> doors.len() >= 1,
            room_cells(&res.map, rect, doors@, tileset, shrine, kind, flip),
        decreases door_count - door,
    {
        let mut attempt: u32 = 0;
        while attempt < DOOR_ATTEMPTS
            invariant_except_break
                doors.len() <= door,
            invariant
                res.wf(),
                room_fits(rect),
                rect.min.interior(),
                rect.max.interior(),
                rect.contains(shrine) && !rect.on_border(shrine),
                attempt <= DOOR_ATTEMPTS,
                door > 0 ==> doors.len() >= 1,
                room_cells(&res.map, rect, doors@, tileset, shrine, kind, flip),
            ensures
                res.wf(),
                doors.len() <= door + 1,
                door > 0 ==> doors.len() >= 1,
                room_cells(&res.map, rect, doors@, tileset, shrine, kind, flip),
            decreases DOOR_ATTEMPTS - attempt,
        {
            let pos = rect.tile_on_border(rng.as_mut());
            let ghost before = res.map;
            let ghost doors_before = doors@;
            if res.try_place_door(pos, tileset) {
                doors.push(pos);
                proof {
                    lemma_door_place(
                        &before,
                        rect,
                        doors_before,
                        tileset,
                        shrine,
                        kind,
                        flip,
                        pos,
                    );
                    assert forall|p: TilePos| #[trigger]
                        res.map.tile_at(p) == room_cell(
                            rect,
                            doors@,
                            tileset,
                            shrine,
                            kind,
                            flip,
                            p,
                        ) by {
                        assert(before.tile_at(p) == room_cell(
                            rect,
                            doors_before,
                            tileset,
                            shrine,
                            kind,
                            flip,
                            p,
                        ));
                        assert(doors@.contains(p) <==> doors_before.contains(p) || p == pos) by {
                            if doors_before.contains(p) {
                                let i = choose|i: int|
                                    0 <= i < doors_before.len() && doors_before[i] == p;
                                assert(doors@[i] == p);
                            }
                            if p == pos {
                                assert(doors@[doors_before.len() as int] == p);
                            }
                        }
                        assert(res.map.tile_at(p) == if set![pos].contains(p) {
                            before.tile_at(p).after_set(
                                Tile { ty: door_kind_for(&before, pos), tileset },
                            )
                        } else {
                            before.tile_at(p)
                        });
                    }
                    assert forall|i: int, j: int|
                        0 <= i < doors@.len() && 0 <= j < doors@.len() && i != j implies (
                    #[trigger] doors@[i]) != (#[trigger] doors@[j])
                        && !doors@[i].von_neumann_adjacent(doors@[j]) by {
                        if i < doors_before.len() {
                            assert(doors@[i] == doors_before[i]);
                        }
                        if j < doors_before.len() {
                            assert(doors@[j] == doors_before[j]);
                        }
                    }
                    assert forall|i: int| 0 <= i < doors@.len() implies rect.on_border(
                        #[trigger] doors@[i],
                    ) && !rect.is_corner(doors@[i]) by {
                        if i < doors_before.len() {
                            assert(doors@[i] == doors_before[i]);
                        }
                    }
                }
                break ;
            }
            attempt += 1;
        }
        match require_door(doors.len()) {
            Ok(_) => {},
            Err(e) => {
                return Err(e);
            },
        }
        door += 1;
    }
    Ok((res, doors))
}

} // verus!
