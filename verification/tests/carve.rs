use undercity::mutmap::MutMap;
use undercity::pos::{Direction, TilePos};
use undercity::rect::TileRect;
use undercity::tile::{FloorType, Landmark, Tile, TileType, Tileset, WallShape};

fn rock_floor() -> Tile {
    Tile { ty: TileType::Floor(FloorType::Tileset), tileset: Tileset::Rock }
}

fn rock_wall() -> Tile {
    Tile { ty: TileType::Wall(WallShape::Solid), tileset: Tileset::Rock }
}

fn rect(x0: i32, y0: i32, x1: i32, y1: i32) -> TileRect {
    TileRect::new_presorted(TilePos::of(x0, y0), TilePos::of(x1, y1))
}

fn room_with_door(door: TilePos) -> MutMap {
    let mut map = MutMap::new(Some(1));
    map.lay_room(rect(0, 0, 6, 6), Tileset::Moss);
    assert!(map.try_place_door(door, Tileset::Moss));
    map
}

#[test]
fn carve_hallways_paves_every_rim() {
    let mut map = MutMap::new(Some(1));
    let rects = vec![rect(0, 0, 10, 10), rect(0, 0, 10, 4), rect(0, 4, 10, 10)];
    map.carve_hallways(&rects);
    for y in -1..12 {
        for x in -1..12 {
            let inside = (0..=10).contains(&x) && (0..=10).contains(&y);
            let rim = inside && (x == 0 || x == 10 || y == 0 || y == 10 || y == 4);
            let cell = map.index(TilePos::of(x, y));
            assert_eq!(cell.is_floor(), rim);
            assert_eq!(cell.is_empty(), !rim);
            if rim {
                assert_eq!(cell.background, rock_floor());
            }
        }
    }
}

#[test]
fn paths_leave_doors_away_from_the_floor() {
    assert_eq!(room_with_door(TilePos::of(0, 3)).paving_direction(TilePos::of(0, 3)), Direction::West);
    assert_eq!(room_with_door(TilePos::of(6, 3)).paving_direction(TilePos::of(6, 3)), Direction::East);
    assert_eq!(room_with_door(TilePos::of(3, 0)).paving_direction(TilePos::of(3, 0)), Direction::North);
    assert_eq!(room_with_door(TilePos::of(3, 6)).paving_direction(TilePos::of(3, 6)), Direction::South);
}

#[test]
fn path_stops_at_the_first_tile_that_holds_something() {
    let mut map = room_with_door(TilePos::of(6, 3));
    map.index_mut(TilePos::of(11, 3)).set(rock_wall());
    assert!(map.pave_from_door(TilePos::of(6, 3), 250));
    for x in 7..11 {
        assert_eq!(map.index(TilePos::of(x, 3)).background, rock_floor());
        assert!(map.index(TilePos::of(x, 3)).is_floor());
    }
    assert!(map.index(TilePos::of(11, 3)).is_wall());
    assert!(map.index(TilePos::of(12, 3)).is_empty());
    assert!(map.index(TilePos::of(6, 3)).is_door());
}

#[test]
fn path_that_meets_nothing_ends_before_the_limit() {
    let mut map = room_with_door(TilePos::of(3, 0));
    assert!(!map.pave_from_door(TilePos::of(3, 0), 10));
    for y in 1..10 {
        assert!(map.index(TilePos::of(3, -y)).is_floor());
    }
    assert!(map.index(TilePos::of(3, -10)).is_empty());
    let mut full = room_with_door(TilePos::of(3, 0));
    assert!(!full.pave_from_door(TilePos::of(3, 0), 250));
    assert!(full.index(TilePos::of(3, -249)).is_floor());
    assert!(full.index(TilePos::of(3, -250)).is_empty());
}

#[test]
fn path_of_no_length() {
    let mut map = room_with_door(TilePos::of(0, 3));
    map.index_mut(TilePos::of(-1, 3)).set(rock_floor());
    assert!(map.pave_from_door(TilePos::of(0, 3), 250));
    assert!(map.index(TilePos::of(-2, 3)).is_empty());
    let mut short = room_with_door(TilePos::of(0, 3));
    assert!(!short.pave_from_door(TilePos::of(0, 3), 1));
    assert!(short.index(TilePos::of(-1, 3)).is_empty());
}

#[test]
fn enclose_floors_walls_the_empty_tiles_around_floors() {
    let mut map = MutMap::new(Some(1));
    map.fill_line(rock_floor(), TilePos::of(0, 0), TilePos::of(3, 0));
    map.index_mut(TilePos::of(1, 1)).set(Tile { ty: TileType::DoorNS { open: false }, tileset: Tileset::Moss });
    map.enclose_floors();
    for y in -3..4 {
        for x in -3..7 {
            let cell = map.index(TilePos::of(x, y));
            let floor = y == 0 && (0..=3).contains(&x);
            let around = (-1..=1).contains(&y) && (-1..=4).contains(&x) && !floor;
            if floor {
                assert!(cell.is_floor());
            } else if (x, y) == (1, 1) {
                assert!(cell.is_door());
            } else if around {
                assert_eq!(cell.foreground, rock_wall());
                assert_eq!(cell.background, rock_floor());
            } else {
                assert!(cell.is_empty());
            }
        }
    }
}

#[test]
fn enclose_floors_without_floors_does_nothing() {
    let mut map = MutMap::new(Some(1));
    map.enclose_floors();
    assert_eq!(map.map.chunks.len(), 0);
    map.index_mut(TilePos::of(0, 0)).set(rock_wall());
    map.enclose_floors();
    assert!(map.index(TilePos::of(1, 0)).is_empty());
}

#[test]
fn only_floors_take_spawn_points() {
    let mut map = MutMap::new(Some(1));
    map.index_mut(TilePos::of(0, 0)).set(rock_floor());
    map.index_mut(TilePos::of(1, 0)).set(rock_wall());
    assert!(!map.place_spawn(TilePos::of(1, 0)));
    assert!(!map.place_spawn(TilePos::of(2, 0)));
    assert!(map.index(TilePos::of(1, 0)).is_wall());
    assert!(map.index(TilePos::of(2, 0)).is_empty());
    assert!(map.place_spawn(TilePos::of(0, 0)));
    let cell = map.index(TilePos::of(0, 0));
    assert_eq!(cell.foreground.ty, TileType::Landmark { ty: Landmark::SpawnPlayer, flip: false });
    assert_eq!(cell.background, rock_floor());
    assert!(!map.place_spawn(TilePos::of(0, 0)));
}

#[test]
fn spawn_points_are_placed_on_floors_of_the_leaves() {
    let mut map = MutMap::new(Some(4));
    map.fill(rock_floor(), TilePos::of(0, 0), TilePos::of(3, 3));
    map.enclose_floors();
    let leaves = vec![rect(-5, -5, 8, 8)];
    let spawns = map.place_spawns(&leaves);
    assert_eq!(spawns.len(), 5);
    for (i, pos) in spawns.iter().enumerate() {
        assert!(!spawns[i + 1..].contains(pos));
        assert!((0..=3).contains(&pos.x) && (0..=3).contains(&pos.y));
        assert_eq!(map.index(*pos).foreground.ty, TileType::Landmark { ty: Landmark::SpawnPlayer, flip: false });
        assert_eq!(map.index(*pos).background, rock_floor());
    }
    let mut floors = 0;
    for y in 0..=3 {
        for x in 0..=3 {
            if map.index(TilePos::of(x, y)).is_floor() {
                floors += 1;
            }
        }
    }
    assert_eq!(floors, 11);
}

#[test]
fn no_floor_no_spawn_point() {
    let mut map = MutMap::new(Some(4));
    map.fill(rock_wall(), TilePos::of(0, 0), TilePos::of(3, 3));
    let leaves = vec![rect(0, 0, 3, 3)];
    assert!(map.place_spawns(&leaves).is_empty());
}

#[test]
fn every_floor_drawn_becomes_a_spawn_point_once() {
    // one leaf of one tile: every place drawn is that tile
    let mut map = MutMap::new(Some(4));
    map.index_mut(TilePos::of(2, 2)).set(rock_floor());
    map.enclose_floors();
    let spawns = map.place_spawns(&vec![rect(2, 2, 2, 2)]);
    assert_eq!(spawns, vec![TilePos::of(2, 2)]);
    // a leaf of four floors: fewer floors than spawn points asked for
    let mut map = MutMap::new(Some(4));
    map.fill(rock_floor(), TilePos::of(0, 0), TilePos::of(1, 1));
    map.enclose_floors();
    let mut spawns = map.place_spawns(&vec![rect(0, 0, 1, 1)]);
    spawns.sort_by_key(|pos| (pos.y, pos.x));
    assert_eq!(spawns, vec![TilePos::of(0, 0), TilePos::of(1, 0), TilePos::of(0, 1), TilePos::of(1, 1)]);
}

#[test]
fn pave_doors_paves_door_by_door_and_lists_the_doors_that_met_nothing() {
    let mut map = MutMap::new(Some(1));
    map.lay_room(rect(0, 0, 6, 6), Tileset::Moss);
    map.lay_room(rect(20, 0, 26, 6), Tileset::Crypt);
    assert!(map.try_place_door(TilePos::of(6, 3), Tileset::Moss));
    assert!(map.try_place_door(TilePos::of(3, 0), Tileset::Moss));
    assert!(map.try_place_door(TilePos::of(20, 3), Tileset::Crypt));
    let doors = vec![vec![TilePos::of(6, 3), TilePos::of(3, 0)], vec![TilePos::of(20, 3)]];
    let loose = map.pave_doors(&doors);
    // the door to the north meets nothing
    assert_eq!(loose, vec![TilePos::of(3, 0)]);
    assert!(map.index(TilePos::of(3, -249)).is_floor());
    assert!(map.index(TilePos::of(3, -250)).is_empty());
    // the first door's path runs east up to the wall of the second room,
    // and the path of the second room's door, westward, meets it at once
    for x in 7..20 {
        assert_eq!(map.index(TilePos::of(x, 3)).background, rock_floor());
        assert!(map.index(TilePos::of(x, 3)).is_floor());
    }
    assert!(map.index(TilePos::of(6, 3)).is_door());
    assert!(map.index(TilePos::of(20, 3)).is_door());
    assert!(map.index(TilePos::of(7, 2)).is_empty());
    assert!(map.index(TilePos::of(7, 4)).is_empty());
}

#[test]
fn pave_doors_without_doors_changes_nothing() {
    let mut map = MutMap::new(Some(1));
    map.lay_room(rect(0, 0, 6, 6), Tileset::Moss);
    let loose = map.pave_doors(&vec![vec![], vec![]]);
    assert!(loose.is_empty());
    assert_eq!(map.map.used_tiles(), rect(0, 0, 6, 6));
}
