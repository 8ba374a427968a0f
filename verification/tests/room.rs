use undercity::mutmap::MutMap;
use undercity::pos::{Direction, TilePos};
use undercity::rect::TileRect;
use undercity::rng::MapRng;
use undercity::room::{all_tilesets, generate_room, require_door, shrine_kinds, GenerateError};
use undercity::tile::{FloorType, Landmark, Tile, TileType, Tileset, WallShape};

fn rect(x0: i32, y0: i32, x1: i32, y1: i32) -> TileRect {
    TileRect::new_presorted(TilePos::of(x0, y0), TilePos::of(x1, y1))
}

fn rng(seed: u64) -> MapRng {
    MutMap::new(Some(seed)).rng
}

fn laid(rect: TileRect) -> MutMap {
    let mut map = MutMap::new(Some(5));
    map.lay_room(rect, Tileset::Crypt);
    map
}

#[test]
fn lay_room_puts_floor_inside_a_rim_of_wall() {
    let map = laid(rect(0, 0, 6, 4));
    for y in -1..6 {
        for x in -1..8 {
            let cell = map.index(TilePos::of(x, y));
            let inside = (0..=6).contains(&x) && (0..=4).contains(&y);
            let rim = inside && (x == 0 || x == 6 || y == 0 || y == 4);
            assert_eq!(cell.is_wall(), rim);
            assert_eq!(cell.is_floor(), inside && !rim);
            assert_eq!(cell.is_empty(), !inside);
            if rim {
                assert_eq!(cell.foreground, Tile { ty: TileType::Wall(WallShape::Solid), tileset: Tileset::Crypt });
            }
            if inside {
                assert_eq!(cell.background, Tile { ty: TileType::Floor(FloorType::Tileset), tileset: Tileset::Crypt });
            }
        }
    }
}

#[test]
fn door_in_a_side_wall_runs_north_south() {
    let mut map = laid(rect(0, 0, 6, 4));
    assert!(map.try_place_door(TilePos::of(0, 2), Tileset::Crypt));
    assert_eq!(
        map.index(TilePos::of(0, 2)).foreground,
        Tile { ty: TileType::DoorNS { open: false }, tileset: Tileset::Crypt }
    );
    assert!(map.try_place_door(TilePos::of(6, 1), Tileset::Crypt));
    assert_eq!(map.index(TilePos::of(6, 1)).foreground.ty, TileType::DoorNS { open: false });
}

#[test]
fn door_in_the_top_or_bottom_wall_runs_east_west() {
    let mut map = laid(rect(0, 0, 6, 4));
    assert!(map.try_place_door(TilePos::of(3, 0), Tileset::Crypt));
    assert_eq!(map.index(TilePos::of(3, 0)).foreground.ty, TileType::DoorEW { open: false });
    assert!(map.try_place_door(TilePos::of(1, 4), Tileset::Crypt));
    assert_eq!(map.index(TilePos::of(1, 4)).foreground.ty, TileType::DoorEW { open: false });
    assert_eq!(
        map.index(TilePos::of(1, 4)).background,
        Tile { ty: TileType::Floor(FloorType::Tileset), tileset: Tileset::Crypt }
    );
}

#[test]
fn corners_take_no_door() {
    let mut map = laid(rect(0, 0, 6, 4));
    for &(x, y) in &[(0, 0), (6, 0), (0, 4), (6, 4)] {
        assert!(!map.try_place_door(TilePos::of(x, y), Tileset::Crypt));
        assert!(map.index(TilePos::of(x, y)).is_wall());
    }
}

#[test]
fn floor_takes_no_door() {
    let mut map = laid(rect(0, 0, 6, 4));
    assert!(!map.try_place_door(TilePos::of(3, 2), Tileset::Crypt));
    assert!(map.index(TilePos::of(3, 2)).is_floor());
    assert!(!map.try_place_door(TilePos::of(20, 20), Tileset::Crypt));
    assert!(map.index(TilePos::of(20, 20)).is_empty());
}

#[test]
fn a_place_beside_a_door_takes_no_door() {
    let mut map = laid(rect(0, 0, 6, 4));
    assert!(map.try_place_door(TilePos::of(3, 0), Tileset::Crypt));
    assert!(!map.try_place_door(TilePos::of(2, 0), Tileset::Crypt));
    assert!(!map.try_place_door(TilePos::of(4, 0), Tileset::Crypt));
    assert!(map.index(TilePos::of(2, 0)).is_wall());
    assert!(map.try_place_door(TilePos::of(5, 0), Tileset::Crypt));
    // a place that holds a door takes none
    assert!(!map.try_place_door(TilePos::of(3, 0), Tileset::Crypt));
    assert_eq!(map.index(TilePos::of(3, 0)).foreground.ty, TileType::DoorEW { open: false });
}

#[test]
fn rooms_pick_from_every_skin_and_two_shrines() {
    assert_eq!(all_tilesets().len(), 24);
    assert_eq!(all_tilesets()[0], Tileset::BrickBlue);
    assert_eq!(all_tilesets()[23], Tileset::Tunnel);
    assert_eq!(shrine_kinds(), vec![Landmark::ShrineIdol, Landmark::ShrineSkulls]);
}

#[test]
fn generated_room_is_a_room() {
    let mut skins = Vec::new();
    let mut shrines = Vec::new();
    let mut door_counts = Vec::new();
    let mut flips = Vec::new();
    for seed in 0..60u64 {
        let area = rect(0, 0, 12, 9);
        let mut rng = rng(seed);
        let (room, doors) = generate_room(&mut rng, area).unwrap();
        assert!((1..=4).contains(&doors.len()));
        let skin = room.index(TilePos::of(0, 0)).foreground.tileset;
        let mut shrine_count = 0;
        for y in -2..12 {
            for x in -2..15 {
                let pos = TilePos::of(x, y);
                let cell = room.index(pos);
                let inside = area.holds(pos);
                let rim = inside && (x == 0 || x == 12 || y == 0 || y == 9);
                if !inside {
                    assert!(cell.is_empty());
                } else if rim {
                    if doors.contains(&pos) {
                        let side = x == 0 || x == 12;
                        let kind = if side {
                            TileType::DoorNS { open: false }
                        } else {
                            TileType::DoorEW { open: false }
                        };
                        assert_eq!(cell.foreground, Tile { ty: kind, tileset: skin });
                    } else {
                        assert_eq!(cell.foreground, Tile { ty: TileType::Wall(WallShape::Solid), tileset: skin });
                    }
                } else if cell.is_landmark() {
                    shrine_count += 1;
                    match cell.foreground.ty {
                        TileType::Landmark { ty, flip } => {
                            assert!(ty == Landmark::ShrineIdol || ty == Landmark::ShrineSkulls);
                            if !shrines.contains(&ty) {
                                shrines.push(ty);
                            }
                            if !flips.contains(&flip) {
                                flips.push(flip);
                            }
                        }
                        _ => unreachable!(),
                    }
                    assert_eq!(cell.foreground.tileset, Tileset::BrickBlue);
                    assert_eq!(cell.background.tileset, Tileset::BrickBlue);
                } else {
                    assert!(cell.is_floor());
                    assert_eq!(cell.background.tileset, skin);
                }
            }
        }
        assert_eq!(shrine_count, 1);
        for (i, &door) in doors.iter().enumerate() {
            assert!(!doors[i + 1..].contains(&door));
            assert!(!(door.x == 0 || door.x == 12) || !(door.y == 0 || door.y == 9));
            for &other in &doors {
                assert!((door.x - other.x).abs() + (door.y - other.y).abs() != 1);
            }
            let cell = room.index(door);
            if matches!(cell.foreground.ty, TileType::DoorNS { .. }) {
                assert!(room.index(door.neighbor(Direction::North)).is_wall());
                assert!(room.index(door.neighbor(Direction::South)).is_wall());
            } else {
                assert!(room.index(door.neighbor(Direction::East)).is_wall());
                assert!(room.index(door.neighbor(Direction::West)).is_wall());
            }
        }
        if !skins.contains(&skin) {
            skins.push(skin);
        }
        if !door_counts.contains(&doors.len()) {
            door_counts.push(doors.len());
        }
    }
    // sixty rooms that all drew the same would mean that nothing was drawn
    assert!(skins.len() > 5);
    assert_eq!(shrines.len(), 2);
    assert_eq!(flips.len(), 2);
    assert!(door_counts.len() > 1);
}

#[test]
fn smallest_room_has_one_floor_tile() {
    let mut rng = rng(1);
    let (room, doors) = generate_room(&mut rng, rect(0, 0, 2, 2)).unwrap();
    assert!(room.index(TilePos::of(1, 1)).is_landmark());
    assert!(!doors.is_empty());
    for door in doors {
        assert!(door.x == 1 || door.y == 1);
    }
}

#[test]
fn room_without_floor_is_too_small() {
    for area in [rect(0, 0, 1, 5), rect(0, 0, 5, 1), rect(0, 0, 0, 0), rect(0, 0, -4, -4), rect(0, 0, 5, -1)] {
        let mut rng = rng(1);
        assert_eq!(generate_room(&mut rng, area).err(), Some(GenerateError::RoomTooSmall));
    }
}

#[test]
fn errors_say_what_went_wrong() {
    assert_eq!(GenerateError::NoDoor.message(), "could not place any doors");
    assert_ne!(GenerateError::RoomTooSmall.message(), GenerateError::NoSpawn.message());
}

#[test]
fn a_room_without_doors_is_an_error() {
    assert_eq!(require_door(0), Err(GenerateError::NoDoor));
    assert_eq!(require_door(1), Ok(1));
    assert_eq!(require_door(4), Ok(4));
}

#[test]
fn the_smallest_room_lists_each_door_once() {
    for seed in 0..40u64 {
        let mut rng = rng(seed);
        let (room, doors) = generate_room(&mut rng, rect(0, 0, 2, 2)).unwrap();
        let mut cells = 0;
        for y in 0..=2 {
            for x in 0..=2 {
                if room.index(TilePos::of(x, y)).is_door() {
                    cells += 1;
                }
            }
        }
        assert_eq!(cells, doors.len());
    }
}
