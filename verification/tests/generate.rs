use undercity::generate::{generate_dungeon, generate_map, require_spawn};
use undercity::pos::{Direction, TilePos};
use undercity::room::GenerateError;
use undercity::tile::{Landmark, TileType};

fn first_good_seed() -> u64 {
    for seed in 0..200u64 {
        if generate_dungeon(seed).is_ok() {
            return seed;
        }
    }
    panic!("no seed below 200 gives a dungeon");
}

#[test]
fn same_seed_gives_the_same_grid() {
    let seed = first_good_seed();
    let a = generate_map(seed).unwrap();
    let b = generate_map(seed).unwrap();
    let rect = a.map.used_tiles();
    assert_eq!(rect, b.map.used_tiles());
    for y in rect.min.y..=rect.max.y {
        for x in rect.min.x..=rect.max.x {
            let pos = TilePos::of(x, y);
            assert_eq!(a.index(pos), b.index(pos));
        }
    }
}

#[test]
fn every_floor_is_enclosed() {
    let seed = first_good_seed();
    let map = generate_map(seed).unwrap();
    let rect = map.map.used_tiles();
    let mut floors = 0;
    for y in rect.min.y..=rect.max.y {
        for x in rect.min.x..=rect.max.x {
            let pos = TilePos::of(x, y);
            if !map.index(pos).is_floor() {
                continue;
            }
            floors += 1;
            for other in pos.moore_neighborhood() {
                assert!(!map.index(other).is_empty(), "{pos:?} has empty {other:?} beside it");
            }
        }
    }
    assert!(floors > 0);
}

#[test]
fn every_room_has_one_to_four_fitting_doors() {
    let seed = first_good_seed();
    let dungeon = generate_dungeon(seed).unwrap();
    assert_eq!(dungeon.rooms.len(), 16);
    assert_eq!(dungeon.room_doors.len(), 16);
    for (room, doors) in dungeon.rooms.iter().zip(dungeon.room_doors.iter()) {
        assert!((1..=4).contains(&doors.len()));
        for &door in doors {
            assert!(room.min.x <= door.x && door.x <= room.max.x);
            assert!(room.min.y <= door.y && door.y <= room.max.y);
            let cell = dungeon.map.index(door);
            match cell.foreground.ty {
                TileType::DoorNS { open } => {
                    assert!(!open);
                    assert!(dungeon.map.index(door.neighbor(Direction::North)).is_wall());
                    assert!(dungeon.map.index(door.neighbor(Direction::South)).is_wall());
                }
                TileType::DoorEW { open } => {
                    assert!(!open);
                    assert!(dungeon.map.index(door.neighbor(Direction::East)).is_wall());
                    assert!(dungeon.map.index(door.neighbor(Direction::West)).is_wall());
                }
                other => panic!("{door:?} holds {other:?}, no door"),
            }
            for &other in doors {
                let dx = (door.x - other.x).abs();
                let dy = (door.y - other.y).abs();
                assert!(dx + dy != 1, "{door:?} and {other:?} share a side");
            }
        }
    }
}

#[test]
fn a_dungeon_has_one_to_five_spawn_points() {
    let seed = first_good_seed();
    let map = generate_map(seed).unwrap();
    let rect = map.map.used_tiles();
    let mut spawns = 0;
    for y in rect.min.y..=rect.max.y {
        for x in rect.min.x..=rect.max.x {
            let cell = map.index(TilePos::of(x, y));
            if cell.foreground.ty == (TileType::Landmark { ty: Landmark::SpawnPlayer, flip: false }) {
                assert!(matches!(cell.background.ty, TileType::Floor(_)));
                spawns += 1;
            }
        }
    }
    assert!((1..=5).contains(&spawns));
    let dungeon = generate_dungeon(seed).unwrap();
    assert_eq!(dungeon.spawns.len(), spawns);
    for (i, pos) in dungeon.spawns.iter().enumerate() {
        assert!(!dungeon.spawns[i + 1..].contains(pos));
        let cell = dungeon.map.index(*pos);
        assert_eq!(cell.foreground.ty, TileType::Landmark { ty: Landmark::SpawnPlayer, flip: false });
    }
}

#[test]
fn generation_fails_only_with_its_own_errors() {
    let mut good = 0;
    for seed in 0..40u64 {
        match generate_map(seed) {
            Ok(_) => good += 1,
            Err(e) => assert!(matches!(e, GenerateError::RoomTooSmall | GenerateError::NoDoor | GenerateError::NoSpawn)),
        }
    }
    println!("{good} of 40 seeds gave a dungeon");
}

#[test]
fn rooms_share_no_tile_and_keep_their_layout() {
    let seed = first_good_seed();
    let dungeon = generate_dungeon(seed).unwrap();
    for (i, room) in dungeon.rooms.iter().enumerate() {
        assert!(-60 <= room.min.x && room.max.x <= 60 && -60 <= room.min.y && room.max.y <= 60);
        for other in &dungeon.rooms[i + 1..] {
            assert!(!room.intersects(other));
        }
        let mut shrines = 0;
        for pos in room.tiles() {
            let cell = dungeon.map.index(pos);
            let rim = pos.x == room.min.x || pos.x == room.max.x || pos.y == room.min.y || pos.y == room.max.y;
            if rim {
                assert!(cell.is_wall() || cell.is_door());
                assert_eq!(cell.is_door(), dungeon.room_doors[i].contains(&pos));
            } else {
                match cell.foreground.ty {
                    TileType::Empty => assert!(cell.is_floor()),
                    TileType::Landmark { ty: Landmark::SpawnPlayer, .. } => {}
                    TileType::Landmark { ty, .. } => {
                        assert!(ty == Landmark::ShrineIdol || ty == Landmark::ShrineSkulls);
                        shrines += 1;
                    }
                    other => panic!("{pos:?} holds {other:?} inside a room"),
                }
            }
        }
        assert_eq!(shrines, 1);
    }
}

#[test]
fn loose_doors_are_doors_of_the_dungeon() {
    for seed in 0..20u64 {
        if let Ok(dungeon) = generate_dungeon(seed) {
            for door in &dungeon.loose_doors {
                assert!(dungeon.room_doors.iter().any(|doors| doors.contains(door)));
            }
        }
    }
}

#[test]
fn different_seeds_give_different_grids() {
    let seed = first_good_seed();
    let a = generate_dungeon(seed).unwrap();
    let mut differs = false;
    for other in seed + 1..seed + 50 {
        if let Ok(b) = generate_dungeon(other) {
            if a.rooms != b.rooms {
                differs = true;
            }
        }
    }
    assert!(differs);
}

#[test]
fn the_rims_of_the_partition_are_paved() {
    let seed = first_good_seed();
    let dungeon = generate_dungeon(seed).unwrap();
    assert_eq!(dungeon.hallways.len(), 31);
    let rock_floor = undercity::tile::Tile {
        ty: TileType::Floor(undercity::tile::FloorType::Tileset),
        tileset: undercity::tile::Tileset::Rock,
    };
    for hall in &dungeon.hallways {
        for pos in hall.tiles() {
            let rim = pos.x == hall.min.x || pos.x == hall.max.x || pos.y == hall.min.y || pos.y == hall.max.y;
            if !rim {
                continue;
            }
            let cell = dungeon.map.index(pos);
            assert_eq!(cell.background, rock_floor);
            assert!(
                cell.is_floor()
                    || cell.foreground.ty == (TileType::Landmark { ty: Landmark::SpawnPlayer, flip: false })
            );
        }
    }
}

#[test]
fn a_path_leaves_every_door() {
    let seed = first_good_seed();
    let dungeon = generate_dungeon(seed).unwrap();
    let paved = |pos: TilePos| {
        let cell = dungeon.map.index(pos);
        matches!(cell.background.ty, TileType::Floor(_))
            && (cell.foreground.is_empty()
                || cell.foreground.ty == (TileType::Landmark { ty: Landmark::SpawnPlayer, flip: false }))
    };
    for doors in &dungeon.room_doors {
        for &door in doors {
            let mut leads = false;
            for dir in [Direction::North, Direction::East, Direction::South, Direction::West] {
                let delta = dir.delta();
                let mut steps = 1;
                while steps < 250 && paved(TilePos::of(door.x + delta.x * steps, door.y + delta.y * steps)) {
                    steps += 1;
                }
                let end = TilePos::of(door.x + delta.x * steps, door.y + delta.y * steps);
                if steps == 250 || !dungeon.map.index(end).is_empty() {
                    leads = true;
                }
            }
            assert!(leads);
        }
    }
}

#[test]
fn outside_the_rooms_are_only_paths_and_walls() {
    let seed = first_good_seed();
    let dungeon = generate_dungeon(seed).unwrap();
    let rect = dungeon.map.map.used_tiles();
    let rock = undercity::tile::Tileset::Rock;
    for pos in rect.tiles() {
        if dungeon.rooms.iter().any(|room| room.holds(pos)) {
            continue;
        }
        let cell = dungeon.map.index(pos);
        if cell.is_empty() {
            continue;
        }
        assert_eq!(cell.background.tileset, rock);
        assert!(matches!(cell.background.ty, TileType::Floor(_)));
        match cell.foreground.ty {
            TileType::Empty => {}
            TileType::Landmark { ty: Landmark::SpawnPlayer, flip: false } => {}
            TileType::Wall(undercity::tile::WallShape::Solid) => assert_eq!(cell.foreground.tileset, rock),
            other => panic!("{pos:?} holds {other:?} outside the rooms"),
        }
    }
}

#[test]
fn every_room_is_a_leaf_of_the_partition_taken_in() {
    let seed = first_good_seed();
    let dungeon = generate_dungeon(seed).unwrap();
    for room in &dungeon.rooms {
        let fits = dungeon.hallways.iter().any(|leaf| {
            let inset = room.min.x - leaf.min.x;
            (3..7).contains(&inset)
                && room.min.y - leaf.min.y == inset
                && leaf.max.x - room.max.x == inset
                && leaf.max.y - room.max.y == inset
        });
        assert!(fits);
    }
}

#[test]
fn a_search_without_spawn_points_is_an_error() {
    assert_eq!(require_spawn(0), Err(GenerateError::NoSpawn));
    assert_eq!(require_spawn(1), Ok(1));
    assert_eq!(require_spawn(5), Ok(5));
}

#[test]
fn a_ring_of_rock_wall_lies_around_the_map_rectangle() {
    for seed in [0u64, 1, 3, 4] {
        let dungeon = generate_dungeon(seed).unwrap();
        let rock_wall = undercity::tile::Tile {
            ty: TileType::Wall(undercity::tile::WallShape::Solid),
            tileset: undercity::tile::Tileset::Rock,
        };
        for t in -61..=61 {
            for pos in [TilePos::of(t, -61), TilePos::of(t, 61), TilePos::of(-61, t), TilePos::of(61, t)] {
                let cell = dungeon.map.index(pos);
                assert_eq!(cell.foreground, rock_wall);
                assert!(cell.is_wall());
            }
        }
        let rect = dungeon.map.map.used_tiles();
        assert_eq!(rect.min, TilePos::of(-61, -61));
        assert_eq!(rect.max, TilePos::of(61, 61));
        for t in -70..=70 {
            assert!(dungeon.map.index(TilePos::of(t, -62)).is_empty());
            assert!(dungeon.map.index(TilePos::of(62, t)).is_empty());
        }
        assert!(dungeon.loose_doors.is_empty());
    }
}

#[test]
fn spawn_cells_are_the_listed_spawn_points() {
    let seed = first_good_seed();
    let dungeon = generate_dungeon(seed).unwrap();
    let spawn = TileType::Landmark { ty: Landmark::SpawnPlayer, flip: false };
    for y in -62..=62 {
        for x in -62..=62 {
            let pos = TilePos::of(x, y);
            let cell = dungeon.map.index(pos);
            assert_eq!(cell.foreground.ty == spawn, dungeon.spawns.contains(&pos));
            // the layers of every cell are in order, and nothing is plucked
            assert!(!matches!(cell.foreground.ty, TileType::Floor(_)));
            assert!(cell.foreground.is_empty() || matches!(cell.background.ty, TileType::Floor(_)));
            assert!(!cell.plucked);
        }
    }
    for pos in &dungeon.spawns {
        assert!((-60..=60).contains(&pos.x) && (-60..=60).contains(&pos.y));
        for other in pos.moore_neighborhood() {
            assert!(!dungeon.map.index(other).is_empty());
        }
    }
}

#[test]
fn doors_of_the_map_are_listed_and_share_no_side() {
    let seed = first_good_seed();
    let dungeon = generate_dungeon(seed).unwrap();
    let mut cells = 0;
    for y in -62..=62 {
        for x in -62..=62 {
            let pos = TilePos::of(x, y);
            if !dungeon.map.index(pos).is_door() {
                continue;
            }
            cells += 1;
            assert!(dungeon.room_doors.iter().any(|doors| doors.contains(&pos)));
            for other in pos.von_neumann_neighborhood() {
                assert!(!dungeon.map.index(other).is_door());
            }
        }
    }
    let listed: usize = dungeon.room_doors.iter().map(|doors| doors.len()).sum();
    assert_eq!(cells, listed);
}
