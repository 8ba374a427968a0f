use undercity::pos::{ChunkPos, Direction, TileDelta, TilePos};

#[test]
fn chunk_and_offset_give_the_tile_back() {
    let samples = [
        0, 1, 31, 32, 33, 63, 64, -1, -2, -31, -32, -33, -64, -65, 1000, -1000, 123_456, -123_456,
        i32::MAX, i32::MAX - 1, i32::MIN, i32::MIN + 1,
    ];
    for &x in &samples {
        for &y in &samples {
            let pos = TilePos::of(x, y);
            let chunk = ChunkPos::from(pos);
            let local = pos.chunk_relative();
            assert!((0..32).contains(&local.x) && (0..32).contains(&local.y));
            assert_eq!(chunk.x as i64 * 32 + local.x as i64, x as i64);
            assert_eq!(chunk.y as i64 * 32 + local.y as i64, y as i64);
            assert_eq!(chunk, ChunkPos::of_tile(pos));
        }
    }
}

#[test]
fn negative_tiles_lie_in_negative_chunks() {
    assert_eq!(ChunkPos::from(TilePos::of(-1, -1)), ChunkPos::of(-1, -1));
    assert_eq!(TilePos::of(-1, -1).chunk_relative(), TilePos::of(31, 31));
    assert_eq!(ChunkPos::from(TilePos::of(-32, 0)), ChunkPos::of(-1, 0));
    assert_eq!(TilePos::of(-32, 0).chunk_relative(), TilePos::of(0, 0));
    assert_eq!(ChunkPos::from(TilePos::of(-33, 32)), ChunkPos::of(-2, 1));
    assert_eq!(TilePos::of(-33, 32).chunk_relative(), TilePos::of(31, 0));
}

#[test]
fn chunk_index_is_row_major() {
    assert_eq!(TilePos::of(0, 0).chunk_index(), 0);
    assert_eq!(TilePos::of(31, 0).chunk_index(), 31);
    assert_eq!(TilePos::of(0, 1).chunk_index(), 32);
    assert_eq!(TilePos::of(5, 3).chunk_index(), 101);
    assert_eq!(TilePos::of(31, 31).chunk_index(), 1023);
}

#[test]
fn min_and_max_tile_of_a_chunk() {
    assert_eq!(ChunkPos::of(0, 0).min_tile(), TilePos::of(0, 0));
    assert_eq!(ChunkPos::of(0, 0).max_tile(), TilePos::of(31, 31));
    assert_eq!(ChunkPos::of(-1, 2).min_tile(), TilePos::of(-32, 64));
    assert_eq!(ChunkPos::of(-1, 2).max_tile(), TilePos::of(-1, 95));
}

#[test]
fn directions_are_unit_steps() {
    assert_eq!(Direction::North.delta(), TileDelta::of(0, -1));
    assert_eq!(Direction::NorthEast.delta(), TileDelta::of(1, -1));
    assert_eq!(Direction::East.delta(), TileDelta::of(1, 0));
    assert_eq!(Direction::SouthEast.delta(), TileDelta::of(1, 1));
    assert_eq!(Direction::South.delta(), TileDelta::of(0, 1));
    assert_eq!(Direction::SouthWest.delta(), TileDelta::of(-1, 1));
    assert_eq!(Direction::West.delta(), TileDelta::of(-1, 0));
    assert_eq!(Direction::NorthWest.delta(), TileDelta::of(-1, -1));
    assert_eq!(Direction::moore().len(), 8);
}

#[test]
fn neighbor_steps_once() {
    let pos = TilePos::of(10, -4);
    assert_eq!(pos.neighbor(Direction::North), TilePos::of(10, -5));
    assert_eq!(pos.neighbor(Direction::SouthWest), TilePos::of(9, -3));
    assert_eq!(pos.offset(TileDelta::of(-10, 4)), TilePos::of(0, 0));
}

#[test]
fn moore_neighborhood_goes_clockwise_from_north() {
    let around = TilePos::of(0, 0).moore_neighborhood();
    assert_eq!(
        around,
        vec![
            TilePos::of(0, -1),
            TilePos::of(1, -1),
            TilePos::of(1, 0),
            TilePos::of(1, 1),
            TilePos::of(0, 1),
            TilePos::of(-1, 1),
            TilePos::of(-1, 0),
            TilePos::of(-1, -1),
        ]
    );
}

#[test]
fn von_neumann_neighborhood_goes_clockwise_from_north() {
    let around = TilePos::of(3, 3).von_neumann_neighborhood();
    assert_eq!(
        around,
        vec![TilePos::of(3, 2), TilePos::of(4, 3), TilePos::of(3, 4), TilePos::of(2, 3)]
    );
}

#[test]
fn checked_neighbor_stops_at_the_end_of_the_plane() {
    let corner = TilePos::of(i32::MAX, i32::MIN);
    assert_eq!(corner.checked_neighbor(Direction::East), None);
    assert_eq!(corner.checked_neighbor(Direction::North), None);
    assert_eq!(corner.checked_neighbor(Direction::NorthWest), None);
    assert_eq!(corner.checked_neighbor(Direction::South), Some(TilePos::of(i32::MAX, i32::MIN + 1)));
    assert_eq!(corner.checked_neighbor(Direction::West), Some(TilePos::of(i32::MAX - 1, i32::MIN)));
}

#[test]
fn keys_tell_positions_apart() {
    let samples = [i32::MIN, -33, -1, 0, 1, 32, i32::MAX];
    let mut keys = Vec::new();
    for &x in &samples {
        for &y in &samples {
            keys.push(TilePos::of(x, y).key());
            assert_eq!(TilePos::of(x, y).key(), ChunkPos::of(x, y).key());
        }
    }
    let count = keys.len();
    keys.sort();
    keys.dedup();
    assert_eq!(keys.len(), count);
    assert_eq!(TilePos::of(i32::MIN, i32::MIN).key(), 0);
    assert_eq!(TilePos::of(0, 0).key(), 0x8000_0000_8000_0000);
    assert_eq!(TilePos::of(i32::MAX, i32::MAX).key(), u64::MAX);
}

#[test]
fn positions_and_deltas_convert() {
    assert_eq!(TilePos::from(TileDelta::of(3, -4)), TilePos::of(3, -4));
    assert_eq!(TileDelta::from(TilePos::of(3, -4)), TileDelta::of(3, -4));
    assert_eq!(TileDelta::splat(7), TileDelta::of(7, 7));
}
