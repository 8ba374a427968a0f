use undercity::mutmap::MutMap;
use undercity::pos::{ChunkPos, TilePos};
use undercity::tile::{FloorType, Tile, TileType, Tileset, WallShape};

fn floor() -> Tile {
    Tile { ty: TileType::Floor(FloorType::Tileset), tileset: Tileset::Rock }
}

fn wall() -> Tile {
    Tile { ty: TileType::Wall(WallShape::Solid), tileset: Tileset::Rock }
}

#[test]
fn fill_sets_all_twenty_five_cells() {
    let mut map = MutMap::new(Some(1));
    map.fill(wall(), TilePos::of(0, 0), TilePos::of(4, 4));
    let mut walls = 0;
    for y in -2..7 {
        for x in -2..7 {
            let cell = map.index(TilePos::of(x, y));
            let inside = (0..=4).contains(&x) && (0..=4).contains(&y);
            assert_eq!(cell.is_wall(), inside);
            assert_eq!(cell.is_empty(), !inside);
            if cell.is_wall() {
                walls += 1;
            }
        }
    }
    assert_eq!(walls, 25);
}

#[test]
fn fill_border_sets_exactly_the_sixteen_rim_cells() {
    let mut map = MutMap::new(Some(1));
    map.fill_border(wall(), TilePos::of(0, 0), TilePos::of(4, 4));
    let mut walls = 0;
    for y in -2..7 {
        for x in -2..7 {
            let cell = map.index(TilePos::of(x, y));
            let inside = (0..=4).contains(&x) && (0..=4).contains(&y);
            let rim = inside && (x == 0 || x == 4 || y == 0 || y == 4);
            assert_eq!(cell.is_wall(), rim);
            assert_eq!(cell.is_empty(), !rim);
            if cell.is_wall() {
                walls += 1;
            }
        }
    }
    assert_eq!(walls, 16);
}

#[test]
fn used_tiles_spans_the_two_writes() {
    let mut map = MutMap::new(Some(1));
    map.index_mut(TilePos::of(-5, -5)).set(floor());
    map.index_mut(TilePos::of(5, 5)).set(floor());
    let rect = map.map.used_tiles();
    assert_eq!(rect.min, TilePos::of(-5, -5));
    assert_eq!(rect.max, TilePos::of(5, 5));
    let (min, max) = map.map.used_chunks();
    assert_eq!(min, ChunkPos::of(-1, -1));
    assert_eq!(max, ChunkPos::of(0, 0));
}

#[test]
fn fill_line_sets_a_row_or_a_column() {
    let mut map = MutMap::new(Some(1));
    map.fill_line(wall(), TilePos::of(3, 1), TilePos::of(-2, 1));
    map.fill_line(floor(), TilePos::of(0, 5), TilePos::of(0, 3));
    for x in -4..6 {
        assert_eq!(map.index(TilePos::of(x, 1)).is_wall(), (-2..=3).contains(&x));
        assert!(map.index(TilePos::of(x, 0)).is_empty());
        assert!(map.index(TilePos::of(x, 2)).is_empty());
    }
    for y in 2..7 {
        assert_eq!(map.index(TilePos::of(0, y)).is_floor(), (3..=5).contains(&y));
    }
}

#[test]
fn fill_line_of_one_tile() {
    let mut map = MutMap::new(Some(1));
    map.fill_line(wall(), TilePos::of(7, 7), TilePos::of(7, 7));
    assert!(map.index(TilePos::of(7, 7)).is_wall());
    assert_eq!(map.map.used_tiles().min, TilePos::of(7, 7));
    assert_eq!(map.map.used_tiles().max, TilePos::of(7, 7));
}

#[test]
fn fill_border_leaves_the_nine_inner_cells() {
    let mut map = MutMap::new(Some(1));
    map.fill(floor(), TilePos::of(0, 0), TilePos::of(4, 4));
    map.fill_border(wall(), TilePos::of(4, 4), TilePos::of(0, 0));
    let mut floors = 0;
    for y in 1..4 {
        for x in 1..4 {
            assert!(map.index(TilePos::of(x, y)).is_floor());
            floors += 1;
        }
    }
    assert_eq!(floors, 9);
    assert!(map.index(TilePos::of(0, 0)).is_wall());
    assert!(map.index(TilePos::of(4, 2)).is_wall());
}

#[test]
fn reading_allocates_nothing() {
    let map = MutMap::new(Some(1));
    assert!(map.index(TilePos::of(1000, -1000)).is_empty());
    assert_eq!(map.map.chunks.len(), 0);
    assert!(map.map.chunk(ChunkPos::of(31, -32)).is_none());
}

#[test]
fn writing_allocates_the_chunk() {
    let mut map = MutMap::new(Some(1));
    map.index_mut(TilePos::of(-1, 40)).set(floor());
    assert_eq!(map.map.chunks.len(), 1);
    let chunk = map.map.chunk(ChunkPos::of(-1, 1)).unwrap();
    assert_eq!(chunk.pos, ChunkPos::of(-1, 1));
    assert!(!chunk.is_empty());
    assert!(chunk.tiles[8 * 32 + 31].is_floor());
    assert!(map.index(TilePos::of(-1, 40)).is_floor());
    assert!(map.index(TilePos::of(-2, 40)).is_empty());
}

#[test]
fn empty_grid_has_no_used_tiles() {
    let map = MutMap::new(Some(1));
    let rect = map.map.used_tiles();
    assert_eq!(rect.min, TilePos::of(i32::MAX, i32::MAX));
    assert_eq!(rect.max, TilePos::of(i32::MIN, i32::MIN));
    let (min, max) = map.map.used_chunks();
    assert_eq!(min, ChunkPos::of(i32::MAX, i32::MAX));
    assert_eq!(max, ChunkPos::of(i32::MIN, i32::MIN));
}

#[test]
fn emptied_chunks_do_not_count_as_used() {
    let mut map = MutMap::new(Some(1));
    map.index_mut(TilePos::of(100, 100)).set(floor());
    map.index_mut(TilePos::of(0, 0)).set(floor());
    map.index_mut(TilePos::of(100, 100)).clear();
    assert_eq!(map.map.chunks.len(), 2);
    assert_eq!(map.map.used_chunks(), (ChunkPos::of(0, 0), ChunkPos::of(0, 0)));
    assert_eq!(map.map.used_tiles().max, TilePos::of(0, 0));
}

#[test]
fn used_tiles_is_the_tightest_rectangle() {
    let mut map = MutMap::new(Some(1));
    for &(x, y) in &[(-70, 3), (90, -40), (10, 130), (0, 0), (-10, -35)] {
        map.index_mut(TilePos::of(x, y)).set(wall());
    }
    let rect = map.map.used_tiles();
    assert_eq!(rect.min, TilePos::of(-70, -40));
    assert_eq!(rect.max, TilePos::of(90, 130));
    assert_eq!(map.map.used_chunks(), (ChunkPos::of(-3, -2), ChunkPos::of(2, 4)));
}

#[test]
fn used_tiles_sees_cells_in_the_middle_of_the_rim_chunks() {
    let mut map = MutMap::new(Some(1));
    map.fill(floor(), TilePos::of(-100, -100), TilePos::of(100, 100));
    let rect = map.map.used_tiles();
    assert_eq!(rect.min, TilePos::of(-100, -100));
    assert_eq!(rect.max, TilePos::of(100, 100));
}

#[test]
fn into_tiles_lists_every_used_cell_once() {
    let mut map = MutMap::new(Some(1));
    map.fill_border(wall(), TilePos::of(-40, -40), TilePos::of(40, 40));
    map.index_mut(TilePos::of(0, 0)).set(floor());
    let mut tiles = map.map.clone().into_tiles();
    assert_eq!(tiles.len(), 4 * 80 + 1);
    for (pos, cell) in &tiles {
        assert_eq!(map.index(*pos), *cell);
        assert!(!cell.is_empty());
    }
    tiles.sort_by_key(|(pos, _)| (pos.y, pos.x));
    tiles.dedup_by_key(|(pos, _)| *pos);
    assert_eq!(tiles.len(), 4 * 80 + 1);
}

#[test]
fn copy_from_puts_the_smallest_used_corner_at_the_destination() {
    let mut source = MutMap::new(Some(1));
    source.fill_border(wall(), TilePos::of(10, 20), TilePos::of(13, 22));
    source.index_mut(TilePos::of(11, 21)).set(floor());
    let mut target = MutMap::new(Some(2));
    target.fill(floor(), TilePos::of(-10, -10), TilePos::of(10, 10));
    target.copy_from(&source, TilePos::of(-2, 5));
    for y in -12..12 {
        for x in -12..12 {
            let cell = target.index(TilePos::of(x, y));
            let inside = (-2..=1).contains(&x) && (5..=7).contains(&y);
            if inside {
                assert_eq!(cell, source.index(TilePos::of(x + 12, y + 15)));
            } else {
                assert_eq!(cell.is_floor(), (-10..=10).contains(&x) && (-10..=10).contains(&y));
            }
        }
    }
    // the empty cell inside the source's used rectangle is copied too
    assert!(source.index(TilePos::of(12, 21)).is_empty());
    assert!(target.index(TilePos::of(0, 6)).is_empty());
}

#[test]
fn copy_from_an_empty_grid_changes_nothing() {
    let source = MutMap::new(Some(1));
    let mut target = MutMap::new(Some(2));
    target.index_mut(TilePos::of(0, 0)).set(wall());
    target.copy_from(&source, TilePos::of(0, 0));
    assert!(target.index(TilePos::of(0, 0)).is_wall());
    assert_eq!(target.map.chunks.len(), 1);
}

#[test]
fn pluck_tiles_hands_each_tile_over_once() {
    let mut map = MutMap::new(Some(1));
    map.fill(floor(), TilePos::of(0, 0), TilePos::of(9, 9));
    map.index_mut(TilePos::of(7, 2)).set(wall());
    map.index_mut(TilePos::of(3, 2)).set(wall());
    map.index_mut(TilePos::of(5, 8)).set(wall());
    let taken = map.pluck_tiles(|_, cell| cell.is_wall());
    assert_eq!(
        taken,
        vec![(TilePos::of(3, 2), wall()), (TilePos::of(7, 2), wall()), (TilePos::of(5, 8), wall())]
    );
    for (pos, _) in &taken {
        assert!(map.index(*pos).plucked);
        assert!(map.index(*pos).is_wall());
        assert_eq!(map.index(*pos).rendered_layers().0, None);
    }
    assert!(!map.index(TilePos::of(0, 0)).plucked);
    assert!(map.pluck_tiles(|_, cell| cell.is_wall()).is_empty());
    let floors = map.pluck_tiles(|pos, cell| cell.is_floor() && pos.x == 0);
    assert_eq!(floors.len(), 10);
}

#[test]
fn pluck_tiles_on_an_empty_grid() {
    let mut map = MutMap::new(Some(1));
    assert!(map.pluck_tiles(|_, _| true).is_empty());
    assert_eq!(map.map.chunks.len(), 0);
}

#[test]
fn find_tile_finds_the_start() {
    let mut map = MutMap::new(Some(1));
    map.fill(floor(), TilePos::of(0, 0), TilePos::of(4, 4));
    assert_eq!(map.map.find_tile(TilePos::of(2, 2), |_, cell| cell.is_floor()), Some(TilePos::of(2, 2)));
}

#[test]
fn find_tile_finds_a_tile_that_the_predicate_accepts() {
    let mut map = MutMap::new(Some(1));
    map.fill(floor(), TilePos::of(0, 0), TilePos::of(40, 40));
    map.index_mut(TilePos::of(37, 5)).set(wall());
    let found = map.map.find_tile(TilePos::of(2, 30), |_, cell| cell.is_wall());
    assert_eq!(found, Some(TilePos::of(37, 5)));
    let near = map.map.find_tile(TilePos::of(2, 30), |pos, _| pos.x - 2 >= 3 || pos.y - 30 >= 3);
    let near = near.unwrap();
    assert_eq!((near.x - 2).abs().max((near.y - 30).abs()), 3);
}

#[test]
fn find_tile_gives_up_inside_the_used_chunks() {
    let mut map = MutMap::new(Some(1));
    map.fill(floor(), TilePos::of(0, 0), TilePos::of(4, 4));
    let mut seen = std::cell::Cell::new(0);
    let found = map.map.find_tile(TilePos::of(2, 2), |_, cell| {
        seen.set(seen.get() + 1);
        cell.is_wall()
    });
    assert_eq!(found, None);
    // one chunk is used: its 1024 tiles are all that is searched
    assert_eq!(seen.get_mut().clone(), 1024);
}

#[test]
fn find_tile_from_outside_reaches_only_what_it_touches() {
    let mut map = MutMap::new(Some(1));
    map.fill(wall(), TilePos::of(0, 0), TilePos::of(4, 4));
    assert_eq!(map.map.find_tile(TilePos::of(100, 100), |_, cell| cell.is_wall()), None);
    assert_eq!(map.map.find_tile(TilePos::of(100, 100), |_, _| true), Some(TilePos::of(100, 100)));
    let found = map.map.find_tile(TilePos::of(32, 10), |_, cell| cell.is_wall());
    assert!(found.is_some());
    assert!(map.index(found.unwrap()).is_wall());
}

#[test]
fn find_tile_prefers_the_earlier_direction_among_equally_near_tiles() {
    let mut map = MutMap::new(Some(1));
    map.index_mut(TilePos::of(2, 3)).set(floor());
    map.index_mut(TilePos::of(3, 2)).set(floor());
    assert_eq!(map.map.find_tile(TilePos::of(3, 3), |_, cell| cell.is_floor()), Some(TilePos::of(3, 2)));

    // clockwise from north
    let around = [(0, -1), (1, -1), (1, 0), (1, 1), (0, 1), (-1, 1), (-1, 0), (-1, -1)];
    for first in 0..8 {
        for second in first + 1..8 {
            let mut map = MutMap::new(Some(1));
            let a = TilePos::of(10 + around[first].0, 10 + around[first].1);
            let b = TilePos::of(10 + around[second].0, 10 + around[second].1);
            map.index_mut(b).set(floor());
            map.index_mut(a).set(floor());
            assert_eq!(map.map.find_tile(TilePos::of(10, 10), |_, cell| cell.is_floor()), Some(a));
        }
    }
}

#[test]
fn find_tile_visits_the_second_ring_in_the_order_of_the_first() {
    // the tile north of the start is left first, so the tile north-west of it
    // is queued before any tile around the start's north-eastern neighbour
    let mut map = MutMap::new(Some(1));
    map.index_mut(TilePos::of(12, 8)).set(floor());
    map.index_mut(TilePos::of(9, 8)).set(floor());
    assert_eq!(map.map.find_tile(TilePos::of(10, 10), |_, cell| cell.is_floor()), Some(TilePos::of(9, 8)));

    let visits = std::cell::RefCell::new(Vec::new());
    let found = map.map.find_tile(TilePos::of(10, 10), |pos, _| {
        visits.borrow_mut().push((pos.x, pos.y));
        visits.borrow().len() == 13
    });
    assert_eq!(found, Some(TilePos::of(12, 8)));
    assert_eq!(
        visits.into_inner(),
        vec![
            (10, 10),
            (10, 9),
            (11, 9),
            (11, 10),
            (11, 11),
            (10, 11),
            (9, 11),
            (9, 10),
            (9, 9),
            (10, 8),
            (11, 8),
            (9, 8),
            (12, 8),
        ]
    );
}

#[test]
fn find_tile_on_an_empty_grid_looks_at_the_start_only() {
    let map = MutMap::new(Some(1));
    assert_eq!(map.map.find_tile(TilePos::of(0, 0), |_, cell| cell.is_floor()), None);
    assert_eq!(map.map.find_tile(TilePos::of(0, 0), |_, cell| cell.is_empty()), Some(TilePos::of(0, 0)));
}

#[test]
fn unseeded_grids_are_empty_and_draw_differently() {
    let mut a = MutMap::new(None);
    let mut b = MutMap::new(None);
    assert_eq!(a.map.chunks.len(), 0);
    assert!(a.index(TilePos::of(0, 0)).is_empty());
    let rect = undercity::rect::TileRect::new_presorted(TilePos::of(0, 0), TilePos::of(1000, 1000));
    let mut differs = false;
    for _ in 0..64 {
        if rect.tile_on_border(a.rng()) != rect.tile_on_border(b.rng()) {
            differs = true;
        }
    }
    assert!(differs);
}

#[test]
fn from_rng_keeps_the_generator() {
    let seeded = MutMap::new(Some(77));
    let mut again = MutMap::new(Some(77));
    let mut map = MutMap::from_rng(seeded.rng);
    assert_eq!(map.map.chunks.len(), 0);
    let rect = undercity::rect::TileRect::new_presorted(TilePos::of(0, 0), TilePos::of(1000, 1000));
    for _ in 0..16 {
        assert_eq!(rect.tile_on_border(map.rng()), rect.tile_on_border(again.rng.as_mut()));
    }
}
