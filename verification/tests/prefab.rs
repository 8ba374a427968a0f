use undercity::mutmap::MutMap;
use undercity::pos::TilePos;
use undercity::prefab::{Prefab, PrefabError};
use undercity::tile::{FloorType, Tile, TilePair, TileType, Tileset, WallShape};

fn wall() -> TilePair {
    TilePair {
        foreground: Tile { ty: TileType::Wall(WallShape::Solid), tileset: Tileset::Crypt },
        background: Tile { ty: TileType::Floor(FloorType::Tileset), tileset: Tileset::Crypt },
        plucked: false,
    }
}

fn floor() -> TilePair {
    TilePair {
        foreground: Tile::default(),
        background: Tile { ty: TileType::Floor(FloorType::Slab), tileset: Tileset::Crypt },
        plucked: false,
    }
}

fn rows(text: &[&str]) -> Vec<String> {
    text.iter().map(|row| row.to_string()).collect()
}

fn walled_cell() -> Prefab {
    Prefab::new(vec![('#', wall()), ('.', floor())], rows(&["###", "#.#", "###"])).unwrap()
}

#[test]
fn three_by_three_prefab_is_a_floor_inside_walls() {
    let map = walled_cell().into_map(Some(0)).unwrap();
    for y in -40..40 {
        for x in -40..40 {
            let cell = map.index(TilePos::of(x, y));
            if (x, y) == (1, 1) {
                assert!(cell.is_floor());
                assert_eq!(cell, floor());
            } else if (0..3).contains(&x) && (0..3).contains(&y) {
                assert!(cell.is_wall());
                assert_eq!(cell, wall());
            } else {
                assert!(cell.is_empty());
            }
        }
    }
    assert_eq!(map.map.used_tiles().min, TilePos::of(0, 0));
    assert_eq!(map.map.used_tiles().max, TilePos::of(2, 2));
    assert_eq!(map.map.chunks.len(), 1);
}

#[test]
fn size_is_longest_row_and_row_count() {
    assert_eq!(walled_cell().size(), (3, 3));
    let ragged = Prefab::new(vec![('#', wall())], rows(&["#", "#####", "", "##"])).unwrap();
    assert_eq!(ragged.size(), (5, 4));
    let empty = Prefab::new(vec![], rows(&[])).unwrap();
    assert_eq!(empty.size(), (0, 0));
    assert!(empty.iter().is_empty());
}

#[test]
fn iter_reads_row_by_row_and_skips_blanks() {
    let prefab = Prefab::new(vec![('#', wall()), ('.', floor())], rows(&["# .", "", " #"])).unwrap();
    assert_eq!(
        prefab.iter(),
        vec![(TilePos::of(0, 0), wall()), (TilePos::of(2, 0), floor()), (TilePos::of(1, 2), wall())]
    );
    assert_eq!(prefab.iter(), prefab.iter());
}

#[test]
fn blanks_leave_the_grid_as_it_was() {
    let prefab = Prefab::new(vec![('#', wall())], rows(&["# #", "   ", "# #"])).unwrap();
    let mut map = MutMap::new(Some(0));
    map.fill(Tile { ty: TileType::Floor(FloorType::Tileset), tileset: Tileset::Rock }, TilePos::of(8, 8), TilePos::of(14, 14));
    prefab.copy_into(&mut map, TilePos::of(10, 10));
    for y in 8..=14 {
        for x in 8..=14 {
            let corner = (x == 10 || x == 12) && (y == 10 || y == 12);
            let cell = map.index(TilePos::of(x, y));
            assert_eq!(cell.is_wall(), corner);
            assert_eq!(cell.is_floor(), !corner);
            if corner {
                assert_eq!(cell, wall());
            }
        }
    }
}

#[test]
fn copy_into_takes_negative_origins() {
    let mut map = MutMap::new(Some(0));
    walled_cell().copy_into(&mut map, TilePos::of(-33, -2));
    assert!(map.index(TilePos::of(-32, -1)).is_floor());
    assert!(map.index(TilePos::of(-33, -2)).is_wall());
    assert!(map.index(TilePos::of(-31, 0)).is_wall());
    assert!(map.index(TilePos::of(-30, 0)).is_empty());
    assert_eq!(map.map.chunks.len(), 4);
}

#[test]
fn a_character_that_the_key_lacks_fails_the_prefab() {
    let result = Prefab::new(vec![('#', wall())], rows(&["###", "#.#", "##?"]));
    assert_eq!(result.err(), Some(PrefabError::UnknownTile { tile: '.', row: 1, column: 1 }));
    let result = Prefab::new(vec![], rows(&["  ", " x"]));
    assert_eq!(result.err(), Some(PrefabError::UnknownTile { tile: 'x', row: 1, column: 1 }));
    assert!(!PrefabError::TooLarge.message().is_empty());
    assert_ne!(
        PrefabError::UnknownTile { tile: 'x', row: 0, column: 0 }.message(),
        PrefabError::TooLarge.message()
    );
}

#[test]
fn columns_count_characters() {
    let prefab = Prefab::new(vec![('\u{e9}', wall()), ('.', floor())], rows(&["\u{e9}\u{e9}."])).unwrap();
    assert_eq!(prefab.size(), (3, 1));
    assert_eq!(prefab.iter()[2], (TilePos::of(2, 0), floor()));
}

#[test]
fn the_later_key_entry_counts() {
    let prefab = Prefab::new(vec![('#', wall()), ('#', floor())], rows(&["#"])).unwrap();
    assert_eq!(prefab.iter(), vec![(TilePos::of(0, 0), floor())]);
}

#[test]
fn seeded_prefab_maps_draw_alike() {
    let mut a = walled_cell().into_map(Some(9)).unwrap();
    let mut b = walled_cell().into_map(Some(9)).unwrap();
    let rect = undercity::rect::TileRect::new_presorted(TilePos::of(0, 0), TilePos::of(30, 30));
    for _ in 0..20 {
        assert_eq!(rect.tile_on_border(a.rng()), rect.tile_on_border(b.rng()));
    }
}
