use undercity::tile::{
    AtlasRect, FloorType, Landmark, Tile, TilePair, TileType, Tileset, WallShape,
};

fn every_kind() -> Vec<TileType> {
    vec![
        TileType::Empty,
        TileType::Floor(FloorType::Tileset),
        TileType::Floor(FloorType::LavaRed),
        TileType::Wall(WallShape::Solid),
        TileType::Wall(WallShape::Northeast),
        TileType::DoorNS { open: false },
        TileType::DoorNS { open: true },
        TileType::DoorEW { open: false },
        TileType::DoorEW { open: true },
        TileType::Landmark { ty: Landmark::ShrineIdol, flip: false },
        TileType::Landmark { ty: Landmark::SpawnPlayer, flip: true },
    ]
}

#[test]
fn defaults_are_the_first_variants() {
    assert_eq!(Tileset::default(), Tileset::BrickBlue);
    assert_eq!(WallShape::default(), WallShape::Pillar);
    assert_eq!(Landmark::default(), Landmark::Well);
    assert_eq!(FloorType::default(), FloorType::Tileset);
    assert_eq!(TileType::default(), TileType::Empty);
    assert_eq!(Tile::default(), Tile { ty: TileType::Empty, tileset: Tileset::BrickBlue });
    assert!(TilePair::default().is_empty());
    assert!(!TilePair::default().plucked);
}

#[test]
fn asset_paths_name_the_skin() {
    assert_eq!(Tileset::BrickBlue.asset_path(), "tiles/brick_blue.png");
    assert_eq!(Tileset::Catacomb.asset_path(), "tiles/catacomb.png");
    assert_eq!(Tileset::PandemYellow.asset_path(), "tiles/pandem_yellow.png");
    assert_eq!(Tileset::Rock.asset_path(), "tiles/rock.png");
    assert_eq!(Tileset::Tunnel.asset_path(), "tiles/tunnel.png");
}

#[test]
fn wall_shapes_are_numbered_by_their_open_sides() {
    assert_eq!(WallShape::Pillar.atlas_index(), 0);
    assert_eq!(WallShape::North.atlas_index(), 1);
    assert_eq!(WallShape::East.atlas_index(), 2);
    assert_eq!(WallShape::West.atlas_index(), 4);
    assert_eq!(WallShape::South.atlas_index(), 8);
    assert_eq!(WallShape::Northeast.atlas_index(), 3);
    assert_eq!(WallShape::Southwest.atlas_index(), 12);
    assert_eq!(WallShape::Solid.atlas_index(), 15);
}

#[test]
fn atlas_indices_of_landmarks_and_floors() {
    assert_eq!(Landmark::Well.atlas_index(), 67);
    assert_eq!(Landmark::ShrineIdol.atlas_index(), 104);
    assert_eq!(Landmark::SpawnPlayer.atlas_index(), 116);
    assert_eq!(Landmark::ExplosionSmokeDark.atlas_index(), 180);
    assert_eq!(FloorType::Tileset.atlas_index(), 20);
    assert_eq!(FloorType::Black.atlas_index(), 0);
    assert_eq!(FloorType::Slab.atlas_index(), 74);
}

#[test]
fn texture_info_of_a_skinned_wall() {
    let tile = Tile { ty: TileType::Wall(WallShape::Solid), tileset: Tileset::Crypt };
    let (path, rect, flip) = tile.texture_info();
    assert_eq!(path, "tiles/crypt.png");
    // cell 15 of an atlas 8 cells wide: column 7, row 1
    assert_eq!(rect, AtlasRect { min_x: 448, min_y: 64, max_x: 512, max_y: 128 });
    assert!(!flip);
}

#[test]
fn texture_info_of_doors() {
    let closed = Tile { ty: TileType::DoorNS { open: false }, tileset: Tileset::Moss };
    let open = Tile { ty: TileType::DoorNS { open: true }, tileset: Tileset::Moss };
    let closed_ew = Tile { ty: TileType::DoorEW { open: false }, tileset: Tileset::Moss };
    let open_ew = Tile { ty: TileType::DoorEW { open: true }, tileset: Tileset::Moss };
    // cells 17, 19, 16 and 18 of an atlas 8 cells wide
    assert_eq!(closed.texture_info().1, AtlasRect { min_x: 64, min_y: 128, max_x: 128, max_y: 192 });
    assert_eq!(open.texture_info().1, AtlasRect { min_x: 192, min_y: 128, max_x: 256, max_y: 192 });
    assert_eq!(closed_ew.texture_info().1, AtlasRect { min_x: 0, min_y: 128, max_x: 64, max_y: 192 });
    assert_eq!(open_ew.texture_info().1, AtlasRect { min_x: 128, min_y: 128, max_x: 192, max_y: 192 });
    assert_eq!(closed.texture_info().0, "tiles/moss.png");
}

#[test]
fn texture_info_of_floors() {
    let skinned = Tile { ty: TileType::Floor(FloorType::Tileset), tileset: Tileset::Hive };
    let (path, rect, flip) = skinned.texture_info();
    assert_eq!(path, "tiles/hive.png");
    // cell 20 of an atlas 8 cells wide: column 4, row 2
    assert_eq!(rect, AtlasRect { min_x: 256, min_y: 128, max_x: 320, max_y: 192 });
    assert!(!flip);
    let lava = Tile { ty: TileType::Floor(FloorType::LavaRed), tileset: Tileset::Hive };
    let (path, rect, _) = lava.texture_info();
    assert_eq!(path, "tiles/misc.png");
    // cell 71 of an atlas 16 cells wide: column 7, row 4
    assert_eq!(rect, AtlasRect { min_x: 448, min_y: 256, max_x: 512, max_y: 320 });
}

#[test]
fn texture_info_of_a_mirrored_landmark() {
    let tile = Tile {
        ty: TileType::Landmark { ty: Landmark::ExplosionSmokeDark, flip: true },
        tileset: Tileset::Rock,
    };
    let (path, rect, flip) = tile.texture_info();
    assert_eq!(path, "tiles/misc.png");
    // cell 180 of an atlas 16 cells wide: column 4, row 11
    assert_eq!(rect, AtlasRect { min_x: 256, min_y: 704, max_x: 320, max_y: 768 });
    assert!(flip);
}

#[test]
fn set_floor_empties_the_foreground() {
    for skin in [Tileset::Rock, Tileset::Lapis] {
        for floor in [FloorType::Tileset, FloorType::Black, FloorType::Slab] {
            for before in every_kind() {
                let mut pair = TilePair {
                    foreground: Tile { ty: before, tileset: Tileset::Moss },
                    background: Tile { ty: TileType::Floor(FloorType::LavaBlue), tileset: Tileset::Moss },
                    plucked: false,
                };
                let tile = Tile { ty: TileType::Floor(floor), tileset: skin };
                pair.set(tile);
                assert!(pair.foreground.is_empty());
                assert_eq!(pair.background, tile);
                assert!(pair.is_floor());
            }
        }
    }
}

#[test]
fn set_wall_puts_it_over_the_default_floor_of_its_skin() {
    for kind in every_kind() {
        if matches!(kind, TileType::Floor(_)) {
            continue;
        }
        let mut pair = TilePair {
            foreground: Tile::default(),
            background: Tile { ty: TileType::Floor(FloorType::LavaCyan), tileset: Tileset::Moss },
            plucked: false,
        };
        let tile = Tile { ty: kind, tileset: Tileset::Gehena };
        pair.set(tile);
        assert_eq!(pair.foreground, tile);
        assert_eq!(
            pair.background,
            Tile { ty: TileType::Floor(FloorType::Tileset), tileset: Tileset::Gehena }
        );
    }
}

#[test]
fn set_keeps_the_plucked_mark() {
    let mut pair = TilePair::blank();
    pair.plucked = true;
    pair.set(Tile { ty: TileType::Wall(WallShape::Solid), tileset: Tileset::Rock });
    assert!(pair.plucked);
    pair.set(Tile { ty: TileType::Floor(FloorType::Tileset), tileset: Tileset::Rock });
    assert!(pair.plucked);
}

#[test]
fn set_with_floor_keeps_a_custom_floor() {
    let mut pair = TilePair::blank();
    let wall = Tile { ty: TileType::Wall(WallShape::Pillar), tileset: Tileset::Lair };
    pair.set_with_floor(wall, FloorType::LavaRed);
    assert_eq!(pair.foreground, wall);
    assert_eq!(pair.background, Tile { ty: TileType::Floor(FloorType::LavaRed), tileset: Tileset::Lair });
    assert!(pair.is_wall());
    assert!(!pair.is_floor());
}

#[test]
fn clear_empties_both_layers() {
    let mut pair = TilePair::blank();
    pair.set(Tile { ty: TileType::DoorEW { open: true }, tileset: Tileset::Rock });
    assert!(pair.is_door());
    assert!(!pair.is_empty());
    pair.clear();
    assert!(pair.is_empty());
    assert!(!pair.is_door());
    assert_eq!(pair.foreground.tileset, Tileset::Rock);
}

#[test]
fn blank_cell_is_empty_in_the_normal_skin() {
    let blank = TilePair::blank();
    assert!(blank.is_empty());
    assert_eq!(blank.foreground, Tile { ty: TileType::Empty, tileset: Tileset::Normal });
    assert_eq!(blank.background, Tile { ty: TileType::Empty, tileset: Tileset::Normal });
    assert!(!blank.plucked);
}

#[test]
fn predicates_tell_the_kinds_apart() {
    let mut pair = TilePair::blank();
    pair.set(Tile { ty: TileType::Landmark { ty: Landmark::Well, flip: false }, tileset: Tileset::Rock });
    assert!(pair.is_landmark() && !pair.is_wall() && !pair.is_door() && !pair.is_floor() && !pair.is_empty());
    pair.set(Tile { ty: TileType::DoorNS { open: false }, tileset: Tileset::Rock });
    assert!(pair.is_door() && !pair.is_landmark());
    pair.set(Tile { ty: TileType::Wall(WallShape::East), tileset: Tileset::Rock });
    assert!(pair.is_wall() && !pair.is_door());
    pair.set(Tile { ty: TileType::Floor(FloorType::Tileset), tileset: Tileset::Rock });
    assert!(pair.is_floor() && !pair.is_wall());
}

#[test]
fn plucked_cell_draws_no_foreground() {
    for kind in every_kind() {
        let mut pair = TilePair::blank();
        pair.set(Tile { ty: kind, tileset: Tileset::Rock });
        let (foreground, background) = pair.rendered_layers();
        assert_eq!(foreground.is_some(), !pair.foreground.is_empty());
        assert_eq!(background, Some(pair.background));
        pair.plucked = true;
        let (foreground, background) = pair.rendered_layers();
        assert_eq!(foreground, None);
        assert_eq!(background, Some(pair.background));
    }
}

#[test]
fn empty_cell_draws_nothing() {
    assert_eq!(TilePair::blank().rendered_layers(), (None, None));
}

#[test]
fn doors_open_and_close() {
    let mut door = TileType::DoorNS { open: false };
    assert!(door.is_door());
    assert!(!door.is_open());
    door.toggle();
    assert_eq!(door, TileType::DoorNS { open: true });
    assert!(door.is_open());
    door.toggle();
    assert_eq!(door, TileType::DoorNS { open: false });
    let mut other = TileType::DoorEW { open: true };
    other.toggle();
    assert_eq!(other, TileType::DoorEW { open: false });
    assert!(!TileType::Wall(WallShape::Solid).is_door());
    assert!(!TileType::Wall(WallShape::Solid).is_open());
}
