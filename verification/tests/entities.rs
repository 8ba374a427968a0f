use undercity::entities::{door_shape, holds_player_spawn, holds_shrine, ShrineType};
use undercity::tile::{Landmark, Tile, TilePair, TileType, Tileset, WallShape};

fn cell(ty: TileType) -> TilePair {
    let mut pair = TilePair::blank();
    pair.set(Tile { ty, tileset: Tileset::Rock });
    pair
}

#[test]
fn shrines_do_what_their_landmark_says() {
    assert_eq!(ShrineType::from(Landmark::ShrineIdol), ShrineType::Heal);
    assert_eq!(ShrineType::from(Landmark::ShrineSkulls), ShrineType::Damage);
    assert_eq!(ShrineType::from(Landmark::ShrineScroll), ShrineType::Blink);
    assert!(ShrineType::is_shrine(Landmark::ShrineIdol));
    assert!(!ShrineType::is_shrine(Landmark::ShrinePalm));
    assert!(!ShrineType::is_shrine(Landmark::Well));
}

#[test]
fn shrine_and_spawn_cells_are_told_apart() {
    let shrine = cell(TileType::Landmark { ty: Landmark::ShrineSkulls, flip: true });
    let spawn = cell(TileType::Landmark { ty: Landmark::SpawnPlayer, flip: false });
    let well = cell(TileType::Landmark { ty: Landmark::Well, flip: false });
    let wall = cell(TileType::Wall(WallShape::Solid));
    assert!(holds_shrine(&shrine) && !holds_player_spawn(&shrine));
    assert!(holds_player_spawn(&spawn) && !holds_shrine(&spawn));
    assert!(!holds_shrine(&well) && !holds_player_spawn(&well));
    assert!(!holds_shrine(&wall) && !holds_player_spawn(&wall));
}

#[test]
fn doors_collide_like_the_wall_they_continue() {
    assert_eq!(door_shape(TileType::DoorNS { open: false }), WallShape::Northsouth);
    assert_eq!(door_shape(TileType::DoorNS { open: true }), WallShape::Northsouth);
    assert_eq!(door_shape(TileType::DoorEW { open: false }), WallShape::Eastwest);
}
