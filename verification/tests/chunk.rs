use undercity::chunk::Chunk;
use undercity::pos::{ChunkPos, TilePos};
use undercity::tile::{FloorType, Tile, TilePair, TileType, Tileset};

#[test]
fn new_chunk_is_blank() {
    let chunk = Chunk::new(ChunkPos::of(3, -4));
    assert_eq!(chunk.pos, ChunkPos::of(3, -4));
    assert_eq!(chunk.tiles.len(), 1024);
    assert!(chunk.is_empty());
    assert!(chunk.tiles.iter().all(|cell| *cell == TilePair::blank()));
}

#[test]
fn chunk_with_one_cell_is_not_empty() {
    let mut chunk = Chunk::new(ChunkPos::of(0, 0));
    chunk.tiles[1023].set(Tile { ty: TileType::Floor(FloorType::Tileset), tileset: Tileset::Rock });
    assert!(!chunk.is_empty());
    chunk.tiles[1023].clear();
    assert!(chunk.is_empty());
}

#[test]
fn tile_positions_follow_the_storage_order() {
    let chunk = Chunk::new(ChunkPos::of(-1, 2));
    let positions = chunk.tile_positions();
    assert_eq!(positions.len(), 1024);
    assert_eq!(positions[0], TilePos::of(-32, 64));
    assert_eq!(positions[1], TilePos::of(-31, 64));
    assert_eq!(positions[32], TilePos::of(-32, 65));
    assert_eq!(positions[1023], TilePos::of(-1, 95));
    for (index, pos) in positions.iter().enumerate() {
        assert_eq!(ChunkPos::of_tile(*pos), chunk.pos);
        assert_eq!(pos.chunk_relative().chunk_index(), index);
    }
}
