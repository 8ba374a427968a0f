//! A sparse, chunked two-layer tile grid and a seeded dungeon generator.
//!
//! - `tile`: the kinds of tile, their skins, and where each is found in the
//!   sprite atlases; the two-layer cell.
//! - `pos`, `rect`: positions of tiles and chunks, directions, rectangles.
//! - `chunk`, `grid`, `search`: the grid of chunks, its used bounds, and the
//!   search for a cell.
//! - `mutmap`: a grid under construction, and painting of whole regions.
//! - `rng`: the generator that all draws come from.
//! - `partition`, `room`, `carve`, `generate`, `stages`: the dungeon generator,
//!   step by step, and what holds between the steps.
//! - `prefab`: hand-drawn pieces of map.
//! - `entities`: what dynamic entities read off the tiles they take over.

pub mod carve;
pub mod chunk;
pub mod entities;
pub mod generate;
pub mod grid;
pub mod mutmap;
pub mod partition;
pub mod pos;
pub mod prefab;
pub mod rect;
pub mod rng;
pub mod room;
pub mod search;
pub mod stages;
pub mod tile;
