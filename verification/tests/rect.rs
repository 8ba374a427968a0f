use undercity::pos::{TileDelta, TilePos};
use undercity::rect::TileRect;
use undercity::rng::MapRng;
use undercity::mutmap::MutMap;

fn rect(x0: i32, y0: i32, x1: i32, y1: i32) -> TileRect {
    TileRect::new_presorted(TilePos::of(x0, y0), TilePos::of(x1, y1))
}

fn rng(seed: u64) -> MapRng {
    MutMap::new(Some(seed)).rng
}

#[test]
fn new_sorts_its_corners() {
    let r = TileRect::new(TilePos::of(5, -2), TilePos::of(-3, 7));
    assert_eq!(r.min, TilePos::of(-3, -2));
    assert_eq!(r.max, TilePos::of(5, 7));
    assert_eq!(TileRect::from((TilePos::of(5, -2), TilePos::of(-3, 7))), r);
}

#[test]
fn new_presorted_takes_corners_as_they_are() {
    let r = TileRect::new_presorted(TilePos::of(5, 5), TilePos::of(1, 1));
    assert_eq!(r.min, TilePos::of(5, 5));
    assert_eq!(r.max, TilePos::of(1, 1));
    assert!(r.tiles().is_empty());
}

#[test]
fn from_origin_size_takes_negative_sizes() {
    assert_eq!(TileRect::from_origin_size(TilePos::of(2, 3), TileDelta::of(4, 5)), rect(2, 3, 6, 8));
    assert_eq!(TileRect::from_origin_size(TilePos::of(2, 3), TileDelta::of(-4, 5)), rect(-2, 3, 2, 8));
}

#[test]
fn size_is_one_less_than_the_tile_count() {
    assert_eq!(rect(0, 0, 4, 4).size(), TileDelta::of(4, 4));
    assert_eq!(rect(-60, -60, 60, 60).size(), TileDelta::of(120, 120));
    assert_eq!(rect(3, 3, 3, 3).size(), TileDelta::of(0, 0));
}

#[test]
fn center_rounds_towards_min() {
    assert_eq!(rect(0, 0, 4, 4).center(), TilePos::of(2, 2));
    assert_eq!(rect(0, 0, 5, 3).center(), TilePos::of(2, 1));
    assert_eq!(rect(-60, -60, 60, 60).center(), TilePos::of(0, 0));
    assert_eq!(rect(-5, -5, -2, -2).center(), TilePos::of(-4, -4));
}

#[test]
fn translate_moves_both_corners() {
    let mut r = rect(1, 2, 3, 4);
    r.translate(TileDelta::of(-1, -2));
    assert_eq!(r, rect(0, 0, 2, 2));
}

#[test]
fn intersects_counts_shared_rims() {
    assert!(rect(0, 0, 4, 4).intersects(&rect(4, 4, 8, 8)));
    assert!(rect(0, 0, 4, 4).intersects(&rect(2, 2, 3, 3)));
    assert!(!rect(0, 0, 4, 4).intersects(&rect(5, 0, 8, 4)));
    assert!(!rect(0, 0, 4, 4).intersects(&rect(0, 5, 4, 8)));
}

#[test]
fn intersection_is_the_shared_tiles() {
    assert_eq!(rect(0, 0, 4, 4).intersection(&rect(2, 3, 8, 8)), Some(rect(2, 3, 4, 4)));
    assert_eq!(rect(0, 0, 4, 4).intersection(&rect(4, 4, 8, 8)), Some(rect(4, 4, 4, 4)));
    assert_eq!(rect(0, 0, 4, 4).intersection(&rect(5, 5, 8, 8)), None);
}

#[test]
fn holds_includes_both_corners() {
    let r = rect(-1, -1, 1, 1);
    assert!(r.holds(TilePos::of(-1, -1)) && r.holds(TilePos::of(1, 1)) && r.holds(TilePos::of(0, 0)));
    assert!(!r.holds(TilePos::of(2, 0)) && !r.holds(TilePos::of(0, -2)));
}

#[test]
fn tiles_are_listed_row_by_row() {
    let tiles = rect(1, 1, 3, 2).tiles();
    assert_eq!(
        tiles,
        vec![
            TilePos::of(1, 1),
            TilePos::of(2, 1),
            TilePos::of(3, 1),
            TilePos::of(1, 2),
            TilePos::of(2, 2),
            TilePos::of(3, 2),
        ]
    );
    assert_eq!(rect(0, 0, 4, 4).tiles().len(), 25);
}

#[test]
fn split_shares_the_cut() {
    let (a, b) = rect(0, 0, 10, 6).split(true, 4);
    assert_eq!(a, rect(0, 0, 4, 6));
    assert_eq!(b, rect(4, 0, 10, 6));
    let (a, b) = rect(0, 0, 10, 6).split(false, 2);
    assert_eq!(a, rect(0, 0, 10, 2));
    assert_eq!(b, rect(0, 2, 10, 6));
    let (a, b) = rect(-60, -60, 60, 60).split(false, 50);
    assert_eq!(a, rect(-60, -60, 60, -10));
    assert_eq!(b, rect(-60, -10, 60, 60));
}

#[test]
fn border_tile_picks_the_side() {
    let r = rect(0, 0, 9, 5);
    assert_eq!(r.border_tile(0, 3), TilePos::of(3, 0));
    assert_eq!(r.border_tile(1, 3), TilePos::of(3, 5));
    assert_eq!(r.border_tile(2, 3), TilePos::of(0, 3));
    assert_eq!(r.border_tile(3, 3), TilePos::of(9, 3));
}

#[test]
fn tile_on_border_lies_on_the_rim_and_varies() {
    let r = rect(-3, 2, 6, 9);
    let mut rng = rng(11);
    let mut seen = Vec::new();
    for _ in 0..200 {
        let pos = r.tile_on_border(rng.as_mut());
        assert!(r.holds(pos));
        assert!(pos.x == -3 || pos.x == 6 || pos.y == 2 || pos.y == 9);
        if !seen.contains(&pos) {
            seen.push(pos);
        }
    }
    // the rim has 34 tiles; two hundred draws that all gave one tile would
    // mean that nothing was drawn
    assert!(seen.len() > 10);
    assert!(seen.iter().any(|p| p.y == 2) && seen.iter().any(|p| p.y == 9));
    assert!(seen.iter().any(|p| p.x == -3) && seen.iter().any(|p| p.x == 6));
}

#[test]
fn tile_on_border_of_a_single_tile() {
    let r = rect(4, 4, 4, 4);
    let mut rng = rng(3);
    for _ in 0..10 {
        assert_eq!(r.tile_on_border(rng.as_mut()), TilePos::of(4, 4));
    }
}

#[test]
fn equal_seeds_draw_equal_tiles() {
    let r = rect(0, 0, 50, 50);
    let mut a = rng(99);
    let mut b = rng(99);
    let mut c = rng(100);
    let mut differs = false;
    for _ in 0..50 {
        let pa = r.tile_on_border(a.as_mut());
        assert_eq!(pa, r.tile_on_border(b.as_mut()));
        if pa != r.tile_on_border(c.as_mut()) {
            differs = true;
        }
    }
    assert!(differs);
}
