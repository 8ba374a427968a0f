use undercity::mutmap::MutMap;
use undercity::partition::{partition, split_offset};
use undercity::pos::TilePos;
use undercity::rect::TileRect;

#[test]
fn split_offset_is_half_the_extent_moved_by_the_jitter() {
    assert_eq!(split_offset(120, 0), 60);
    assert_eq!(split_offset(120, -30), 30);
    assert_eq!(split_offset(120, 29), 89);
    assert_eq!(split_offset(31, -7), 8);
    assert_eq!(split_offset(31, 6), 21);
}

#[test]
fn partition_has_thirty_one_rectangles_and_sixteen_leaves() {
    let mut first_cuts = Vec::new();
    for seed in 0..20u64 {
        let mut rng = MutMap::new(Some(seed)).rng;
        let (all, leaves) = partition(rng.as_mut());
        assert_eq!(all.len(), 31);
        assert_eq!(leaves.len(), 16);
        let map_rect = TileRect::new_presorted(TilePos::of(-60, -60), TilePos::of(60, 60));
        assert_eq!(all[0], map_rect);
        for rect in &all {
            assert!(map_rect.holds(rect.min) && map_rect.holds(rect.max));
            assert!(rect.min.x < rect.max.x && rect.min.y < rect.max.y);
        }
        let mut area = 0;
        for (i, leaf) in leaves.iter().enumerate() {
            assert!(all.contains(leaf));
            assert!(leaf.max.x - leaf.min.x >= 8 && leaf.max.y - leaf.min.y >= 8);
            area += (leaf.max.x - leaf.min.x) * (leaf.max.y - leaf.min.y);
            for other in &leaves[i + 1..] {
                assert!(
                    leaf.max.x <= other.min.x
                        || other.max.x <= leaf.min.x
                        || leaf.max.y <= other.min.y
                        || other.max.y <= leaf.min.y
                );
            }
        }
        assert_eq!(area, 120 * 120);
        // the first split runs across the y axis; its second part comes first
        assert_eq!(all[1].max, map_rect.max);
        assert_eq!(all[1].min.x, -60);
        if !first_cuts.contains(&all[1].min.y) {
            first_cuts.push(all[1].min.y);
        }
        assert!((-30..30).contains(&all[1].min.y));
    }
    assert!(first_cuts.len() > 5);
}

#[test]
fn every_split_cuts_near_the_middle() {
    // sizes of the partitions below each depth: 31, 15, 7, 3, 1
    fn check(all: &[TileRect], at: usize, depth: u32, x_axis: bool, leaves: &mut Vec<TileRect>) {
        let rect = all[at];
        if depth >= 4 {
            leaves.push(rect);
            return;
        }
        let below = (1usize << (4 - depth)) - 1;
        let second = all[at + 1];
        let first = all[at + 1 + below];
        assert_eq!(first.min, rect.min);
        assert_eq!(second.max, rect.max);
        let (extent, offset) = if x_axis {
            assert_eq!(first.max.y, rect.max.y);
            assert_eq!(second.min, TilePos::of(first.max.x, rect.min.y));
            (rect.max.x - rect.min.x, first.max.x - rect.min.x)
        } else {
            assert_eq!(first.max.x, rect.max.x);
            assert_eq!(second.min, TilePos::of(rect.min.x, first.max.y));
            (rect.max.y - rect.min.y, first.max.y - rect.min.y)
        };
        assert!(extent / 2 - extent / 4 <= offset && offset < extent / 2 + extent / 4);
        check(all, at + 1, depth + 1, !x_axis, leaves);
        check(all, at + 1 + below, depth + 1, !x_axis, leaves);
    }
    for seed in 0..10u64 {
        let mut rng = MutMap::new(Some(seed)).rng;
        let (all, leaves) = partition(rng.as_mut());
        let mut found = Vec::new();
        check(&all, 0, 0, false, &mut found);
        assert_eq!(found, leaves);
    }
}
