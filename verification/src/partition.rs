//! Binary space partition of the map rectangle into hallway rectangles and
//! room rectangles.

use crate::pos::TilePos;
use crate::rect::TileRect;
use crate::rng::draw_range;
use rand::rngs::SmallRng;
use vstd::prelude::*;

verus! {

/// The map rectangle reaches this far from the origin on each axis.
pub const MAP_RADIUS: i32 = 60;

/// A rectangle at this depth of the partition is split no further.
pub const LEAF_DEPTH: u32 = 4;

/// Whether the two rectangles share no tile but tiles of their rims.
pub open spec fn interiors_apart(a: TileRect, b: TileRect) -> bool {
    a.max.x <= b.min.x || b.max.x <= a.min.x || a.max.y <= b.min.y || b.max.y <= a.min.y
}

/// Whether `inner` lies inside `outer`.
pub open spec fn rect_within(inner: TileRect, outer: TileRect) -> bool {
    outer.min.x <= inner.min.x && inner.max.x <= outer.max.x && outer.min.y <= inner.min.y
        && inner.max.y <= outer.max.y
}

/// The rectangle that is partitioned.
pub open spec fn spec_map_rect() -> TileRect {
    TileRect {
        min: TilePos { x: (-MAP_RADIUS) as i32, y: (-MAP_RADIUS) as i32 },
        max: TilePos { x: MAP_RADIUS, y: MAP_RADIUS },
    }
}

/// Number of room rectangles under a rectangle at `depth`.
pub open spec fn leaves_below(depth: int) -> int
    decreases LEAF_DEPTH - depth,
{
    if depth >= LEAF_DEPTH {
        1
    } else {
        2 * leaves_below(depth + 1)
    }
}

/// The least extent that a rectangle must have on an axis that is still to
/// be split `splits` times, for every split to leave room to draw from.
pub open spec fn least_extent(splits: int) -> int {
    if splits <= 0 {
        8
    } else if splits == 1 {
        30
    } else {
        120
    }
}

/// Number of rectangles in the partition of a rectangle at `depth`, itself
/// included.
pub open spec fn rects_below(depth: int) -> int {
    2 * leaves_below(depth) - 1
}

/// The two parts of `rect` when it is cut `offset` tiles after its smallest
/// corner, across the x axis if `x_axis` and across the y axis if not. Both
/// parts include the cut.
pub open spec fn spec_split(rect: TileRect, x_axis: bool, offset: int) -> (TileRect, TileRect) {
    if x_axis {
        (
            TileRect { min: rect.min, max: TilePos { x: (rect.min.x + offset) as i32, y: rect.max.y } },
            TileRect { min: TilePos { x: (rect.min.x + offset) as i32, y: rect.min.y }, max: rect.max },
        )
    } else {
        (
            TileRect { min: rect.min, max: TilePos { x: rect.max.x, y: (rect.min.y + offset) as i32 } },
            TileRect { min: TilePos { x: rect.min.x, y: (rect.min.y + offset) as i32 }, max: rect.max },
        )
    }
}

/// Whether `rects` holds, from index `at` on, the partition of the
/// rectangle `rects[at]`, which lies at `depth` and is split across the x
/// axis if `x_axis`: after the rectangle comes the partition of its second
/// part, then that of its first part, both split across the other axis, and
/// the cut lies at half the extent of the rectangle, give or take a quarter.
pub open spec fn is_partition(rects: Seq<TileRect>, at: int, depth: int, x_axis: bool) -> bool
    decreases LEAF_DEPTH - depth,
{
    depth >= LEAF_DEPTH || {
        let rect = rects[at];
        let second = rects[at + 1];
        let first = rects[at + 1 + rects_below(depth + 1)];
        let extent = if x_axis {
            rect.max.x - rect.min.x
        } else {
            rect.max.y - rect.min.y
        };
        let offset = if x_axis {
            first.max.x - rect.min.x
        } else {
            first.max.y - rect.min.y
        };
        &&& extent / 2 - extent / 4 <= offset < extent / 2 + extent / 4
        &&& (first, second) == spec_split(rect, x_axis, offset)
        &&& is_partition(rects, at + 1, depth + 1, !x_axis)
        &&& is_partition(rects, at + 1 + rects_below(depth + 1), depth + 1, !x_axis)
    }
}

/// The leaves of the partition that `rects` holds from index `at` on, in
/// the order in which `rects` holds them.
pub open spec fn leaves_of(rects: Seq<TileRect>, at: int, depth: int) -> Seq<TileRect>
    decreases LEAF_DEPTH - depth,
{
    if depth >= LEAF_DEPTH {
        seq![rects[at]]
    } else {
        leaves_of(rects, at + 1, depth + 1) + leaves_of(
            rects,
            at + 1 + rects_below(depth + 1),
            depth + 1,
        )
    }
}

/// A partition is read from its own rectangles alone: sequences that agree
/// on them hold the same partition.
pub proof fn lemma_partition_frame(
    a: Seq<TileRect>,
    b: Seq<TileRect>,
    at: int,
    depth: int,
    x_axis: bool,
)
    requires
        0 <= depth <= LEAF_DEPTH,
        forall|i: int| at <= i < at + rects_below(depth) ==> #[trigger] a[i] == b[i],
    ensures
        is_partition(a, at, depth, x_axis) == is_partition(b, at, depth, x_axis),
        leaves_of(a, at, depth) == leaves_of(b, at, depth),
    decreases LEAF_DEPTH - depth,
{
    lemma_leaves_positive(depth);
    if depth < LEAF_DEPTH {
        lemma_leaves_positive(depth + 1);
        let n = rects_below(depth + 1);
        lemma_partition_frame(a, b, at + 1, depth + 1, !x_axis);
        lemma_partition_frame(a, b, at + 1 + n, depth + 1, !x_axis);
        assert(a[at] == b[at]);
        assert(a[at + 1] == b[at + 1]);
        assert(a[at + 1 + n] == b[at + 1 + n]);
    } else {
        assert(a[at] == b[at]);
    }
}

/// Where a rectangle of extent `size` is split: at half of it, moved by
/// `jitter`.
pub open spec fn spec_split_offset(size: int, jitter: int) -> int {
    size / 2 + jitter
}

/// Where a rectangle of extent `size` is split, given the jitter drawn from
/// `-size / 4 .. size / 4`: at half the extent, moved by the jitter.
pub fn split_offset(size: i32, jitter: i32) -> (offset: i32)
    requires
        0 <= size,
        -(size / 4) <= jitter < size / 4,
    ensures
        offset == spec_split_offset(size as int, jitter as int),
        size / 2 - size / 4 <= offset < size / 2 + size / 4,
        0 < offset < size,
{
    size / 2 + jitter
}

/// Partitions `rect`, which lies at `depth`, across the x axis if `x_axis`
/// and across the y axis if not, its parts across the other axis, and so on
/// down to the leaf depth. Every rectangle met is appended to `all_rects`,
/// every leaf to `room_rects` as well; the second part of a split comes
/// before the first.
fn split_region(
    rng: &mut SmallRng,
    depth: u32,
    x_axis: bool,
    rect: TileRect,
    all_rects: &mut Vec<TileRect>,
    room_rects: &mut Vec<TileRect>,
)
    requires
        depth <= LEAF_DEPTH,
        rect_within(rect, spec_map_rect()),
        x_axis ==> rect.max.x - rect.min.x >= least_extent((LEAF_DEPTH - depth + 1) / 2)
            && rect.max.y - rect.min.y >= least_extent((LEAF_DEPTH - depth) / 2),
        !x_axis ==> rect.max.y - rect.min.y >= least_extent((LEAF_DEPTH - depth + 1) / 2)
            && rect.max.x - rect.min.x >= least_extent((LEAF_DEPTH - depth) / 2),
    ensures
        final(all_rects)@.len() == old(all_rects)@.len() + 2 * leaves_below(depth as int) - 1,
        final(room_rects)@.len() == old(room_rects)@.len() + leaves_below(depth as int),
        forall|i: int|
            0 <= i < old(all_rects)@.len() ==> #[trigger] final(all_rects)@[i] == old(
                all_rects,
            )@[i],
        forall|i: int|
            0 <= i < old(room_rects)@.len() ==> #[trigger] final(room_rects)@[i] == old(
                room_rects,
            )@[i],
        final(all_rects)@[old(all_rects)@.len() as int] == rect,
        is_partition(final(all_rects)@, old(all_rects)@.len() as int, depth as int, x_axis),
        final(room_rects)@ == old(room_rects)@ + leaves_of(
            final(all_rects)@,
            old(all_rects)@.len() as int,
            depth as int,
        ),
        forall|i: int|
            old(all_rects)@.len() <= i < final(all_rects)@.len() ==> rect_within(
                #[trigger] final(all_rects)@[i],
                rect,
            ) && final(all_rects)@[i].sorted(),
        forall|i: int|
            old(room_rects)@.len() <= i < final(room_rects)@.len() ==> {
                let room = #[trigger] final(room_rects)@[i];
                &&& rect_within(room, rect)
                &&& room.max.x - room.min.x >= 8
                &&& room.max.y - room.min.y >= 8
            },
        forall|i: int, j: int|
            old(room_rects)@.len() <= i < j < final(room_rects)@.len() ==> interiors_apart(
                #[trigger] final(room_rects)@[i],
                #[trigger] final(room_rects)@[j],
            ),
        forall|i: int, j: int|
            old(all_rects)@.len() <= i < final(all_rects)@.len() && old(room_rects)@.len() <= j
                < final(room_rects)@.len() ==> rect_within(
                #[trigger] final(room_rects)@[j],
                #[trigger] final(all_rects)@[i],
            ) || interiors_apart(final(all_rects)@[i], final(room_rects)@[j]),
    decreases LEAF_DEPTH - depth,
{
    all_rects.push(rect);
    proof {
        lemma_leaves_positive(depth as int);
    }
    if depth > 3 {
        room_rects.push(rect);
        proof {
            assert(room_rects@ =~= old(room_rects)@ + leaves_of(
                all_rects@,
                old(all_rects)@.len() as int,
                depth as int,
            ));
        }
        return ;
    }
    let size = rect.size();
    let extent: i32 = if x_axis { size.x } else { size.y };
    let jitter: i32 = draw_range(rng, -extent / 4, extent / 4);
    let offset: i32 = split_offset(extent, jitter);
    let (first, second) = rect.split(x_axis, offset);
    let ghost rooms_start = room_rects@;
    let ghost all_start = all_rects@;
    split_region(rng, depth + 1, !x_axis, second, all_rects, room_rects);
    let ghost rooms_half = room_rects@;
    let ghost all_half = all_rects@;
    split_region(rng, depth + 1, !x_axis, first, all_rects, room_rects);
    proof {
        lemma_leaves_positive(depth + 1);
        let n0 = old(all_rects)@.len() as int;
        let n = rects_below(depth + 1);
        assert(all_half.len() == n0 + 1 + n);
        lemma_partition_frame(all_half, all_rects@, n0 + 1, depth + 1, !x_axis);
        assert(all_rects@[n0] == rect);
        assert(all_rects@[n0 + 1] == second) by {
            assert(all_half[n0 + 1] == second);
        }
        assert(all_rects@[n0 + 1 + n] == first);
        assert((first, second) == spec_split(rect, x_axis, offset as int));
        assert(is_partition(all_rects@, n0, depth as int, x_axis));
        assert(room_rects@ =~= old(room_rects)@ + leaves_of(all_rects@, n0, depth as int)) by {
            assert(rooms_half == old(room_rects)@ + leaves_of(all_half, n0 + 1, depth + 1));
            assert(room_rects@ == rooms_half + leaves_of(all_rects@, n0 + 1 + n, depth + 1));
        }
        assert forall|i: int, j: int|
            old(all_rects)@.len() <= i < all_rects@.len() && old(room_rects)@.len() <= j
                < room_rects@.len() implies rect_within(
            #[trigger] room_rects@[j],
            #[trigger] all_rects@[i],
        ) || interiors_apart(all_rects@[i], room_rects@[j]) by {
            let room = room_rects@[j];
            let any = all_rects@[i];
            if j < rooms_half.len() {
                assert(room == rooms_half[j]);
                assert(rect_within(rooms_half[j], second));
            } else {
                assert(rect_within(room, first));
            }
            if i < all_start.len() {
                assert(any == all_start[i]);
                assert(any == rect);
            } else if i < all_half.len() {
                assert(any == all_half[i]);
                assert(rect_within(all_half[i], second));
            } else {
                assert(rect_within(any, first));
            }
        }
        assert forall|i: int, j: int|
            old(room_rects)@.len() <= i < j < room_rects@.len() implies interiors_apart(
            #[trigger] room_rects@[i],
            #[trigger] room_rects@[j],
        ) by {
            if i < rooms_half.len() {
                assert(room_rects@[i] == rooms_half[i]);
                assert(rect_within(rooms_half[i], second));
            }
            if j < rooms_half.len() {
                assert(room_rects@[j] == rooms_half[j]);
            }
        }
    }
}

/// Under every rectangle of the partition lies a room rectangle.
pub proof fn lemma_leaves_positive(depth: int)
    ensures
        leaves_below(depth) >= 1,
        depth < LEAF_DEPTH ==> leaves_below(depth) == 2 * leaves_below(depth + 1),
    decreases LEAF_DEPTH - depth,
{
    if depth < LEAF_DEPTH {
        lemma_leaves_positive(depth + 1);
    }
}

/// Partitions the map rectangle four levels deep, the first split across
/// the y axis. Returns every rectangle met, the map rectangle first, and
/// the sixteen leaves among them.
pub fn partition(rng: &mut SmallRng) -> (rects: (Vec<TileRect>, Vec<TileRect>))
    ensures
        rects.0.len() == 31,
        rects.1.len() == 16,
        rects.0[0] == spec_map_rect(),
        is_partition(rects.0@, 0, 0, false),
        rects.1@ == leaves_of(rects.0@, 0, 0),
        forall|i: int|
            0 <= i < rects.0.len() ==> rect_within(#[trigger] rects.0[i], spec_map_rect())
                && rects.0[i].sorted(),
        forall|i: int|
            0 <= i < rects.1.len() ==> {
                let room = #[trigger] rects.1[i];
                &&& rect_within(room, spec_map_rect())
                &&& room.max.x - room.min.x >= 8
                &&& room.max.y - room.min.y >= 8
            },
        forall|i: int, j: int|
            0 <= i < j < rects.1.len() ==> interiors_apart(
                #[trigger] rects.1[i],
                #[trigger] rects.1[j],
            ),
        forall|i: int, j: int|
            0 <= i < rects.0.len() && 0 <= j < rects.1.len() ==> rect_within(
                #[trigger] rects.1[j],
                #[trigger] rects.0[i],
            ) || interiors_apart(rects.0[i], rects.1[j]),
{
    let mut all_rects: Vec<TileRect> = Vec::new();
    let mut room_rects: Vec<TileRect> = Vec::new();
    let map_rect = TileRect::new(
        TilePos::of(-MAP_RADIUS, -MAP_RADIUS),
        TilePos::of(MAP_RADIUS, MAP_RADIUS),
    );
    proof {
        reveal_with_fuel(leaves_below, 6);
    }
    split_region(rng, 0, false, map_rect, &mut all_rects, &mut room_rects);
    (all_rects, room_rects)
}

} // verus!
