//! Breadth-first search over the grid for a cell that a predicate accepts.

use crate::grid::{spec_no_tiles, TileGrid};
use crate::pos::{lemma_moore_adjacent_direction, lemma_tile_key_injective, ChunkPos, Direction, TilePos};
use crate::rect::TileRect;
use crate::tile::TilePair;
use std::collections::{HashSet, VecDeque};
use vstd::prelude::*;

verus! {

broadcast use vstd::std_specs::hash::group_hash_axioms;

/// The tiles of the chunks from `min` to `max`, or no tile if the range is
/// empty.
pub open spec fn chunk_range_tiles(min: ChunkPos, max: ChunkPos) -> TileRect {
    if min.x <= max.x && min.y <= max.y {
        TileRect { min: min.spec_min_tile(), max: max.spec_max_tile() }
    } else {
        spec_no_tiles()
    }
}

/// Whether `pos` is a tile of `bounds` or one of the tiles around it.
pub open spec fn touches(bounds: TileRect, pos: TilePos) -> bool {
    bounds.min.x - 1 <= pos.x <= bounds.max.x + 1 && bounds.min.y - 1 <= pos.y <= bounds.max.y + 1
}

/// The number of steps, each to one of the eight tiles around a tile, that
/// it takes to get from `a` to `b`.
pub open spec fn steps_between(a: TilePos, b: TilePos) -> int {
    let dx = if a.x <= b.x {
        b.x - a.x
    } else {
        a.x - b.x
    };
    let dy = if a.y <= b.y {
        b.y - a.y
    } else {
        a.y - b.y
    };
    if dx >= dy {
        dx
    } else {
        dy
    }
}

/// Whether a search from `start` within `bounds` reaches `p`.
pub open spec fn reaches(bounds: TileRect, start: TilePos, p: TilePos) -> bool {
    p == start || (bounds.contains(p) && touches(bounds, start))
}

/// Whether the queue of a search from `start` is in order: its tiles stand
/// by their number of steps from `start`, no tile more than one step
/// farther than `front`, and every tile that the search reaches in no more
/// steps than `front` has been queued.
spec fn layered(
    bounds: TileRect,
    start: TilePos,
    visited: Set<TilePos>,
    queue: Seq<TilePos>,
    front: TilePos,
) -> bool {
    &&& forall|i: int, j: int|
        0 <= i < j < queue.len() ==> steps_between(start, #[trigger] queue[i]) <= steps_between(
            start,
            #[trigger] queue[j],
        )
    &&& forall|i: int|
        0 <= i < queue.len() ==> steps_between(start, front) <= steps_between(
            start,
            #[trigger] queue[i],
        ) <= steps_between(start, front) + 1
    &&& forall|q: TilePos|
        reaches(bounds, start, q) && steps_between(start, q) <= steps_between(start, front)
            ==> #[trigger] visited.contains(q)
}

/// A tile that a search reaches, other than the start, has a tile beside it
/// that the search reaches in one step less.
proof fn lemma_step_back(bounds: TileRect, start: TilePos, q: TilePos) -> (m: TilePos)
    requires
        reaches(bounds, start, q),
        q != start,
    ensures
        reaches(bounds, start, m),
        m.moore_adjacent(q),
        steps_between(start, m) == steps_between(start, q) - 1,
{
    let d = steps_between(start, q);
    let dx = start.x - q.x;
    let dy = start.y - q.y;
    let mx: int = if dx == d {
        q.x + 1
    } else if dx == -d {
        q.x - 1
    } else {
        q.x as int
    };
    let my: int = if dy == d {
        q.y + 1
    } else if dy == -d {
        q.y - 1
    } else {
        q.y as int
    };
    TilePos { x: mx as i32, y: my as i32 }
}

/// A tile beside a tile is at most one step farther from anywhere.
proof fn lemma_one_step(start: TilePos, a: TilePos, b: TilePos)
    requires
        a.moore_adjacent(b),
    ensures
        steps_between(start, b) <= steps_between(start, a) + 1,
{
}

/// The tiles around `t` that a search queues when it leaves `t`, having
/// queued `seen` before: those in the directions from the one at index `d`
/// on, clockwise from north, that lie in `bounds` and were not queued yet.
pub open spec fn fresh_neighbors(bounds: TileRect, seen: Seq<TilePos>, t: TilePos, d: int) -> Seq<
    TilePos,
>
    decreases 8 - d,
{
    if d < 0 || d >= 8 {
        Seq::empty()
    } else {
        let dir = Direction::spec_moore()[d];
        let n = t.spec_neighbor(dir);
        if t.can_offset(dir.dx(), dir.dy()) && bounds.contains(n) && !seen.contains(n) {
            seq![n] + fresh_neighbors(bounds, seen.push(n), t, d + 1)
        } else {
            fresh_neighbors(bounds, seen, t, d + 1)
        }
    }
}

/// The tiles that a search visits, in the order of its visits, when it has
/// queued `seen` and left the first `next` of them: the tile at index
/// `next` is left next, which queues the tiles around it that are new, and
/// so on, for at most `fuel` tiles.
pub open spec fn visit_order(bounds: TileRect, seen: Seq<TilePos>, next: int, fuel: nat) -> Seq<
    TilePos,
>
    decreases fuel,
{
    if fuel == 0 || next < 0 || next >= seen.len() {
        seen
    } else {
        visit_order(
            bounds,
            seen + fresh_neighbors(bounds, seen, seen[next], 0),
            next + 1,
            (fuel - 1) as nat,
        )
    }
}

/// The order of visits begins with the tiles that were queued already.
pub proof fn lemma_visit_prefix(bounds: TileRect, seen: Seq<TilePos>, next: int, fuel: nat)
    ensures
        visit_order(bounds, seen, next, fuel).len() >= seen.len(),
        forall|m: int|
            0 <= m < seen.len() ==> #[trigger] visit_order(bounds, seen, next, fuel)[m] == seen[m],
    decreases fuel,
{
    if !(fuel == 0 || next < 0 || next >= seen.len()) {
        let more = seen + fresh_neighbors(bounds, seen, seen[next], 0);
        lemma_visit_prefix(bounds, more, next + 1, (fuel - 1) as nat);
        assert forall|m: int| 0 <= m < seen.len() implies #[trigger] visit_order(
            bounds,
            seen,
            next,
            fuel,
        )[m] == seen[m] by {
            assert(more[m] == seen[m]);
        }
    }
}

/// Queueing the tile in the direction at index `d`, or passing it over,
/// leaves the tiles that are queued in the end the same.
proof fn lemma_fresh_step(bounds: TileRect, seen: Seq<TilePos>, t: TilePos, d: int)
    requires
        0 <= d < 8,
    ensures
        ({
            let dir = Direction::spec_moore()[d];
            let n = t.spec_neighbor(dir);
            seen + fresh_neighbors(bounds, seen, t, d) == if t.can_offset(dir.dx(), dir.dy())
                && bounds.contains(n) && !seen.contains(n) {
                seen.push(n) + fresh_neighbors(bounds, seen.push(n), t, d + 1)
            } else {
                seen + fresh_neighbors(bounds, seen, t, d + 1)
            }
        }),
{
    let dir = Direction::spec_moore()[d];
    let n = t.spec_neighbor(dir);
    if t.can_offset(dir.dx(), dir.dy()) && bounds.contains(n) && !seen.contains(n) {
        assert(seen + (seq![n] + fresh_neighbors(bounds, seen.push(n), t, d + 1)) =~= seen.push(n)
            + fresh_neighbors(bounds, seen.push(n), t, d + 1));
    }
}

/// What the search knows of the order of its visits: `order` are the tiles
/// queued so far, in the order in which they were queued; the first
/// `popped` of them were left; the rest is the queue.
spec fn order_state(
    order: Seq<TilePos>,
    popped: int,
    visited: Set<TilePos>,
    done: Set<TilePos>,
    queue: Seq<TilePos>,
    slots: Set<int>,
) -> bool {
    &&& 0 <= popped <= order.len()
    &&& queue == order.subrange(popped, order.len() as int)
    &&& forall|t: TilePos| visited.contains(t) <==> #[trigger] order.contains(t)
    &&& forall|m: int| 0 <= m < popped ==> done.contains(#[trigger] order[m])
    &&& order.len() == slots.len()
}

/// Where a tile of `bounds` stands when its tiles are numbered row by row;
/// every tile outside stands at the one number after them.
spec fn slot(bounds: TileRect, t: TilePos) -> int {
    if bounds.contains(t) {
        bounds.row_major_index(t)
    } else {
        bounds.spec_area()
    }
}

proof fn lemma_slot_range(bounds: TileRect, t: TilePos)
    ensures
        0 <= slot(bounds, t) <= bounds.spec_area(),
        bounds.contains(t) ==> slot(bounds, t) < bounds.spec_area(),
{
    let w = bounds.spec_width();
    let h = bounds.spec_height();
    if bounds.contains(t) {
        let row = t.y - bounds.min.y;
        let col = t.x - bounds.min.x;
        assert(0 <= row * w + col < w * h) by (nonlinear_arith)
            requires
                0 <= row < h,
                0 <= col < w,
        ;
    } else {
        assert(0 <= w * h) by (nonlinear_arith)
            requires
                0 <= w,
                0 <= h,
        ;
    }
}

proof fn lemma_slot_injective(bounds: TileRect, a: TilePos, b: TilePos)
    requires
        bounds.contains(a),
        bounds.contains(b),
        slot(bounds, a) == slot(bounds, b),
    ensures
        a == b,
{
    let w = bounds.spec_width();
    let row_a = a.y - bounds.min.y;
    let col_a = a.x - bounds.min.x;
    let row_b = b.y - bounds.min.y;
    let col_b = b.x - bounds.min.x;
    assert(row_a == row_b && col_a == col_b) by (nonlinear_arith)
        requires
            0 <= col_a < w,
            0 <= col_b < w,
            0 <= row_a,
            0 <= row_b,
            row_a * w + col_a == row_b * w + col_b,
    ;
}

/// What the search knows between two steps: `visited` are the tiles it has
/// queued so far, `done` those it has taken from the queue again.
spec fn search_state(
    start: TilePos,
    bounds: TileRect,
    visited: Set<TilePos>,
    done: Set<TilePos>,
    queue: Seq<TilePos>,
    keys: Set<u64>,
    slots: Set<int>,
) -> bool {
    &&& visited.contains(start)
    &&& forall|t: TilePos| #[trigger] visited.contains(t) ==> t == start || bounds.contains(t)
    &&& forall|t: TilePos| visited.contains(t) <==> keys.contains(#[trigger] t.spec_key())
    &&& forall|i: int| 0 <= i < queue.len() ==> visited.contains(#[trigger] queue[i])
    &&& forall|t: TilePos| #[trigger] done.contains(t) ==> visited.contains(t)
    &&& slots.finite()
    &&& forall|i: int| #[trigger] slots.contains(i) ==> 0 <= i <= bounds.spec_area()
    &&& forall|t: TilePos| #[trigger] visited.contains(t) ==> slots.contains(slot(bounds, t))
    &&& forall|i: int| #[trigger]
        slots.contains(i) ==> exists|t: TilePos| #[trigger]
            visited.contains(t) && slot(bounds, t) == i
}

/// Queueing a tile of the bounds that was not visited keeps the state, and
/// takes a slot that was free.
proof fn lemma_enqueue(
    start: TilePos,
    bounds: TileRect,
    visited: Set<TilePos>,
    done: Set<TilePos>,
    queue: Seq<TilePos>,
    keys: Set<u64>,
    slots: Set<int>,
    tile: TilePos,
)
    requires
        search_state(start, bounds, visited, done, queue, keys, slots),
        bounds.contains(tile),
        !visited.contains(tile),
    ensures
        search_state(
            start,
            bounds,
            visited.insert(tile),
            done,
            queue.push(tile),
            keys.insert(tile.spec_key()),
            slots.insert(slot(bounds, tile)),
        ),
        !slots.contains(slot(bounds, tile)),
        slots.insert(slot(bounds, tile)).len() == slots.len() + 1,
{
    let visited2 = visited.insert(tile);
    let queue2 = queue.push(tile);
    let keys2 = keys.insert(tile.spec_key());
    let s = slot(bounds, tile);
    let slots2 = slots.insert(s);
    lemma_slot_range(bounds, tile);
    if slots.contains(s) {
        let t = choose|t: TilePos| #[trigger] visited.contains(t) && slot(bounds, t) == s;
        lemma_slot_range(bounds, t);
        if bounds.contains(t) {
            lemma_slot_injective(bounds, t, tile);
        }
    }
    assert forall|t: TilePos| visited2.contains(t) <==> keys2.contains(
        #[trigger] t.spec_key(),
    ) by {
        if t.spec_key() == tile.spec_key() {
            lemma_tile_key_injective(t, tile);
        }
    }
    assert forall|i: int| 0 <= i < queue2.len() implies visited2.contains(#[trigger] queue2[i]) by {
        if i < queue.len() {
            assert(queue2[i] == queue[i]);
        }
    }
    assert forall|i: int| #[trigger] slots2.contains(i) implies exists|t: TilePos| #[trigger]
        visited2.contains(t) && slot(bounds, t) == i by {
        if i == s {
            assert(visited2.contains(tile));
        } else {
            let t = choose|t: TilePos| #[trigger] visited.contains(t) && slot(bounds, t) == i;
            assert(visited2.contains(t));
        }
    }
    assert forall|t: TilePos| #[trigger] visited2.contains(t) implies slots2.contains(
        slot(bounds, t),
    ) by {
        if t != tile {
            assert(visited.contains(t));
        }
    }
}

/// The slots taken never outnumber the slots there are.
proof fn lemma_slots_bounded(bounds: TileRect, slots: Set<int>)
    requires
        slots.finite(),
        forall|i: int| #[trigger] slots.contains(i) ==> 0 <= i <= bounds.spec_area(),
    ensures
        slots.len() <= bounds.spec_area() + 1,
        0 <= bounds.spec_area(),
{
    lemma_slot_range(bounds, bounds.min);
    let all = vstd::set_lib::set_int_range(0, bounds.spec_area() + 1);
    vstd::set_lib::lemma_int_range(0, bounds.spec_area() + 1);
    assert(slots.subset_of(all));
    vstd::set_lib::lemma_len_subset(slots, all);
}

/// A set of tiles that holds, with each of its tiles, the tiles of `bounds`
/// around it, holds all of `bounds` once it holds one tile of `bounds`.
proof fn lemma_flood(done: Set<TilePos>, bounds: TileRect, from: TilePos, to: TilePos)
    requires
        done.contains(from),
        bounds.contains(from),
        bounds.contains(to),
        forall|a: TilePos, b: TilePos|
            #![trigger done.contains(a), a.moore_adjacent(b)]
            done.contains(a) && a.moore_adjacent(b) && bounds.contains(b) ==> done.contains(b),
    ensures
        done.contains(to),
    decreases
            (if to.x >= from.x { to.x - from.x } else { from.x - to.x }) + (if to.y >= from.y {
                to.y - from.y
            } else {
                from.y - to.y
            }),
{
    if from != to {
        let step_x: int = if to.x > from.x {
            1
        } else if to.x < from.x {
            -1
        } else {
            0
        };
        let step_y: int = if to.y > from.y {
            1
        } else if to.y < from.y {
            -1
        } else {
            0
        };
        let next = TilePos { x: (from.x + step_x) as i32, y: (from.y + step_y) as i32 };
        assert(from.moore_adjacent(next));
        assert(bounds.contains(next));
        lemma_flood(done, bounds, next, to);
    }
}

impl TileGrid {
    /// The tiles that a search may visit besides its start: those of the
    /// chunks in the used chunk range.
    pub open spec fn spec_search_bounds(&self) -> TileRect {
        chunk_range_tiles(self.spec_used_chunks().0, self.spec_used_chunks().1)
    }

    /// Whether a search from `start` reaches `p`: the start itself is always
    /// reached, and every tile of the search bounds is reached if the start
    /// lies in the bounds or touches them.
    pub open spec fn searched(&self, start: TilePos, p: TilePos) -> bool {
        let bounds = self.spec_search_bounds();
        p == start || (bounds.contains(p) && touches(bounds, start))
    }

    /// The tiles that a search from `start` visits, in the order of its
    /// visits: the start, then the tiles around it that lie in the search
    /// bounds, clockwise from north, then the new tiles around each of
    /// those in turn, and so on. The count of tiles to leave is that of the
    /// tiles of the bounds and the start, so that none is left out.
    pub open spec fn spec_visit_order(&self, start: TilePos) -> Seq<TilePos> {
        visit_order(
            self.spec_search_bounds(),
            seq![start],
            0,
            (self.spec_search_bounds().spec_area() + 1) as nat,
        )
    }

    /// Searches breadth first from `position`, stepping to the eight tiles
    /// around a tile and never leaving the chunks of the used chunk range,
    /// for a tile that `predicate` accepts. Every tile is shown to
    /// `predicate` at most once, a tile fewer steps from `position` before
    /// one more steps away, and in the order of `spec_visit_order`: the
    /// tiles around a tile are queued clockwise from north. Returns the
    /// first tile accepted, or nothing if every tile reached was rejected.
    pub fn find_tile(
        &self,
        position: TilePos,
        predicate: impl Fn(TilePos, &TilePair) -> bool,
    ) -> (r: Option<TilePos>)
        requires
            self.wf(),
            forall|pos: TilePos, cell: TilePair| call_requires(predicate, (pos, &cell)),
        ensures
            r matches Some(p) ==> self.searched(position, p) && call_ensures(
                predicate,
                (p, &self.tile_at(p)),
                true,
            ),
            r matches Some(p) ==> forall|q: TilePos|
                self.searched(position, q) && steps_between(position, q) < steps_between(
                    position,
                    p,
                ) ==> call_ensures(predicate, (q, &#[trigger] self.tile_at(q)), false),
            r is None ==> forall|p: TilePos|
                self.searched(position, p) ==> call_ensures(
                    predicate,
                    (p, &#[trigger] self.tile_at(p)),
                    false,
                ),
            r matches Some(p) ==> exists|n: int|
                0 <= n < self.spec_visit_order(position).len() && #[trigger] self.spec_visit_order(
                    position,
                )[n] == p && forall|m: int|
                    0 <= m < n ==> call_ensures(
                        predicate,
                        (
                            #[trigger] self.spec_visit_order(position)[m],
                            &self.tile_at(self.spec_visit_order(position)[m]),
                        ),
                        false,
                    ),
            r is None ==> forall|m: int|
                0 <= m < self.spec_visit_order(position).len() ==> call_ensures(
                    predicate,
                    (
                        #[trigger] self.spec_visit_order(position)[m],
                        &self.tile_at(self.spec_visit_order(position)[m]),
                    ),
                    false,
                ),
    {
        let (cmin, cmax) = self.used_chunks();
        let ghost bounds = chunk_range_tiles(cmin, cmax);
        let directions = Direction::moore();
        let mut enqueued: HashSet<u64> = HashSet::new();
        let mut queue: VecDeque<TilePos> = VecDeque::new();
        enqueued.insert(position.key());
        queue.push_back(position);
        let ghost mut visited: Set<TilePos> = set![position];
        let ghost mut done: Set<TilePos> = Set::empty();
        let ghost mut slots: Set<int> = set![slot(bounds, position)];
        let ghost mut order: Seq<TilePos> = seq![position];
        let ghost mut popped: int = 0;
        let ghost fuel: int = bounds.spec_area() + 1;
        let ghost total = visit_order(bounds, seq![position], 0, fuel as nat);
        proof {
            assert(order.subrange(0, 1) =~= order);
            assert(order[0] == position);
            lemma_slot_range(bounds, position);
            assert(queue@ =~= seq![position]);
            assert forall|t: TilePos| visited.contains(t) <==> enqueued@.contains(
                #[trigger] t.spec_key(),
            ) by {
                if t.spec_key() == position.spec_key() {
                    lemma_tile_key_injective(t, position);
                }
            }
            assert(queue@[0] == position);
            assert(layered(bounds, position, visited, queue@, position));
        }
        while queue.len() > 0
            invariant
                self.wf(),
                forall|pos: TilePos, cell: TilePair| call_requires(predicate, (pos, &cell)),
                bounds == chunk_range_tiles(cmin, cmax),
                bounds == self.spec_search_bounds(),
                cmin.x <= cmax.x && cmin.y <= cmax.y ==> cmin.in_plane() && cmax.in_plane(),
                directions@ == Direction::spec_moore(),
                search_state(position, bounds, visited, done, queue@, enqueued@, slots),
                forall|t: TilePos| #[trigger]
                    visited.contains(t) ==> done.contains(t) || queue@.contains(t),
                forall|t: TilePos| #[trigger]
                    visited.contains(t) ==> t == position || touches(bounds, position),
                forall|t: TilePos|
                    done.contains(t) ==> call_ensures(
                        predicate,
                        (t, &#[trigger] self.tile_at(t)),
                        false,
                    ),
                forall|a: TilePos, b: TilePos|
                    #![trigger done.contains(a), a.moore_adjacent(b)]
                    done.contains(a) && a.moore_adjacent(b) && bounds.contains(b)
                        ==> visited.contains(b),
                queue@.len() > 0 ==> layered(bounds, position, visited, queue@, queue@[0]),
                order_state(order, popped, visited, done, queue@, slots),
                fuel == bounds.spec_area() + 1,
                total == self.spec_visit_order(position),
                popped <= fuel,
                total == visit_order(bounds, order, popped, (fuel - popped) as nat),
            decreases 2 * (bounds.spec_area() + 1 - slots.len()) + queue.len(),
        {
            proof {
                lemma_slots_bounded(bounds, slots);
            }
            let ghost measure = 2 * (bounds.spec_area() + 1 - slots.len()) + queue.len();
            let ghost queue_before = queue@;
            let tile = queue.pop_front().unwrap();
            let ghost base = order;
            proof {
                assert(queue_before[0] == order[popped]);
                assert(queue@ =~= order.subrange(popped + 1, order.len() as int));
                assert(popped < fuel);
                assert(queue_before[0] == tile);
                assert(visited.contains(tile));
                assert forall|t: TilePos| #[trigger] visited.contains(t) implies done.contains(t)
                    || queue@.contains(t) || t == tile by {
                    if !done.contains(t) {
                        let i = choose|i: int| 0 <= i < queue_before.len() && queue_before[i] == t;
                        if i > 0 {
                            assert(queue@[i - 1] == t);
                        }
                    }
                }
                assert forall|i: int| 0 <= i < queue@.len() implies visited.contains(
                    #[trigger] queue@[i],
                ) by {
                    assert(queue@[i] == queue_before[i + 1]);
                }
                assert(layered(bounds, position, visited, queue@, tile)) by {
                    assert forall|i: int| 0 <= i < queue@.len() implies #[trigger] queue@[i]
                        == queue_before[i + 1] by {}
                }
            }
            let cell = self.index(tile);
            if predicate(tile, &cell) {
                proof {
                    assert forall|q: TilePos|
                        self.searched(position, q) && steps_between(position, q) < steps_between(
                            position,
                            tile,
                        ) implies call_ensures(
                        predicate,
                        (q, &#[trigger] self.tile_at(q)),
                        false,
                    ) by {
                        assert(reaches(bounds, position, q));
                        assert(visited.contains(q));
                        if queue@.contains(q) {
                            let i = choose|i: int| 0 <= i < queue@.len() && queue@[i] == q;
                            assert(steps_between(position, tile) <= steps_between(
                                position,
                                queue@[i],
                            ));
                        }
                        assert(done.contains(q));
                    }
                    lemma_visit_prefix(bounds, order, popped, (fuel - popped) as nat);
                    assert(total[popped] == tile);
                    assert forall|m: int| 0 <= m < popped implies call_ensures(
                        predicate,
                        (#[trigger] total[m], &self.tile_at(total[m])),
                        false,
                    ) by {
                        assert(total[m] == order[m]);
                        assert(done.contains(order[m]));
                    }
                }
                return Some(tile);
            }
            let mut d: usize = 0;
            while d < 8
                invariant
                    self.wf(),
                    bounds == chunk_range_tiles(cmin, cmax),
                    cmin.x <= cmax.x && cmin.y <= cmax.y ==> cmin.in_plane() && cmax.in_plane(),
                    directions@ == Direction::spec_moore(),
                    d <= 8,
                    visited.contains(tile),
                    search_state(position, bounds, visited, done, queue@, enqueued@, slots),
                    forall|t: TilePos| #[trigger]
                        visited.contains(t) ==> done.contains(t) || queue@.contains(t) || t == tile,
                    forall|t: TilePos| #[trigger]
                        visited.contains(t) ==> t == position || touches(bounds, position),
                    forall|a: TilePos, b: TilePos|
                        #![trigger done.contains(a), a.moore_adjacent(b)]
                        done.contains(a) && a.moore_adjacent(b) && bounds.contains(b)
                            ==> visited.contains(b),
                    forall|k: int|
                        0 <= k < d ==> {
                            let dir = #[trigger] directions@[k];
                            tile.can_offset(dir.dx(), dir.dy()) && bounds.contains(
                                tile.spec_neighbor(dir),
                            ) ==> visited.contains(tile.spec_neighbor(dir))
                        },
                    2 * (bounds.spec_area() + 1 - slots.len()) + queue.len() < measure,
                    0 <= bounds.spec_area() + 1 - slots.len(),
                    layered(bounds, position, visited, queue@, tile),
                    0 <= popped < base.len() <= order.len(),
                    order[popped] == tile,
                    queue@ == order.subrange(popped + 1, order.len() as int),
                    forall|t: TilePos| visited.contains(t) <==> #[trigger] order.contains(t),
                    forall|m: int| 0 <= m < popped ==> done.contains(#[trigger] order[m]),
                    order.len() == slots.len(),
                    base + fresh_neighbors(bounds, base, tile, 0) == order + fresh_neighbors(
                        bounds,
                        order,
                        tile,
                        d as int,
                    ),
                decreases 8 - d,
            {
                let dir = directions[d];
                proof {
                    lemma_fresh_step(bounds, order, tile, d as int);
                }
                if let Some(other) = tile.checked_neighbor(dir) {
                    let chunk = ChunkPos::of_tile(other);
                    let in_bounds = cmin.x <= chunk.x && chunk.x <= cmax.x && cmin.y <= chunk.y
                        && chunk.y <= cmax.y;
                    assert(in_bounds <==> bounds.contains(other));
                    if in_bounds && !enqueued.contains(&other.key()) {
                        proof {
                            lemma_enqueue(
                                position,
                                bounds,
                                visited,
                                done,
                                queue@,
                                enqueued@,
                                slots,
                                other,
                            );
                        }
                        let ghost queue_old = queue@;
                        enqueued.insert(other.key());
                        queue.push_back(other);
                        proof {
                            assert forall|t: TilePos| #[trigger]
                                visited.insert(other).contains(t) implies done.contains(t)
                                || queue@.contains(t) || t == tile by {
                                if t == other {
                                    assert(queue@[queue_old.len() as int] == other);
                                } else if !done.contains(t) && t != tile {
                                    let i = choose|i: int|
                                        0 <= i < queue_old.len() && queue_old[i] == t;
                                    assert(queue@[i] == t);
                                }
                            }
                            assert(layered(
                                bounds,
                                position,
                                visited.insert(other),
                                queue@,
                                tile,
                            )) by {
                                lemma_one_step(position, tile, other);
                                assert(reaches(bounds, position, other));
                                assert(steps_between(position, other) == steps_between(
                                    position,
                                    tile,
                                ) + 1);
                                assert forall|i: int| 0 <= i < queue_old.len() implies #[trigger] queue@[i]
                                    == queue_old[i] by {}
                                assert(queue@[queue_old.len() as int] == other);
                            }
                            let longer = order.push(other);
                            assert(queue@ =~= longer.subrange(popped + 1, longer.len() as int));
                            assert forall|t: TilePos|
                                visited.insert(other).contains(t) <==> #[trigger] longer.contains(
                                    t,
                                ) by {
                                if order.contains(t) {
                                    let m = choose|m: int| 0 <= m < order.len() && order[m] == t;
                                    assert(longer[m] == t);
                                }
                                if t == other {
                                    assert(longer[order.len() as int] == other);
                                }
                                if longer.contains(t) {
                                    let m = choose|m: int| 0 <= m < longer.len() && longer[m] == t;
                                    if m < order.len() {
                                        assert(order[m] == t);
                                    }
                                }
                            }
                            assert forall|m: int| 0 <= m < popped implies done.contains(
                                #[trigger] longer[m],
                            ) by {
                                assert(longer[m] == order[m]);
                            }
                            assert(!order.contains(other));
                            order = longer;
                            visited = visited.insert(other);
                            slots = slots.insert(slot(bounds, other));
                            lemma_slots_bounded(bounds, slots);
                        }
                    }
                }
                d += 1;
            }
            proof {
                assert(order + fresh_neighbors(bounds, order, tile, 8) =~= order);
                assert(total == visit_order(
                    bounds,
                    base + fresh_neighbors(bounds, base, base[popped], 0),
                    popped + 1,
                    (fuel - popped - 1) as nat,
                ));
                lemma_slots_bounded(bounds, slots);
                popped = popped + 1;
                let done_before = done;
                done = done.insert(tile);
                assert forall|a: TilePos, b: TilePos|
                    #![trigger done.contains(a), a.moore_adjacent(b)]
                    done.contains(a) && a.moore_adjacent(b) && bounds.contains(
                        b,
                    ) implies visited.contains(b) by {
                    if a == tile {
                        let dir = lemma_moore_adjacent_direction(a, b);
                        let k = choose|k: int| 0 <= k < 8 && Direction::spec_moore()[k] == dir;
                        assert(directions@[k] == dir);
                    } else {
                        assert(done_before.contains(a));
                    }
                }
                assert forall|t: TilePos|
                    done.contains(t) implies call_ensures(
                    predicate,
                    (t, &#[trigger] self.tile_at(t)),
                    false,
                ) by {
                    if t != tile {
                        assert(done_before.contains(t));
                    }
                }
                if queue@.len() > 0 {
                    let front = queue@[0];
                    assert forall|q: TilePos|
                        reaches(bounds, position, q) && steps_between(position, q)
                            <= steps_between(position, front) implies #[trigger] visited.contains(
                        q,
                    ) by {
                        if steps_between(position, q) > steps_between(position, tile) {
                            let m = lemma_step_back(bounds, position, q);
                            assert(visited.contains(m));
                            if queue@.contains(m) {
                                let i = choose|i: int| 0 <= i < queue@.len() && queue@[i] == m;
                                assert(steps_between(position, queue@[0]) <= steps_between(
                                    position,
                                    queue@[i],
                                ));
                            }
                            assert(done.contains(m));
                            assert(m.moore_adjacent(q));
                        }
                    }
                    assert(layered(bounds, position, visited, queue@, front));
                }
            }
        }
        proof {
            assert(popped == order.len());
            assert(total == order);
            assert forall|m: int| 0 <= m < total.len() implies call_ensures(
                predicate,
                (#[trigger] total[m], &self.tile_at(total[m])),
                false,
            ) by {
                assert(done.contains(order[m]));
            }
            assert forall|p: TilePos| self.searched(position, p) implies call_ensures(
                predicate,
                (p, &#[trigger] self.tile_at(p)),
                false,
            ) by {
                assert(done.contains(position));
                if p != position {
                    let near = TilePos {
                        x: if position.x < bounds.min.x {
                            bounds.min.x
                        } else if position.x > bounds.max.x {
                            bounds.max.x
                        } else {
                            position.x
                        },
                        y: if position.y < bounds.min.y {
                            bounds.min.y
                        } else if position.y > bounds.max.y {
                            bounds.max.y
                        } else {
                            position.y
                        },
                    };
                    assert(bounds.contains(near));
                    if near != position {
                        assert(position.moore_adjacent(near));
                    }
                    assert(visited.contains(near));
                    assert(done.contains(near));
                    assert forall|a: TilePos, b: TilePos|
                        #![trigger done.contains(a), a.moore_adjacent(b)]
                        done.contains(a) && a.moore_adjacent(b) && bounds.contains(
                            b,
                        ) implies done.contains(b) by {
                        assert(visited.contains(b));
                    }
                    lemma_flood(done, bounds, near, p);
                }
            }
        }
        None
    }
}

} // verus!
