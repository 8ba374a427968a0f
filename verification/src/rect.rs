//! Axis-aligned rectangles of tiles, both corners included.

use crate::pos::{TileDelta, TilePos};
use crate::rng::{draw_range, draw_range_inclusive};
use rand::rngs::SmallRng;
use vstd::prelude::*;

verus! {

/// The tiles from `min` to `max`, both included, on both axes. A rectangle
/// whose `min` exceeds its `max` on an axis holds no tile.
#[derive(Clone, Copy, Debug, PartialEq, Eq, Hash, Structural)]
pub struct TileRect {
    pub min: TilePos,
    pub max: TilePos,
}

/// Integer division that rounds towards zero.
pub open spec fn div_towards_zero(a: int, b: int) -> int {
    if a >= 0 {
        a / b
    } else {
        -((-a) / b)
    }
}

impl TileRect {
    /// Whether `min` does not exceed `max` on either axis.
    pub open spec fn sorted(&self) -> bool {
        self.min.x <= self.max.x && self.min.y <= self.max.y
    }

    pub open spec fn contains(&self, pos: TilePos) -> bool {
        self.min.x <= pos.x <= self.max.x && self.min.y <= pos.y <= self.max.y
    }

    /// Whether `pos` is a tile of this rectangle that lies on its rim.
    pub open spec fn on_border(&self, pos: TilePos) -> bool {
        self.contains(pos) && (pos.x == self.min.x || pos.x == self.max.x || pos.y == self.min.y
            || pos.y == self.max.y)
    }

    /// Whether `pos` is one of the four corner tiles.
    pub open spec fn is_corner(&self, pos: TilePos) -> bool {
        (pos.x == self.min.x || pos.x == self.max.x) && (pos.y == self.min.y || pos.y
            == self.max.y)
    }

    /// Number of tiles in a row.
    pub open spec fn spec_width(&self) -> int {
        if self.sorted() {
            self.max.x - self.min.x + 1
        } else {
            0
        }
    }

    /// Number of rows.
    pub open spec fn spec_height(&self) -> int {
        if self.sorted() {
            self.max.y - self.min.y + 1
        } else {
            0
        }
    }

    /// Number of tiles.
    pub open spec fn spec_area(&self) -> int {
        self.spec_width() * self.spec_height()
    }

    /// Place of a tile of this rectangle when its tiles are listed row by
    /// row, each row from `min.x` to `max.x`.
    pub open spec fn row_major_index(&self, pos: TilePos) -> int {
        (pos.y - self.min.y) * self.spec_width() + (pos.x - self.min.x)
    }

    /// The tiles of the rectangle, as a set.
    pub open spec fn tile_set(&self) -> Set<TilePos> {
        Set::new(|p: TilePos| self.contains(p))
    }

    /// The tiles on the rim of the rectangle, as a set.
    pub open spec fn border_set(&self) -> Set<TilePos> {
        Set::new(|p: TilePos| self.on_border(p))
    }

    /// The smallest rectangle that holds both `a` and `b`.
    pub open spec fn spec_new(a: TilePos, b: TilePos) -> TileRect {
        TileRect {
            min: TilePos {
                x: if a.x <= b.x { a.x } else { b.x },
                y: if a.y <= b.y { a.y } else { b.y },
            },
            max: TilePos {
                x: if a.x <= b.x { b.x } else { a.x },
                y: if a.y <= b.y { b.y } else { a.y },
            },
        }
    }

    pub open spec fn spec_intersects(&self, other: &TileRect) -> bool {
        self.min.x <= other.max.x && other.min.x <= self.max.x && self.min.y <= other.max.y
            && other.min.y <= self.max.y
    }

    /// The rectangle between the larger of the two `min` corners and the
    /// smaller of the two `max` corners.
    pub open spec fn spec_overlap(&self, other: &TileRect) -> TileRect {
        TileRect {
            min: TilePos {
                x: if self.min.x >= other.min.x { self.min.x } else { other.min.x },
                y: if self.min.y >= other.min.y { self.min.y } else { other.min.y },
            },
            max: TilePos {
                x: if self.max.x <= other.max.x { self.max.x } else { other.max.x },
                y: if self.max.y <= other.max.y { self.max.y } else { other.max.y },
            },
        }
    }

    /// Whether the differences between the corners fit the coordinate type.
    pub open spec fn size_fits(&self) -> bool {
        i32::MIN <= self.max.x - self.min.x <= i32::MAX && i32::MIN <= self.max.y - self.min.y
            <= i32::MAX
    }

    /// The tile on one side of the rectangle: side 0 is the row `min.y`,
    /// side 1 the row `max.y`, side 2 the column `min.x`, any other side the
    /// column `max.x`; `along` is the coordinate on the other axis.
    pub open spec fn spec_border_tile(&self, side: i32, along: i32) -> TilePos {
        if side == 0 {
            TilePos { x: along, y: self.min.y }
        } else if side == 1 {
            TilePos { x: along, y: self.max.y }
        } else if side == 2 {
            TilePos { x: self.min.x, y: along }
        } else {
            TilePos { x: self.max.x, y: along }
        }
    }

    /// The smallest rectangle that holds both `a` and `b`, which may be any
    /// two opposite corners.
    pub fn new(a: TilePos, b: TilePos) -> (r: Self)
        ensures
            r == Self::spec_new(a, b),
            r.sorted(),
            r.contains(a),
            r.contains(b),
    {
        TileRect {
            min: TilePos {
                x: if a.x <= b.x { a.x } else { b.x },
                y: if a.y <= b.y { a.y } else { b.y },
            },
            max: TilePos {
                x: if a.x <= b.x { b.x } else { a.x },
                y: if a.y <= b.y { b.y } else { a.y },
            },
        }
    }

    /// The rectangle with the given corners, taken as they are.
    pub fn new_presorted(min: TilePos, max: TilePos) -> (r: Self)
        ensures
            r.min == min,
            r.max == max,
    {
        TileRect { min, max }
    }

    /// The smallest rectangle that holds `origin` and `origin` displaced by
    /// `size`.
    pub fn from_origin_size(origin: TilePos, size: TileDelta) -> (r: Self)
        requires
            origin.can_offset(size.x as int, size.y as int),
        ensures
            r == Self::spec_new(origin, origin.spec_offset(size.x as int, size.y as int)),
    {
        Self::new(origin, origin.offset(size))
    }

    /// The displacement from `min` to `max`: one less than the number of
    /// tiles on each axis.
    pub fn size(&self) -> (d: TileDelta)
        requires
            self.size_fits(),
        ensures
            d.x == self.max.x - self.min.x,
            d.y == self.max.y - self.min.y,
    {
        TileDelta { x: self.max.x - self.min.x, y: self.max.y - self.min.y }
    }

    /// The tile halfway from `min` to `max`, the half rounded towards `min`.
    pub fn center(&self) -> (c: TilePos)
        requires
            self.size_fits(),
        ensures
            c.x == self.min.x + div_towards_zero(self.max.x - self.min.x, 2),
            c.y == self.min.y + div_towards_zero(self.max.y - self.min.y, 2),
    {
        let size = self.size();
        TilePos { x: self.min.x + size.x / 2, y: self.min.y + size.y / 2 }
    }

    /// Displaces both corners by `by`.
    pub fn translate(&mut self, by: TileDelta)
        requires
            old(self).min.can_offset(by.x as int, by.y as int),
            old(self).max.can_offset(by.x as int, by.y as int),
        ensures
            final(self).min == old(self).min.spec_offset(by.x as int, by.y as int),
            final(self).max == old(self).max.spec_offset(by.x as int, by.y as int),
            forall|p: TilePos|
                p.can_offset(by.x as int, by.y as int) && old(self).contains(p)
                    ==> final(self).contains(#[trigger] p.spec_offset(by.x as int, by.y as int)),
    {
        self.min = self.min.offset(by);
        self.max = self.max.offset(by);
    }

    /// Whether the tile at `pos` belongs to this rectangle.
    pub fn holds(&self, pos: TilePos) -> (r: bool)
        ensures
            r == self.contains(pos),
    {
        self.min.x <= pos.x && pos.x <= self.max.x && self.min.y <= pos.y && pos.y <= self.max.y
    }

    /// Whether the two rectangles share a tile, for sorted rectangles.
    pub fn intersects(&self, other: &Self) -> (r: bool)
        ensures
            r == self.spec_intersects(other),
            self.sorted() && other.sorted() ==> (r <==> exists|p: TilePos|
                self.contains(p) && other.contains(p)),
    {
        let r = self.min.x <= other.max.x && other.min.x <= self.max.x && self.min.y
            <= other.max.y && other.min.y <= self.max.y;
        proof {
            if r && self.sorted() && other.sorted() {
                let p = self.spec_overlap(other).min;
                assert(self.contains(p) && other.contains(p));
            }
        }
        r
    }

    /// The tiles that the two rectangles share, if there are any.
    pub fn intersection(&self, other: &Self) -> (r: Option<Self>)
        ensures
            r is Some <==> self.spec_intersects(other),
            r matches Some(rect) ==> rect == self.spec_overlap(other) && forall|p: TilePos|
                rect.contains(p) <==> self.contains(p) && other.contains(p),
    {
        if !self.intersects(other) {
            return None;
        }
        let min = TilePos {
            x: if self.min.x >= other.min.x { self.min.x } else { other.min.x },
            y: if self.min.y >= other.min.y { self.min.y } else { other.min.y },
        };
        let max = TilePos {
            x: if self.max.x <= other.max.x { self.max.x } else { other.max.x },
            y: if self.max.y <= other.max.y { self.max.y } else { other.max.y },
        };
        Some(Self::new_presorted(min, max))
    }

    /// The tiles of the rectangle, row by row from `min.y` to `max.y`, each
    /// row from `min.x` to `max.x`.
    pub fn tiles(self) -> (r: Vec<TilePos>)
        ensures
            r.len() == self.spec_area(),
            forall|p: TilePos|
                #![trigger self.row_major_index(p)]
                self.contains(p) ==> 0 <= self.row_major_index(p) < r.len() && r[self.row_major_index(
                    p,
                )] == p,
            forall|i: int| 0 <= i < r.len() ==> self.contains(#[trigger] r[i]),
    {
        let mut r: Vec<TilePos> = Vec::new();
        if !(self.min.x <= self.max.x && self.min.y <= self.max.y) {
            assert(self.spec_area() == 0) by (nonlinear_arith)
                requires
                    self.spec_width() == 0 && self.spec_height() == 0,
            ;
            return r;
        }
        let ghost w: int = self.spec_width();
        let mut y: i64 = self.min.y as i64;
        while y <= self.max.y as i64
            invariant
                self.sorted(),
                w == self.spec_width(),
                self.min.y <= y <= self.max.y + 1,
                r.len() == (y - self.min.y) * w,
                forall|p: TilePos|
                    #![trigger self.row_major_index(p)]
                    self.contains(p) && p.y < y ==> 0 <= self.row_major_index(p) < r.len()
                        && r[self.row_major_index(p)] == p,
                forall|i: int| 0 <= i < r.len() ==> self.contains(#[trigger] r[i]),
            decreases self.max.y + 1 - y,
        {
            let mut x: i64 = self.min.x as i64;
            while x <= self.max.x as i64
                invariant
                    self.sorted(),
                    w == self.spec_width(),
                    self.min.y <= y <= self.max.y,
                    self.min.x <= x <= self.max.x + 1,
                    r.len() == (y - self.min.y) * w + (x - self.min.x),
                    forall|p: TilePos|
                        #![trigger self.row_major_index(p)]
                        self.contains(p) && (p.y < y || (p.y == y && p.x < x)) ==> 0
                            <= self.row_major_index(p) < r.len() && r[self.row_major_index(p)]
                            == p,
                    forall|i: int| 0 <= i < r.len() ==> self.contains(#[trigger] r[i]),
                decreases self.max.x + 1 - x,
            {
                let pos = TilePos::of(x as i32, y as i32);
                proof {
                    assert forall|p: TilePos|
                        self.contains(p) && (p.y < y || (p.y == y && p.x < x)) implies (p.y
                            - self.min.y) * w + (p.x - self.min.x) < r.len() by {
                        lemma_row_major_order(w, p.x - self.min.x, p.y - self.min.y, x
                            - self.min.x, y - self.min.y);
                    }
                }
                r.push(pos);
                x = x + 1;
            }
            proof {
                assert((y + 1 - self.min.y) * w == (y - self.min.y) * w + w) by (nonlinear_arith);
            }
            y = y + 1;
        }
        proof {
            assert(self.spec_height() * w == w * self.spec_height()) by (nonlinear_arith);
        }
        r
    }

    /// Cuts the rectangle in two along the line `first_width` tiles after
    /// `min`, across the x axis if `x_axis` and across the y axis if not.
    /// Both parts include the line.
    pub fn split(&self, x_axis: bool, first_width: i32) -> (parts: (Self, Self))
        requires
            x_axis ==> i32::MIN <= self.min.x + first_width <= i32::MAX,
            !x_axis ==> i32::MIN <= self.min.y + first_width <= i32::MAX,
        ensures
            parts.0.min == self.min,
            parts.1.max == self.max,
            x_axis ==> parts.0.max == (TilePos {
                x: (self.min.x + first_width) as i32,
                y: self.max.y,
            }) && parts.1.min == (TilePos { x: (self.min.x + first_width) as i32, y: self.min.y }),
            !x_axis ==> parts.0.max == (TilePos {
                x: self.max.x,
                y: (self.min.y + first_width) as i32,
            }) && parts.1.min == (TilePos { x: self.min.x, y: (self.min.y + first_width) as i32 }),
    {
        if x_axis {
            let mid: i32 = self.min.x + first_width;
            (
                Self::new_presorted(self.min, TilePos::of(mid, self.max.y)),
                Self::new_presorted(TilePos::of(mid, self.min.y), self.max),
            )
        } else {
            let mid: i32 = self.min.y + first_width;
            (
                Self::new_presorted(self.min, TilePos::of(self.max.x, mid)),
                Self::new_presorted(TilePos::of(self.min.x, mid), self.max),
            )
        }
    }

    /// The tile at coordinate `along` of one side of the rectangle: side 0
    /// is the row `min.y`, side 1 the row `max.y`, side 2 the column
    /// `min.x`, any other side the column `max.x`.
    pub fn border_tile(&self, side: i32, along: i32) -> (r: TilePos)
        ensures
            r == self.spec_border_tile(side, along),
            (side == 0 || side == 1) && self.min.x <= along <= self.max.x && self.sorted()
                ==> self.on_border(r),
            !(side == 0 || side == 1) && self.min.y <= along <= self.max.y && self.sorted()
                ==> self.on_border(r),
    {
        if side == 0 {
            TilePos::of(along, self.min.y)
        } else if side == 1 {
            TilePos::of(along, self.max.y)
        } else if side == 2 {
            TilePos::of(self.min.x, along)
        } else {
            TilePos::of(self.max.x, along)
        }
    }

    /// A tile on the rim of the rectangle: first a side is drawn, then the
    /// place along it.
    pub fn tile_on_border(&self, rng: &mut SmallRng) -> (r: TilePos)
        requires
            self.sorted(),
        ensures
            self.on_border(r),
    {
        let side: i32 = draw_range(rng, 0, 4);
        let along: i32 = if side == 0 || side == 1 {
            draw_range_inclusive(rng, self.min.x, self.max.x)
        } else {
            draw_range_inclusive(rng, self.min.y, self.max.y)
        };
        self.border_tile(side, along)
    }
}

/// In a grid of rows `w` wide, a cell that comes before another, row by row,
/// has the smaller row-major index.
pub proof fn lemma_row_major_order(w: int, col_a: int, row_a: int, col_b: int, row_b: int)
    requires
        0 <= col_a < w,
        0 <= col_b <= w,
        0 <= row_a,
        row_a < row_b || (row_a == row_b && col_a < col_b),
    ensures
        0 <= row_a * w + col_a < row_b * w + col_b,
{
    assert(0 <= row_a * w) by (nonlinear_arith)
        requires
            0 <= row_a,
            0 < w,
    ;
    if row_a < row_b {
        assert(row_a * w + w <= row_b * w) by (nonlinear_arith)
            requires
                row_a + 1 <= row_b,
                0 < w,
        ;
    }
}

impl From<(TilePos, TilePos)> for TileRect {
    fn from(corners: (TilePos, TilePos)) -> (r: Self) {
        TileRect::new(corners.0, corners.1)
    }
}

impl vstd::std_specs::convert::FromSpecImpl<(TilePos, TilePos)> for TileRect {
    open spec fn obeys_from_spec() -> bool {
        true
    }

    open spec fn from_spec(corners: (TilePos, TilePos)) -> Self {
        TileRect::spec_new(corners.0, corners.1)
    }
}

} // verus!
