//! Addresses on the tile plane: tile positions, chunk positions, unit
//! directions, and the conversions between them.

use vstd::prelude::*;

verus! {

/// Number of tiles along one side of a chunk.
pub const CHUNK_DIAMETER: i32 = 32;

/// Number of tiles in a chunk.
pub const CHUNK_AREA: usize = 1024;

/// A displacement on the tile plane.
#[derive(Clone, Copy, Debug, PartialEq, Eq, Hash, Structural)]
pub struct TileDelta {
    pub x: i32,
    pub y: i32,
}

impl TileDelta {
    pub fn of(x: i32, y: i32) -> (r: Self)
        ensures
            r.x == x,
            r.y == y,
    {
        TileDelta { x, y }
    }

    /// The same displacement on both axes.
    pub fn splat(v: i32) -> (r: Self)
        ensures
            r.x == v,
            r.y == v,
    {
        TileDelta { x: v, y: v }
    }
}

/// One of the eight unit steps on the plane. North is towards smaller `y`.
#[derive(Clone, Copy, Debug, PartialEq, Eq, Hash, Structural)]
pub enum Direction {
    North,
    NorthEast,
    East,
    SouthEast,
    South,
    SouthWest,
    West,
    NorthWest,
}

impl Direction {
    pub open spec fn dx(self) -> int {
        match self {
            Direction::North => 0,
            Direction::NorthEast => 1,
            Direction::East => 1,
            Direction::SouthEast => 1,
            Direction::South => 0,
            Direction::SouthWest => -1,
            Direction::West => -1,
            Direction::NorthWest => -1,
        }
    }

    pub open spec fn dy(self) -> int {
        match self {
            Direction::North => -1,
            Direction::NorthEast => -1,
            Direction::East => 0,
            Direction::SouthEast => 1,
            Direction::South => 1,
            Direction::SouthWest => 1,
            Direction::West => 0,
            Direction::NorthWest => -1,
        }
    }

    /// The eight directions, clockwise from north.
    pub open spec fn spec_moore() -> Seq<Direction> {
        seq![
            Direction::North,
            Direction::NorthEast,
            Direction::East,
            Direction::SouthEast,
            Direction::South,
            Direction::SouthWest,
            Direction::West,
            Direction::NorthWest,
        ]
    }

    /// The four axis directions, clockwise from north.
    pub open spec fn spec_von_neumann() -> Seq<Direction> {
        seq![Direction::North, Direction::East, Direction::South, Direction::West]
    }

    /// The eight directions, clockwise from north.
    pub fn moore() -> (r: Vec<Direction>)
        ensures
            r@ == Self::spec_moore(),
    {
        let r = vec![
            Direction::North,
            Direction::NorthEast,
            Direction::East,
            Direction::SouthEast,
            Direction::South,
            Direction::SouthWest,
            Direction::West,
            Direction::NorthWest,
        ];
        assert(r@ =~= Self::spec_moore());
        r
    }

    /// The unit step in this direction.
    pub fn delta(self) -> (d: TileDelta)
        ensures
            d.x == self.dx(),
            d.y == self.dy(),
    {
        match self {
            Direction::North => TileDelta { x: 0, y: -1 },
            Direction::NorthEast => TileDelta { x: 1, y: -1 },
            Direction::East => TileDelta { x: 1, y: 0 },
            Direction::SouthEast => TileDelta { x: 1, y: 1 },
            Direction::South => TileDelta { x: 0, y: 1 },
            Direction::SouthWest => TileDelta { x: -1, y: 1 },
            Direction::West => TileDelta { x: -1, y: 0 },
            Direction::NorthWest => TileDelta { x: -1, y: -1 },
        }
    }
}

/// The position of one tile on the plane.
#[derive(Clone, Copy, Debug, PartialEq, Eq, Hash, Structural)]
pub struct TilePos {
    pub x: i32,
    pub y: i32,
}

/// The position of one chunk: chunk `(cx, cy)` holds the tiles with
/// `32 * cx <= x < 32 * cx + 32` and `32 * cy <= y < 32 * cy + 32`.
#[derive(Clone, Copy, Debug, PartialEq, Eq, Hash, Structural)]
pub struct ChunkPos {
    pub x: i32,
    pub y: i32,
}

impl TilePos {
    /// Whether every neighbour of this position is a position too.
    pub open spec fn interior(self) -> bool {
        i32::MIN < self.x < i32::MAX && i32::MIN < self.y < i32::MAX
    }

    /// Whether the position displaced by `(dx, dy)` exists.
    pub open spec fn can_offset(self, dx: int, dy: int) -> bool {
        i32::MIN <= self.x + dx <= i32::MAX && i32::MIN <= self.y + dy <= i32::MAX
    }

    /// This position displaced by `(dx, dy)`.
    pub open spec fn spec_offset(self, dx: int, dy: int) -> TilePos {
        TilePos { x: (self.x + dx) as i32, y: (self.y + dy) as i32 }
    }

    pub open spec fn spec_neighbor(self, dir: Direction) -> TilePos {
        self.spec_offset(dir.dx(), dir.dy())
    }

    /// The chunk that holds this tile: floor division by the chunk diameter.
    pub open spec fn spec_chunk(self) -> ChunkPos {
        ChunkPos { x: (self.x as int / 32) as i32, y: (self.y as int / 32) as i32 }
    }

    /// This tile's offset inside its chunk: the non-negative remainder.
    pub open spec fn spec_chunk_relative(self) -> TilePos {
        TilePos { x: (self.x as int % 32) as i32, y: (self.y as int % 32) as i32 }
    }

    /// Whether this position is an offset inside a chunk.
    pub open spec fn is_chunk_relative(self) -> bool {
        0 <= self.x < 32 && 0 <= self.y < 32
    }

    /// Row-major index of an offset inside a chunk.
    pub open spec fn spec_chunk_index(self) -> int {
        self.y * 32 + self.x
    }

    /// Index in its chunk's tile array of the tile at this position.
    pub open spec fn spec_index_in_chunk(self) -> int {
        self.spec_chunk_relative().spec_chunk_index()
    }

    /// Whether `other` is one of the eight positions around this one.
    pub open spec fn moore_adjacent(self, other: TilePos) -> bool {
        &&& -1 <= other.x - self.x <= 1
        &&& -1 <= other.y - self.y <= 1
        &&& other != self
    }

    /// Whether `other` is one of the four positions that share a side with
    /// this one.
    pub open spec fn von_neumann_adjacent(self, other: TilePos) -> bool {
        ||| (other.x == self.x && (other.y - self.y == 1 || other.y - self.y == -1))
        ||| (other.y == self.y && (other.x - self.x == 1 || other.x - self.x == -1))
    }

    /// A number that identifies this position.
    pub open spec fn spec_key(self) -> u64 {
        ((self.x + 0x8000_0000) * 0x1_0000_0000 + (self.y + 0x8000_0000)) as u64
    }

    pub fn of(x: i32, y: i32) -> (r: Self)
        ensures
            r.x == x,
            r.y == y,
    {
        TilePos { x, y }
    }

    /// This tile's offset inside its chunk, both coordinates in `0..32`.
    pub fn chunk_relative(self) -> (r: Self)
        ensures
            r == self.spec_chunk_relative(),
            r.is_chunk_relative(),
    {
        let x: i32 = self.x;
        let y: i32 = self.y;
        assert(x & 0x1F == x % 32 && 0 <= x & 0x1F < 32) by (bit_vector);
        assert(y & 0x1F == y % 32 && 0 <= y & 0x1F < 32) by (bit_vector);
        TilePos { x: x & 0x1F, y: y & 0x1F }
    }

    /// Row-major index of an offset inside a chunk.
    pub fn chunk_index(self) -> (i: usize)
        requires
            self.is_chunk_relative(),
        ensures
            i == self.spec_chunk_index(),
            i < CHUNK_AREA,
    {
        (self.y * CHUNK_DIAMETER + self.x) as usize
    }

    /// This position displaced by `delta`.
    pub fn offset(self, delta: TileDelta) -> (r: Self)
        requires
            self.can_offset(delta.x as int, delta.y as int),
        ensures
            r == self.spec_offset(delta.x as int, delta.y as int),
            r.x == self.x + delta.x,
            r.y == self.y + delta.y,
    {
        TilePos { x: self.x + delta.x, y: self.y + delta.y }
    }

    /// The neighbouring position in the given direction.
    pub fn neighbor(&self, dir: Direction) -> (r: Self)
        requires
            self.can_offset(dir.dx(), dir.dy()),
        ensures
            r == self.spec_neighbor(dir),
            r.x == self.x + dir.dx(),
            r.y == self.y + dir.dy(),
    {
        let d = dir.delta();
        TilePos { x: self.x + d.x, y: self.y + d.y }
    }

    /// The neighbouring position in the given direction, if the plane has
    /// one there.
    pub fn checked_neighbor(&self, dir: Direction) -> (r: Option<Self>)
        ensures
            r is Some <==> self.can_offset(dir.dx(), dir.dy()),
            r matches Some(p) ==> p == self.spec_neighbor(dir) && self.moore_adjacent(p),
    {
        let d = dir.delta();
        let x: i64 = self.x as i64 + d.x as i64;
        let y: i64 = self.y as i64 + d.y as i64;
        if x < i32::MIN as i64 || x > i32::MAX as i64 || y < i32::MIN as i64 || y > i32::MAX as i64 {
            None
        } else {
            Some(TilePos { x: x as i32, y: y as i32 })
        }
    }

    /// The eight positions around this one, clockwise from north.
    pub fn moore_neighborhood(self) -> (r: Vec<Self>)
        requires
            self.interior(),
        ensures
            r@ == Direction::spec_moore().map_values(|d: Direction| self.spec_neighbor(d)),
            r.len() == 8,
            forall|i: int| 0 <= i < 8 ==> self.moore_adjacent(#[trigger] r[i]),
            forall|p: TilePos| self.moore_adjacent(p) ==> r@.contains(p),
    {
        let r = vec![
            self.neighbor(Direction::North),
            self.neighbor(Direction::NorthEast),
            self.neighbor(Direction::East),
            self.neighbor(Direction::SouthEast),
            self.neighbor(Direction::South),
            self.neighbor(Direction::SouthWest),
            self.neighbor(Direction::West),
            self.neighbor(Direction::NorthWest),
        ];
        proof {
            let ds = Direction::spec_moore();
            assert(r@ =~= ds.map_values(|d: Direction| self.spec_neighbor(d)));
            assert forall|p: TilePos| self.moore_adjacent(p) implies r@.contains(p) by {
                let dx = p.x - self.x;
                let dy = p.y - self.y;
                let i: int = if dx == 0 && dy == -1 {
                    0
                } else if dx == 1 && dy == -1 {
                    1
                } else if dx == 1 && dy == 0 {
                    2
                } else if dx == 1 && dy == 1 {
                    3
                } else if dx == 0 && dy == 1 {
                    4
                } else if dx == -1 && dy == 1 {
                    5
                } else if dx == -1 && dy == 0 {
                    6
                } else {
                    7
                };
                assert(r@[i] == p);
            }
        }
        r
    }

    /// The four positions that share a side with this one, clockwise from
    /// north.
    pub fn von_neumann_neighborhood(self) -> (r: Vec<Self>)
        requires
            self.interior(),
        ensures
            r@ == Direction::spec_von_neumann().map_values(|d: Direction| self.spec_neighbor(d)),
            r.len() == 4,
            forall|i: int| 0 <= i < 4 ==> self.von_neumann_adjacent(#[trigger] r[i]),
            forall|p: TilePos| self.von_neumann_adjacent(p) ==> r@.contains(p),
    {
        let r = vec![
            self.neighbor(Direction::North),
            self.neighbor(Direction::East),
            self.neighbor(Direction::South),
            self.neighbor(Direction::West),
        ];
        proof {
            let ds = Direction::spec_von_neumann();
            assert(r@ =~= ds.map_values(|d: Direction| self.spec_neighbor(d)));
            assert forall|p: TilePos| self.von_neumann_adjacent(p) implies r@.contains(p) by {
                let dx = p.x - self.x;
                let dy = p.y - self.y;
                let i: int = if dy == -1 {
                    0
                } else if dx == 1 {
                    1
                } else if dy == 1 {
                    2
                } else {
                    3
                };
                assert(r@[i] == p);
            }
        }
        r
    }

    /// A number that identifies this position: no two positions share one.
    pub fn key(self) -> (k: u64)
        ensures
            k == self.spec_key(),
    {
        let hi: u64 = (self.x as i64 + 0x8000_0000) as u64;
        let lo: u64 = (self.y as i64 + 0x8000_0000) as u64;
        hi * 0x1_0000_0000 + lo
    }
}

impl ChunkPos {
    /// Whether this chunk holds tiles: whether it is the chunk of some
    /// position.
    pub open spec fn in_plane(self) -> bool {
        -0x400_0000 <= self.x < 0x400_0000 && -0x400_0000 <= self.y < 0x400_0000
    }

    pub open spec fn spec_min_tile(self) -> TilePos {
        TilePos { x: (self.x * 32) as i32, y: (self.y * 32) as i32 }
    }

    pub open spec fn spec_max_tile(self) -> TilePos {
        TilePos { x: (self.x * 32 + 31) as i32, y: (self.y * 32 + 31) as i32 }
    }

    /// A number that identifies this chunk.
    pub open spec fn spec_key(self) -> u64 {
        ((self.x + 0x8000_0000) * 0x1_0000_0000 + (self.y + 0x8000_0000)) as u64
    }

    pub fn of(x: i32, y: i32) -> (r: Self)
        ensures
            r.x == x,
            r.y == y,
    {
        ChunkPos { x, y }
    }

    /// The chunk that holds the tile at `pos`.
    pub fn of_tile(pos: TilePos) -> (r: Self)
        ensures
            r == pos.spec_chunk(),
            r.in_plane(),
    {
        let x: i32 = pos.x;
        let y: i32 = pos.y;
        assert(x >> 5u32 == x / 32 && -0x400_0000 <= x >> 5u32 < 0x400_0000) by (bit_vector);
        assert(y >> 5u32 == y / 32 && -0x400_0000 <= y >> 5u32 < 0x400_0000) by (bit_vector);
        ChunkPos { x: x >> 5, y: y >> 5 }
    }

    /// The tile of this chunk with the smallest coordinates.
    pub fn min_tile(&self) -> (r: TilePos)
        requires
            self.in_plane(),
        ensures
            r == self.spec_min_tile(),
            r.x == self.x * 32,
            r.y == self.y * 32,
    {
        TilePos { x: self.x * CHUNK_DIAMETER, y: self.y * CHUNK_DIAMETER }
    }

    /// The tile of this chunk with the largest coordinates.
    pub fn max_tile(&self) -> (r: TilePos)
        requires
            self.in_plane(),
        ensures
            r == self.spec_max_tile(),
            r.x == self.x * 32 + 31,
            r.y == self.y * 32 + 31,
    {
        let min = self.min_tile();
        TilePos { x: min.x + (CHUNK_DIAMETER - 1), y: min.y + (CHUNK_DIAMETER - 1) }
    }

    /// A number that identifies this chunk: no two chunks share one.
    pub fn key(self) -> (k: u64)
        ensures
            k == self.spec_key(),
    {
        let hi: u64 = (self.x as i64 + 0x8000_0000) as u64;
        let lo: u64 = (self.y as i64 + 0x8000_0000) as u64;
        hi * 0x1_0000_0000 + lo
    }
}

impl From<TilePos> for ChunkPos {
    fn from(pos: TilePos) -> (r: Self) {
        ChunkPos::of_tile(pos)
    }
}

impl vstd::std_specs::convert::FromSpecImpl<TilePos> for ChunkPos {
    open spec fn obeys_from_spec() -> bool {
        true
    }

    open spec fn from_spec(pos: TilePos) -> Self {
        pos.spec_chunk()
    }
}

impl From<TileDelta> for TilePos {
    fn from(d: TileDelta) -> (r: Self) {
        TilePos { x: d.x, y: d.y }
    }
}

impl vstd::std_specs::convert::FromSpecImpl<TileDelta> for TilePos {
    open spec fn obeys_from_spec() -> bool {
        true
    }

    open spec fn from_spec(d: TileDelta) -> Self {
        TilePos { x: d.x, y: d.y }
    }
}

impl From<TilePos> for TileDelta {
    fn from(pos: TilePos) -> (r: Self) {
        TileDelta { x: pos.x, y: pos.y }
    }
}

impl vstd::std_specs::convert::FromSpecImpl<TilePos> for TileDelta {
    open spec fn obeys_from_spec() -> bool {
        true
    }

    open spec fn from_spec(pos: TilePos) -> Self {
        TileDelta { x: pos.x, y: pos.y }
    }
}

/// A tile's chunk and its offset inside that chunk give the tile back: the
/// chunk's smallest tile, displaced by the offset, is the tile itself, and
/// the offset lies inside the chunk.
pub proof fn lemma_chunk_round_trip(pos: TilePos)
    ensures
        pos.spec_chunk().in_plane(),
        pos.spec_chunk_relative().is_chunk_relative(),
        pos.spec_chunk().x * 32 + pos.spec_chunk_relative().x == pos.x,
        pos.spec_chunk().y * 32 + pos.spec_chunk_relative().y == pos.y,
        pos.spec_chunk().spec_min_tile().spec_offset(
            pos.spec_chunk_relative().x as int,
            pos.spec_chunk_relative().y as int,
        ) == pos,
{
}

/// A position is found again from its chunk and its index in that chunk: two
/// positions with the same chunk and the same index are the same position.
pub proof fn lemma_chunk_address_injective(a: TilePos, b: TilePos)
    requires
        a.spec_chunk() == b.spec_chunk(),
        a.spec_index_in_chunk() == b.spec_index_in_chunk(),
    ensures
        a == b,
{
}

/// Every position around a position lies in one of the eight directions.
pub proof fn lemma_moore_adjacent_direction(a: TilePos, b: TilePos) -> (dir: Direction)
    requires
        a.moore_adjacent(b),
    ensures
        a.can_offset(dir.dx(), dir.dy()),
        a.spec_neighbor(dir) == b,
        exists|i: int| 0 <= i < 8 && Direction::spec_moore()[i] == dir,
{
    let dx = b.x - a.x;
    let dy = b.y - a.y;
    let i: int = if dx == 0 && dy == -1 {
        0
    } else if dx == 1 && dy == -1 {
        1
    } else if dx == 1 && dy == 0 {
        2
    } else if dx == 1 && dy == 1 {
        3
    } else if dx == 0 && dy == 1 {
        4
    } else if dx == -1 && dy == 1 {
        5
    } else if dx == -1 && dy == 0 {
        6
    } else {
        7
    };
    let dir = Direction::spec_moore()[i];
    assert(Direction::spec_moore()[i] == dir);
    dir
}

/// No two chunks share a key.
pub proof fn lemma_chunk_key_injective(a: ChunkPos, b: ChunkPos)
    requires
        a.spec_key() == b.spec_key(),
    ensures
        a == b,
{
}

/// No two positions share a key.
pub proof fn lemma_tile_key_injective(a: TilePos, b: TilePos)
    requires
        a.spec_key() == b.spec_key(),
    ensures
        a == b,
{
}

} // verus!
