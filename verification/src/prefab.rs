//! Prefabs: hand-drawn pieces of map, given as rows of characters and a key
//! that says which cell each character stands for.

use crate::grid::TileGrid;
use crate::mutmap::MutMap;
use crate::pos::{ChunkPos, TilePos};
use crate::tile::TilePair;
use std::collections::HashMap;
use vstd::prelude::*;

verus! {

broadcast use vstd::std_specs::hash::group_hash_axioms;

/// The character that stands for no cell at all.
pub const NO_TILE: char = ' ';

/// Why rows and key make no prefab.
#[derive(Clone, Copy, Debug, PartialEq, Eq, Structural)]
pub enum PrefabError {
    /// The character `tile`, in row `row` at column `column`, is not in the
    /// key.
    UnknownTile { tile: char, row: usize, column: usize },
    /// There are more rows, or more characters in a row, than the plane has
    /// coordinates.
    TooLarge,
}

impl PrefabError {
    /// What went wrong, in words.
    pub open spec fn spec_message(&self) -> Seq<char> {
        match self {
            PrefabError::UnknownTile { .. } => "prefab map uses a character that its key lacks"@,
            PrefabError::TooLarge => "prefab map is larger than the plane"@,
        }
    }

    /// What went wrong, in words.
    pub fn message(&self) -> (text: &'static str)
        ensures
            text@ == self.spec_message(),
    {
        match self {
            PrefabError::UnknownTile { .. } => "prefab map uses a character that its key lacks",
            PrefabError::TooLarge => "prefab map is larger than the plane",
        }
    }
}

/// The cell that `key` gives for the character `c`: that of the last entry
/// for `c`, if there is one.
pub open spec fn legend_of(key: Seq<(char, TilePair)>, c: char) -> Option<TilePair>
    decreases key.len(),
{
    if key.len() == 0 {
        None
    } else if key.last().0 == c {
        Some(key.last().1)
    } else {
        legend_of(key.drop_last(), c)
    }
}

/// The characters of each row.
pub open spec fn rows_of(rows: Seq<String>) -> Seq<Seq<char>> {
    Seq::new(rows.len(), |i: int| rows[i]@)
}

/// Whether rows of these lengths fit the plane.
pub open spec fn rows_fit(rows: Seq<Seq<char>>) -> bool {
    rows.len() <= i32::MAX && forall|y: int| 0 <= y < rows.len() ==> (#[trigger] rows[y]).len()
        <= i32::MAX
}

/// Whether the character at column `x` of row `y` stands for a cell that
/// the key lacks.
pub open spec fn unknown_at(
    key: Seq<(char, TilePair)>,
    rows: Seq<Seq<char>>,
    y: int,
    x: int,
) -> bool {
    rows[y][x] != NO_TILE && legend_of(key, rows[y][x]) is None
}

/// A piece of map: rows of characters, one character for each tile, and the
/// cell that each character stands for.
pub struct Prefab {
    /// The cell for each character, under the character's code point.
    pub key: HashMap<u32, TilePair>,
    /// The characters of each row.
    pub rows: Vec<Vec<char>>,
    /// Length of the longest row, and number of rows.
    pub size: (u32, u32),
}

impl Prefab {
    /// The rows, as sequences of characters.
    pub open spec fn spec_rows(&self) -> Seq<Seq<char>> {
        Seq::new(self.rows@.len(), |i: int| self.rows@[i]@)
    }

    /// The cell that the character `c` stands for, if the key has it.
    pub open spec fn legend(&self, c: char) -> Option<TilePair> {
        if self.key@.contains_key(c as u32) {
            Some(self.key@[c as u32])
        } else {
            None
        }
    }

    /// Whether the prefab has a cell at column `x` of row `y`.
    pub open spec fn covers(&self, x: int, y: int) -> bool {
        0 <= y < self.rows@.len() && 0 <= x < self.rows@[y]@.len() && self.rows@[y]@[x] != NO_TILE
    }

    /// The cell at column `x` of row `y`.
    pub open spec fn cell(&self, x: int, y: int) -> TilePair {
        self.legend(self.rows@[y]@[x])->0
    }

    /// Whether `width` is the length of the longest row.
    pub open spec fn is_width(&self, width: int) -> bool {
        &&& forall|y: int| 0 <= y < self.rows@.len() ==> (#[trigger] self.rows@[y])@.len() <= width
        &&& if self.rows@.len() == 0 {
            width == 0
        } else {
            exists|y: int| 0 <= y < self.rows@.len() && (#[trigger] self.rows@[y])@.len() == width
        }
    }

    /// The rows fit the plane, every character but the blank is in the key,
    /// and the size is that of the rows.
    pub open spec fn wf(&self) -> bool {
        &&& rows_fit(self.spec_rows())
        &&& forall|y: int, x: int|
            #![trigger self.rows@[y]@[x]]
            self.covers(x, y) ==> self.legend(self.rows@[y]@[x]) is Some
        &&& self.is_width(self.size.0 as int)
        &&& self.size.1 == self.rows@.len()
    }

    /// The cells of the first `n` columns of row `y`, with their positions,
    /// from left to right.
    pub open spec fn row_tiles(&self, y: int, n: int) -> Seq<(TilePos, TilePair)>
        decreases n,
    {
        if n <= 0 {
            Seq::empty()
        } else if self.rows@[y]@[n - 1] == NO_TILE {
            self.row_tiles(y, n - 1)
        } else {
            self.row_tiles(y, n - 1).push(
                (TilePos { x: (n - 1) as i32, y: y as i32 }, self.cell(n - 1, y)),
            )
        }
    }

    /// The cells of the first `m` rows, with their positions, row by row.
    pub open spec fn tiles_upto(&self, m: int) -> Seq<(TilePos, TilePair)>
        decreases m,
    {
        if m <= 0 {
            Seq::empty()
        } else {
            self.tiles_upto(m - 1) + self.row_tiles(m - 1, self.rows@[m - 1]@.len() as int)
        }
    }

    /// The cells of the prefab, with their positions: column and row, both
    /// counted from zero. Blanks have no cell.
    pub open spec fn spec_tiles(&self) -> Seq<(TilePos, TilePair)> {
        self.tiles_upto(self.rows@.len() as int)
    }
}

/// A key names at most one cell for a character, under the character's code
/// point: different characters have different code points.
pub proof fn lemma_code_points_differ(a: char, b: char)
    requires
        a as u32 == b as u32,
    ensures
        a == b,
{
}

impl Prefab {
    /// The cell for each character of `key`, under the character's code
    /// point. Where `key` names a character twice, the later entry counts.
    fn build_key(key: &Vec<(char, TilePair)>) -> (map: HashMap<u32, TilePair>)
        ensures
            forall|c: char|
                #[trigger] legend_of(key@, c) == if map@.contains_key(c as u32) {
                    Some(map@[c as u32])
                } else {
                    None
                },
    {
        let mut map: HashMap<u32, TilePair> = HashMap::new();
        let mut i: usize = 0;
        while i < key.len()
            invariant
                i <= key.len(),
                forall|c: char|
                    #[trigger] legend_of(key@.subrange(0, i as int), c) == if map@.contains_key(
                        c as u32,
                    ) {
                        Some(map@[c as u32])
                    } else {
                        None
                    },
            decreases key.len() - i,
        {
            let (tile, cell) = key[i];
            let ghost before = map@;
            map.insert(tile as u32, cell);
            proof {
                let head = key@.subrange(0, i as int);
                let next = key@.subrange(0, i + 1);
                assert(next.last() == key@[i as int]);
                assert(next.drop_last() =~= head);
                assert forall|c: char|
                    #[trigger] legend_of(next, c) == if map@.contains_key(c as u32) {
                        Some(map@[c as u32])
                    } else {
                        None
                    } by {
                    assert(legend_of(head, c) == if before.contains_key(c as u32) {
                        Some(before[c as u32])
                    } else {
                        None
                    });
                    if c as u32 == tile as u32 {
                        lemma_code_points_differ(c, tile);
                    }
                }
            }
            i += 1;
        }
        proof {
            assert(key@.subrange(0, key@.len() as int) =~= key@);
        }
        map
    }
}

impl Prefab {
    /// Whether the rows hold no character that the key lacks before column
    /// `x` of row `y`, read row by row.
    pub open spec fn known_before(
        key: Seq<(char, TilePair)>,
        rows: Seq<Seq<char>>,
        y: int,
        x: int,
    ) -> bool {
        forall|r: int, c: int|
            0 <= r < rows.len() && 0 <= c < rows[r].len() && (r < y || (r == y && c < x))
                ==> !#[trigger] unknown_at(key, rows, r, c)
    }

    /// The prefab with the given key and rows. Where `key` names a character
    /// twice, the later entry counts.
    ///
    /// Fails with `TooLarge` exactly where the rows do not fit the plane;
    /// else with `UnknownTile`, naming the first such character, exactly
    /// where a character other than the blank is not in the key.
    pub fn new(key: Vec<(char, TilePair)>, rows: Vec<String>) -> (r: Result<Prefab, PrefabError>)
        ensures
            r == Err::<Prefab, PrefabError>(PrefabError::TooLarge) <==> !rows_fit(rows_of(rows@)),
            r matches Err(PrefabError::UnknownTile { tile, row, column }) ==> {
                &&& row < rows@.len()
                &&& column < rows@[row as int]@.len()
                &&& rows@[row as int]@[column as int] == tile
                &&& unknown_at(key@, rows_of(rows@), row as int, column as int)
                &&& Self::known_before(key@, rows_of(rows@), row as int, column as int)
            },
            r matches Ok(prefab) ==> {
                &&& prefab.wf()
                &&& prefab.spec_rows() == rows_of(rows@)
                &&& forall|c: char| prefab.legend(c) == legend_of(key@, c)
                &&& Self::known_before(key@, rows_of(rows@), rows@.len() as int, 0)
            },
    {
        let ghost text = rows_of(rows@);
        if rows.len() > 0x7fff_ffff {
            return Err(PrefabError::TooLarge);
        }
        let mut width: usize = 0;
        let mut y: usize = 0;
        while y < rows.len()
            invariant
                y <= rows.len() <= i32::MAX,
                text == rows_of(rows@),
                width <= i32::MAX,
                forall|k: int| 0 <= k < y ==> (#[trigger] text[k]).len() <= width,
                if y == 0 {
                    width == 0
                } else {
                    exists|k: int| 0 <= k < y && (#[trigger] text[k]).len() == width
                },
            decreases rows.len() - y,
        {
            let length = rows[y].as_str().unicode_len();
            assert(text[y as int].len() == length);
            if length > 0x7fff_ffff {
                return Err(PrefabError::TooLarge);
            }
            if length > width {
                width = length;
            }
            y += 1;
        }
        let map = Self::build_key(&key);
        let mut chars: Vec<Vec<char>> = Vec::new();
        let mut y: usize = 0;
        while y < rows.len()
            invariant
                y <= rows.len() <= i32::MAX,
                text == rows_of(rows@),
                rows_fit(text),
                width <= i32::MAX,
                forall|k: int| 0 <= k < rows.len() ==> (#[trigger] text[k]).len() <= width,
                rows.len() > 0 ==> exists|k: int|
                    0 <= k < rows.len() && (#[trigger] text[k]).len() == width,
                rows.len() == 0 ==> width == 0,
                chars@.len() == y,
                forall|k: int| 0 <= k < y ==> (#[trigger] chars@[k])@ == text[k],
                forall|c: char|
                    #[trigger] legend_of(key@, c) == if map@.contains_key(c as u32) {
                        Some(map@[c as u32])
                    } else {
                        None
                    },
                Self::known_before(key@, text, y as int, 0),
            decreases rows.len() - y,
        {
            let row = rows[y].as_str();
            let length = row.unicode_len();
            assert(text[y as int] == row@);
            let mut line: Vec<char> = Vec::new();
            let mut x: usize = 0;
            while x < length
                invariant
                    x <= length,
                    length == row@.len(),
                    y < rows.len(),
                    text == rows_of(rows@),
                    rows_fit(text),
                    text[y as int] == row@,
                    line@ == row@.subrange(0, x as int),
                    forall|c: char|
                        #[trigger] legend_of(key@, c) == if map@.contains_key(c as u32) {
                            Some(map@[c as u32])
                        } else {
                            None
                        },
                    Self::known_before(key@, text, y as int, x as int),
                decreases length - x,
            {
                let tile = row.get_char(x);
                if tile != NO_TILE && !map.contains_key(&(tile as u32)) {
                    return Err(PrefabError::UnknownTile { tile, row: y, column: x });
                }
                line.push(tile);
                proof {
                    assert(line@ =~= row@.subrange(0, x + 1));
                    assert(!unknown_at(key@, text, y as int, x as int));
                }
                x += 1;
            }
            proof {
                assert(line@ =~= row@);
            }
            chars.push(line);
            y += 1;
        }
        let prefab = Prefab { key: map, rows: chars, size: (width as u32, rows.len() as u32) };
        proof {
            assert(prefab.spec_rows() =~= text);
            assert forall|r: int, c: int|
                #![trigger prefab.rows@[r]@[c]]
                prefab.covers(c, r) implies prefab.legend(prefab.rows@[r]@[c]) is Some by {
                let tile = prefab.rows@[r]@[c];
                assert(text[r][c] == tile);
                assert(!unknown_at(key@, text, r, c));
                assert(legend_of(key@, tile) is Some);
                assert(map@.contains_key(tile as u32));
            }
            assert forall|c: char| prefab.legend(c) == legend_of(key@, c) by {
                assert(legend_of(key@, c) == if map@.contains_key(c as u32) {
                    Some(map@[c as u32])
                } else {
                    None
                });
            }
            assert forall|k: int| 0 <= k < prefab.rows@.len() implies (
            #[trigger] prefab.rows@[k])@.len() <= width by {
                assert(text[k].len() <= width);
            }
            if rows.len() > 0 {
                let k = choose|k: int| 0 <= k < rows.len() && (#[trigger] text[k]).len() == width;
                assert(prefab.rows@[k]@.len() == width);
            }
        }
        Ok(prefab)
    }

    /// Length of the longest row, and number of rows.
    pub fn size(&self) -> (size: (u32, u32))
        requires
            self.wf(),
        ensures
            self.is_width(size.0 as int),
            size.1 == self.rows@.len(),
    {
        self.size
    }
}

impl Prefab {
    /// The positions that the cells of the prefab take when the prefab is
    /// put with its first column and row at `origin`.
    pub open spec fn target(&self, origin: TilePos) -> Set<TilePos> {
        Set::new(|p: TilePos| self.covers(p.x - origin.x, p.y - origin.y))
    }

    /// Whether `after` is `before` with the prefab put at `origin`: every
    /// position that the prefab has a cell for holds that cell, the chunks
    /// of those positions are allocated, and nothing else differs. Where
    /// the prefab has a blank, the grid keeps what it had.
    pub open spec fn is_pasted(&self, before: &TileGrid, after: &TileGrid, origin: TilePos) -> bool {
        &&& forall|p: TilePos| #[trigger]
            after.tile_at(p) == if self.covers(p.x - origin.x, p.y - origin.y) {
                self.cell(p.x - origin.x, p.y - origin.y)
            } else {
                before.tile_at(p)
            }
        &&& forall|c: ChunkPos| #[trigger]
            after.has_chunk(c) <==> before.has_chunk(c) || TileGrid::region_meets_chunk(
                self.target(origin),
                c,
            )
    }

    /// The cells of the prefab with their positions, row by row and from
    /// left to right: the column and the row of a character are the
    /// coordinates of its cell. Blanks are left out.
    pub fn iter(&self) -> (tiles: Vec<(TilePos, TilePair)>)
        requires
            self.wf(),
        ensures
            tiles@ == self.spec_tiles(),
    {
        let mut tiles: Vec<(TilePos, TilePair)> = Vec::new();
        let mut y: usize = 0;
        while y < self.rows.len()
            invariant
                self.wf(),
                y <= self.rows.len(),
                tiles@ == self.tiles_upto(y as int),
            decreases self.rows.len() - y,
        {
            let ghost head = tiles@;
            let row = &self.rows[y];
            assert(self.spec_rows()[y as int] == row@);
            let mut x: usize = 0;
            while x < row.len()
                invariant
                    self.wf(),
                    y < self.rows.len(),
                    *row == self.rows@[y as int],
                    row@.len() <= i32::MAX,
                    x <= row.len(),
                    tiles@ == head + self.row_tiles(y as int, x as int),
                decreases row.len() - x,
            {
                let tile = row[x];
                if tile != NO_TILE {
                    assert(self.covers(x as int, y as int));
                    assert(self.legend(self.rows@[y as int]@[x as int]) is Some);
                    let cell = match self.key.get(&(tile as u32)) {
                        Some(cell) => *cell,
                        None => vstd::pervasive::unreached(),
                    };
                    tiles.push((TilePos::of(x as i32, y as i32), cell));
                    proof {
                        assert(tiles@ =~= head + self.row_tiles(y as int, x + 1));
                    }
                }
                x += 1;
            }
            y += 1;
        }
        tiles
    }

    /// Puts the prefab into `map`, its first column and row at `origin`:
    /// every cell of the prefab replaces the cell of `map` at its place.
    /// Where the prefab has a blank, `map` keeps what it had.
    pub fn copy_into(&self, map: &mut MutMap, origin: TilePos)
        requires
            self.wf(),
            old(map).wf(),
            forall|x: int, y: int| self.covers(x, y) ==> #[trigger] origin.can_offset(x, y),
        ensures
            final(map).wf(),
            final(map).rng == old(map).rng,
            self.is_pasted(&old(map).map, &final(map).map, origin),
    {
        let mut y: usize = 0;
        let ghost mut done: Set<TilePos> = Set::empty();
        proof {
            assert forall|c: ChunkPos| !TileGrid::region_meets_chunk(done, c) by {}
        }
        while y < self.rows.len()
            invariant
                self.wf(),
                map.wf(),
                map.rng == old(map).rng,
                forall|x: int, y: int| self.covers(x, y) ==> #[trigger] origin.can_offset(x, y),
                y <= self.rows.len(),
                forall|p: TilePos|
                    done.contains(p) <==> self.covers(p.x - origin.x, p.y - origin.y) && p.y
                        - origin.y < y,
                forall|p: TilePos| #[trigger]
                    map.map.tile_at(p) == if done.contains(p) {
                        self.cell(p.x - origin.x, p.y - origin.y)
                    } else {
                        old(map).map.tile_at(p)
                    },
                forall|c: ChunkPos| #[trigger]
                    map.map.has_chunk(c) <==> old(map).map.has_chunk(c)
                        || TileGrid::region_meets_chunk(done, c),
            decreases self.rows.len() - y,
        {
            let row = &self.rows[y];
            assert(self.spec_rows()[y as int] == row@);
            let mut x: usize = 0;
            while x < row.len()
                invariant
                    self.wf(),
                    map.wf(),
                    map.rng == old(map).rng,
                    forall|x: int, y: int| self.covers(x, y) ==> #[trigger] origin.can_offset(x, y),
                    y < self.rows.len(),
                    *row == self.rows@[y as int],
                    row@.len() <= i32::MAX,
                    x <= row.len(),
                    forall|p: TilePos|
                        done.contains(p) <==> self.covers(p.x - origin.x, p.y - origin.y) && (p.y
                            - origin.y < y || (p.y - origin.y == y && p.x - origin.x < x)),
                    forall|p: TilePos| #[trigger]
                        map.map.tile_at(p) == if done.contains(p) {
                            self.cell(p.x - origin.x, p.y - origin.y)
                        } else {
                            old(map).map.tile_at(p)
                        },
                    forall|c: ChunkPos| #[trigger]
                        map.map.has_chunk(c) <==> old(map).map.has_chunk(c)
                            || TileGrid::region_meets_chunk(done, c),
                decreases row.len() - x,
            {
                let tile = row[x];
                if tile != NO_TILE {
                    assert(self.covers(x as int, y as int));
                    assert(origin.can_offset(x as int, y as int));
                    assert(self.legend(self.rows@[y as int]@[x as int]) is Some);
                    let cell = match self.key.get(&(tile as u32)) {
                        Some(cell) => *cell,
                        None => vstd::pervasive::unreached(),
                    };
                    let pos = TilePos::of(
                        (origin.x as i64 + x as i64) as i32,
                        (origin.y as i64 + y as i64) as i32,
                    );
                    *map.map.index_mut(pos) = cell;
                    proof {
                        assert forall|c: ChunkPos| #[trigger]
                            map.map.has_chunk(c) <==> old(map).map.has_chunk(c)
                                || TileGrid::region_meets_chunk(done.insert(pos), c) by {
                            crate::grid::lemma_region_grows(done, pos, c);
                        }
                        done = done.insert(pos);
                    }
                }
                x += 1;
            }
            y += 1;
        }
        proof {
            assert(done =~= self.target(origin));
        }
    }

    /// A grid that holds the prefab, its first column and row at the
    /// origin, with a generator seeded as `MutMap::new` seeds it.
    pub fn into_map(self, seed: Option<u64>) -> (r: Result<MutMap, PrefabError>)
        requires
            self.wf(),
        ensures
            r is Ok,
            r matches Ok(map) ==> {
                &&& map.wf()
                &&& forall|p: TilePos| #[trigger]
                    map.tile_at(p) == if self.covers(p.x as int, p.y as int) {
                        self.cell(p.x as int, p.y as int)
                    } else {
                        TilePair::spec_blank()
                    }
                &&& forall|c: ChunkPos| #[trigger]
                    map.map.has_chunk(c) <==> TileGrid::region_meets_chunk(
                        self.target(TilePos { x: 0, y: 0 }),
                        c,
                    )
            },
    {
        let mut res = MutMap::new(seed);
        let origin = TilePos::of(0, 0);
        proof {
            assert forall|x: int, y: int| self.covers(x, y) implies #[trigger] origin.can_offset(
                x,
                y,
            ) by {
                assert(self.spec_rows()[y].len() <= i32::MAX);
            }
        }
        self.copy_into(&mut res, origin);
        Ok(res)
    }
}

} // verus!
