//! The tile catalogue: tile kinds, visual skins and where each is found in
//! the sprite atlases.

use vstd::prelude::*;

verus! {

/// Width and height of one atlas cell, in pixels.
pub const TILE_DIAMETER: u32 = 64;

/// Number of cells in one row of a skin atlas.
pub const TILESET_ATLAS_WIDTH: u32 = 8;

/// Number of cells in one row of the shared miscellaneous atlas.
pub const MISC_ATLAS_WIDTH: u32 = 16;

/// Visual skin of walls, doors and skinned floors.
#[derive(Clone, Copy, Debug, PartialEq, Eq, Hash, Structural)]
pub enum Tileset {
    BrickBlue,
    BrickCyan,
    BrickGreen,
    BrickPurple,
    BrickRed,
    BrickYellow,
    Catacomb,
    Cocutos,
    Crypt,
    Gallery,
    Gehena,
    Hive,
    Lair,
    Lapis,
    Moss,
    Mucus,
    Normal,
    PandemBlue,
    PandemGreen,
    PandemPurple,
    PandemRed,
    PandemYellow,
    Rock,
    Tunnel,
}

impl Default for Tileset {
    fn default() -> (r: Self)
        ensures
            r == Tileset::BrickBlue,
    {
        Tileset::BrickBlue
    }
}

impl Tileset {
    /// The asset path of this skin's atlas, as a sequence of characters.
    pub open spec fn spec_asset_path(self) -> Seq<char> {
        match self {
            Tileset::BrickBlue => "tiles/brick_blue.png"@,
            Tileset::BrickCyan => "tiles/brick_cyan.png"@,
            Tileset::BrickGreen => "tiles/brick_green.png"@,
            Tileset::BrickPurple => "tiles/brick_purple.png"@,
            Tileset::BrickRed => "tiles/brick_red.png"@,
            Tileset::BrickYellow => "tiles/brick_yellow.png"@,
            Tileset::Catacomb => "tiles/catacomb.png"@,
            Tileset::Cocutos => "tiles/cocutos.png"@,
            Tileset::Crypt => "tiles/crypt.png"@,
            Tileset::Gallery => "tiles/gallery.png"@,
            Tileset::Gehena => "tiles/gehena.png"@,
            Tileset::Hive => "tiles/hive.png"@,
            Tileset::Lair => "tiles/lair.png"@,
            Tileset::Lapis => "tiles/lapis.png"@,
            Tileset::Moss => "tiles/moss.png"@,
            Tileset::Mucus => "tiles/mucus.png"@,
            Tileset::Normal => "tiles/normal.png"@,
            Tileset::PandemBlue => "tiles/pandem_blue.png"@,
            Tileset::PandemGreen => "tiles/pandem_green.png"@,
            Tileset::PandemPurple => "tiles/pandem_purple.png"@,
            Tileset::PandemRed => "tiles/pandem_red.png"@,
            Tileset::PandemYellow => "tiles/pandem_yellow.png"@,
            Tileset::Rock => "tiles/rock.png"@,
            Tileset::Tunnel => "tiles/tunnel.png"@,
        }
    }

    /// The asset path of this skin's atlas.
    pub fn asset_path(self) -> (path: &'static str)
        ensures
            path@ == self.spec_asset_path(),
    {
        match self {
            Tileset::BrickBlue => "tiles/brick_blue.png",
            Tileset::BrickCyan => "tiles/brick_cyan.png",
            Tileset::BrickGreen => "tiles/brick_green.png",
            Tileset::BrickPurple => "tiles/brick_purple.png",
            Tileset::BrickRed => "tiles/brick_red.png",
            Tileset::BrickYellow => "tiles/brick_yellow.png",
            Tileset::Catacomb => "tiles/catacomb.png",
            Tileset::Cocutos => "tiles/cocutos.png",
            Tileset::Crypt => "tiles/crypt.png",
            Tileset::Gallery => "tiles/gallery.png",
            Tileset::Gehena => "tiles/gehena.png",
            Tileset::Hive => "tiles/hive.png",
            Tileset::Lair => "tiles/lair.png",
            Tileset::Lapis => "tiles/lapis.png",
            Tileset::Moss => "tiles/moss.png",
            Tileset::Mucus => "tiles/mucus.png",
            Tileset::Normal => "tiles/normal.png",
            Tileset::PandemBlue => "tiles/pandem_blue.png",
            Tileset::PandemGreen => "tiles/pandem_green.png",
            Tileset::PandemPurple => "tiles/pandem_purple.png",
            Tileset::PandemRed => "tiles/pandem_red.png",
            Tileset::PandemYellow => "tiles/pandem_yellow.png",
            Tileset::Rock => "tiles/rock.png",
            Tileset::Tunnel => "tiles/tunnel.png",
        }
    }
}

/// Which sides of a wall tile are open, as drawn in a skin atlas.
#[derive(Clone, Copy, Debug, PartialEq, Eq, Hash, Structural)]
pub enum WallShape {
    Pillar,
    North,
    East,
    South,
    West,
    Northeast,
    Northwest,
    Southeast,
    Southwest,
    Eastwest,
    Northsouth,
    Solid,
    SolidNorth,
    SolidEast,
    SolidSouth,
    SolidWest,
}

impl Default for WallShape {
    fn default() -> (r: Self)
        ensures
            r == WallShape::Pillar,
    {
        WallShape::Pillar
    }
}

impl WallShape {
    /// Cell number of this shape in a skin atlas.
    pub open spec fn spec_atlas_index(self) -> u8 {
        match self {
            WallShape::Pillar => 0,
            WallShape::North => 1,
            WallShape::East => 2,
            WallShape::Northeast => 3,
            WallShape::West => 4,
            WallShape::Northwest => 5,
            WallShape::Eastwest => 6,
            WallShape::SolidNorth => 7,
            WallShape::South => 8,
            WallShape::Northsouth => 9,
            WallShape::Southeast => 10,
            WallShape::SolidEast => 11,
            WallShape::Southwest => 12,
            WallShape::SolidWest => 13,
            WallShape::SolidSouth => 14,
            WallShape::Solid => 15,
        }
    }

    /// Cell number of this shape in a skin atlas.
    pub fn atlas_index(self) -> (index: u8)
        ensures
            index == self.spec_atlas_index(),
    {
        match self {
            WallShape::Pillar => 0,
            WallShape::North => 1,
            WallShape::East => 2,
            WallShape::Northeast => 3,
            WallShape::West => 4,
            WallShape::Northwest => 5,
            WallShape::Eastwest => 6,
            WallShape::SolidNorth => 7,
            WallShape::South => 8,
            WallShape::Northsouth => 9,
            WallShape::Southeast => 10,
            WallShape::SolidEast => 11,
            WallShape::Southwest => 12,
            WallShape::SolidWest => 13,
            WallShape::SolidSouth => 14,
            WallShape::Solid => 15,
        }
    }
}

/// A single-tile feature drawn from the miscellaneous atlas.
#[derive(Clone, Copy, Debug, PartialEq, Eq, Hash, Structural)]
pub enum Landmark {
    Well,
    StatueDragon,
    StatueFace,
    StatueBronze,
    StairsMarbleTop,
    StairsMarbleBottom,
    StairsSandstoneTop,
    StairsSandstoneBottom,
    TrapArrow,
    TrapPentagram,
    TrapSkull,
    PortalLight,
    PortalDark,
    PortalRed,
    PortalBlue,
    PortalGreen,
    PortalSkulls,
    PortalStar,
    PortalArch,
    PortalDemon,
    PortalWormhole,
    PortalBlank,
    ShrinePalm,
    ShrineIdol,
    ShrineSkulls,
    ShrineGeode,
    ShrineFace,
    ShrineScroll,
    ShrineCross,
    ShrineFlame,
    ShrineLapis,
    ShrineSacrifice,
    ShrineDemon,
    ShrineUrn,
    ShrineChair,
    SpawnPlayer,
    SpawnWitch,
    SpawnWitchette,
    SpawnJester,
    SpawnRedDemon,
    SpawnYellowDemon,
    SpawnGreenDemon,
    SpawnBlueDemon,
    SpawnWingedDemon,
    Cursor,
    ExplosionRed,
    ExplosionBlue,
    ExplosionGreen,
    ExplosionSmokeLight,
    ExplosionSmokeDark,
}

impl Default for Landmark {
    fn default() -> (r: Self)
        ensures
            r == Landmark::Well,
    {
        Landmark::Well
    }
}

impl Landmark {
    /// Cell number of this landmark in the miscellaneous atlas.
    pub open spec fn spec_atlas_index(self) -> u8 {
        match self {
            Landmark::Well => 67,
            Landmark::StatueDragon => 68,
            Landmark::StatueFace => 69,
            Landmark::StatueBronze => 70,
            Landmark::StairsMarbleTop => 81,
            Landmark::StairsMarbleBottom => 85,
            Landmark::StairsSandstoneTop => 89,
            Landmark::StairsSandstoneBottom => 90,
            Landmark::TrapArrow => 78,
            Landmark::TrapPentagram => 79,
            Landmark::TrapSkull => 80,
            Landmark::PortalLight => 91,
            Landmark::PortalDark => 92,
            Landmark::PortalRed => 93,
            Landmark::PortalBlue => 94,
            Landmark::PortalGreen => 95,
            Landmark::PortalSkulls => 96,
            Landmark::PortalStar => 97,
            Landmark::PortalArch => 98,
            Landmark::PortalDemon => 99,
            Landmark::PortalWormhole => 101,
            Landmark::PortalBlank => 102,
            Landmark::ShrinePalm => 103,
            Landmark::ShrineIdol => 104,
            Landmark::ShrineSkulls => 105,
            Landmark::ShrineGeode => 106,
            Landmark::ShrineFace => 107,
            Landmark::ShrineScroll => 108,
            Landmark::ShrineCross => 109,
            Landmark::ShrineFlame => 110,
            Landmark::ShrineLapis => 111,
            Landmark::ShrineSacrifice => 112,
            Landmark::ShrineDemon => 113,
            Landmark::ShrineUrn => 114,
            Landmark::ShrineChair => 115,
            Landmark::SpawnPlayer => 116,
            Landmark::SpawnWitch => 119,
            Landmark::SpawnWitchette => 120,
            Landmark::SpawnJester => 124,
            Landmark::SpawnRedDemon => 125,
            Landmark::SpawnYellowDemon => 127,
            Landmark::SpawnGreenDemon => 130,
            Landmark::SpawnBlueDemon => 131,
            Landmark::SpawnWingedDemon => 132,
            Landmark::Cursor => 165,
            Landmark::ExplosionRed => 168,
            Landmark::ExplosionBlue => 171,
            Landmark::ExplosionGreen => 174,
            Landmark::ExplosionSmokeLight => 179,
            Landmark::ExplosionSmokeDark => 180,
        }
    }

    /// Cell number of this landmark in the miscellaneous atlas.
    pub fn atlas_index(self) -> (index: u8)
        ensures
            index == self.spec_atlas_index(),
    {
        match self {
            Landmark::Well => 67,
            Landmark::StatueDragon => 68,
            Landmark::StatueFace => 69,
            Landmark::StatueBronze => 70,
            Landmark::StairsMarbleTop => 81,
            Landmark::StairsMarbleBottom => 85,
            Landmark::StairsSandstoneTop => 89,
            Landmark::StairsSandstoneBottom => 90,
            Landmark::TrapArrow => 78,
            Landmark::TrapPentagram => 79,
            Landmark::TrapSkull => 80,
            Landmark::PortalLight => 91,
            Landmark::PortalDark => 92,
            Landmark::PortalRed => 93,
            Landmark::PortalBlue => 94,
            Landmark::PortalGreen => 95,
            Landmark::PortalSkulls => 96,
            Landmark::PortalStar => 97,
            Landmark::PortalArch => 98,
            Landmark::PortalDemon => 99,
            Landmark::PortalWormhole => 101,
            Landmark::PortalBlank => 102,
            Landmark::ShrinePalm => 103,
            Landmark::ShrineIdol => 104,
            Landmark::ShrineSkulls => 105,
            Landmark::ShrineGeode => 106,
            Landmark::ShrineFace => 107,
            Landmark::ShrineScroll => 108,
            Landmark::ShrineCross => 109,
            Landmark::ShrineFlame => 110,
            Landmark::ShrineLapis => 111,
            Landmark::ShrineSacrifice => 112,
            Landmark::ShrineDemon => 113,
            Landmark::ShrineUrn => 114,
            Landmark::ShrineChair => 115,
            Landmark::SpawnPlayer => 116,
            Landmark::SpawnWitch => 119,
            Landmark::SpawnWitchette => 120,
            Landmark::SpawnJester => 124,
            Landmark::SpawnRedDemon => 125,
            Landmark::SpawnYellowDemon => 127,
            Landmark::SpawnGreenDemon => 130,
            Landmark::SpawnBlueDemon => 131,
            Landmark::SpawnWingedDemon => 132,
            Landmark::Cursor => 165,
            Landmark::ExplosionRed => 168,
            Landmark::ExplosionBlue => 171,
            Landmark::ExplosionGreen => 174,
            Landmark::ExplosionSmokeLight => 179,
            Landmark::ExplosionSmokeDark => 180,
        }
    }
}

/// What a floor is paved with: the skin's own floor, or a fixed cell of the
/// miscellaneous atlas.
#[derive(Clone, Copy, Debug, PartialEq, Eq, Hash, Structural)]
pub enum FloorType {
    Tileset,
    Black,
    LavaRed,
    LavaBlue,
    LavaCyan,
    Slab,
}

impl Default for FloorType {
    fn default() -> (r: Self)
        ensures
            r == FloorType::Tileset,
    {
        FloorType::Tileset
    }
}

impl FloorType {
    /// Cell number of this floor: in the skin atlas for `Tileset`, in the
    /// miscellaneous atlas for the others.
    pub open spec fn spec_atlas_index(self) -> u8 {
        match self {
            FloorType::Tileset => 20,
            FloorType::Black => 0,
            FloorType::LavaRed => 71,
            FloorType::LavaBlue => 72,
            FloorType::LavaCyan => 73,
            FloorType::Slab => 74,
        }
    }

    /// Cell number of this floor in its atlas.
    pub fn atlas_index(self) -> (index: u8)
        ensures
            index == self.spec_atlas_index(),
    {
        match self {
            FloorType::Tileset => 20,
            FloorType::Black => 0,
            FloorType::LavaRed => 71,
            FloorType::LavaBlue => 72,
            FloorType::LavaCyan => 73,
            FloorType::Slab => 74,
        }
    }
}

/// The closed set of tile kinds.
#[derive(Clone, Copy, Debug, PartialEq, Eq, Hash, Structural)]
pub enum TileType {
    Empty,
    Floor(FloorType),
    Wall(WallShape),
    DoorNS { open: bool },
    DoorEW { open: bool },
    Landmark { ty: Landmark, flip: bool },
}

impl Default for TileType {
    fn default() -> (r: Self)
        ensures
            r == TileType::Empty,
    {
        TileType::Empty
    }
}

impl TileType {
    /// Whether this kind is drawn from the miscellaneous atlas instead of a
    /// skin atlas.
    pub open spec fn uses_misc_atlas(self) -> bool {
        match self {
            TileType::Floor(floor) => floor != FloorType::Tileset,
            TileType::Landmark { .. } => true,
            _ => false,
        }
    }

    /// Cell number of this kind in its atlas. Open doors sit two cells after
    /// closed ones.
    pub open spec fn spec_atlas_index(self) -> int {
        match self {
            TileType::Empty => 0,
            TileType::Floor(floor) => floor.spec_atlas_index() as int,
            TileType::Wall(shape) => shape.spec_atlas_index() as int,
            TileType::DoorNS { open } => if open { 19 } else { 17 },
            TileType::DoorEW { open } => if open { 18 } else { 16 },
            TileType::Landmark { ty, .. } => ty.spec_atlas_index() as int,
        }
    }

    /// Whether this kind is drawn mirrored.
    pub open spec fn spec_flipped(self) -> bool {
        match self {
            TileType::Landmark { flip, .. } => flip,
            _ => false,
        }
    }

    /// Whether this is a door of either orientation.
    pub open spec fn spec_is_door(self) -> bool {
        self is DoorNS || self is DoorEW
    }

    /// Whether this is a door that stands open.
    pub open spec fn spec_is_open(self) -> bool {
        match self {
            TileType::DoorNS { open } => open,
            TileType::DoorEW { open } => open,
            _ => false,
        }
    }

    /// The same door in the other state; any other kind unchanged.
    pub open spec fn spec_toggled(self) -> TileType {
        match self {
            TileType::DoorNS { open } => TileType::DoorNS { open: !open },
            TileType::DoorEW { open } => TileType::DoorEW { open: !open },
            other => other,
        }
    }

    /// Whether this is a door of either orientation.
    pub fn is_door(&self) -> (r: bool)
        ensures
            r == self.spec_is_door(),
    {
        match self {
            TileType::DoorNS { .. } => true,
            TileType::DoorEW { .. } => true,
            _ => false,
        }
    }

    /// Whether this is a door that stands open.
    pub fn is_open(&self) -> (r: bool)
        ensures
            r == self.spec_is_open(),
    {
        match self {
            TileType::DoorNS { open } => *open,
            TileType::DoorEW { open } => *open,
            _ => false,
        }
    }

    /// Opens a closed door and closes an open one.
    pub fn toggle(&mut self)
        requires
            old(self).spec_is_door(),
        ensures
            *final(self) == old(self).spec_toggled(),
    {
        let next = match *self {
            TileType::DoorNS { open } => TileType::DoorNS { open: !open },
            TileType::DoorEW { open } => TileType::DoorEW { open: !open },
            other => other,
        };
        *self = next;
    }
}

/// One rendering unit: a kind and the skin it is drawn with.
#[derive(Clone, Copy, Debug, PartialEq, Eq, Hash, Structural)]
pub struct Tile {
    pub ty: TileType,
    pub tileset: Tileset,
}

impl Default for Tile {
    fn default() -> (r: Self)
        ensures
            r == (Tile { ty: TileType::Empty, tileset: Tileset::BrickBlue }),
    {
        Tile { ty: TileType::Empty, tileset: Tileset::BrickBlue }
    }
}

/// A pixel rectangle inside an atlas image: `min` inclusive, `max` exclusive.
#[derive(Clone, Copy, Debug, PartialEq, Eq, Hash, Structural)]
pub struct AtlasRect {
    pub min_x: u32,
    pub min_y: u32,
    pub max_x: u32,
    pub max_y: u32,
}

impl Tile {
    pub open spec fn spec_is_empty(&self) -> bool {
        self.ty is Empty
    }

    /// Path of the atlas image that this tile is drawn from.
    pub open spec fn spec_texture_path(&self) -> Seq<char> {
        if self.ty.uses_misc_atlas() {
            "tiles/misc.png"@
        } else {
            self.tileset.spec_asset_path()
        }
    }

    /// Number of cells in one row of the atlas that this tile is drawn from.
    pub open spec fn spec_atlas_width(&self) -> int {
        if self.ty.uses_misc_atlas() {
            MISC_ATLAS_WIDTH as int
        } else {
            TILESET_ATLAS_WIDTH as int
        }
    }

    /// The pixel rectangle of this tile in its atlas: cells are numbered row
    /// by row and each is `TILE_DIAMETER` pixels wide and high.
    pub open spec fn spec_atlas_rect(&self) -> AtlasRect {
        let index = self.ty.spec_atlas_index();
        let width = self.spec_atlas_width();
        let x = (index % width) * TILE_DIAMETER;
        let y = (index / width) * TILE_DIAMETER;
        AtlasRect {
            min_x: x as u32,
            min_y: y as u32,
            max_x: (x + TILE_DIAMETER) as u32,
            max_y: (y + TILE_DIAMETER) as u32,
        }
    }

    pub fn is_empty(&self) -> (r: bool)
        ensures
            r == self.spec_is_empty(),
    {
        match self.ty {
            TileType::Empty => true,
            _ => false,
        }
    }

    /// Where this tile is found: the atlas image, the pixel rectangle in it,
    /// and whether it is drawn mirrored. Empty tiles are never drawn.
    pub fn texture_info(&self) -> (info: (&'static str, AtlasRect, bool))
        requires
            !self.spec_is_empty(),
        ensures
            info.0@ == self.spec_texture_path(),
            info.1 == self.spec_atlas_rect(),
            info.2 == self.ty.spec_flipped(),
    {
        let misc: bool = match self.ty {
            TileType::Floor(floor) => match floor {
                FloorType::Tileset => false,
                _ => true,
            },
            TileType::Landmark { .. } => true,
            _ => false,
        };
        let flip: bool = match self.ty {
            TileType::Landmark { flip, .. } => flip,
            _ => false,
        };
        let index: u32 = match self.ty {
            TileType::Empty => 0,
            TileType::Floor(floor) => floor.atlas_index() as u32,
            TileType::Wall(shape) => shape.atlas_index() as u32,
            TileType::DoorNS { open } => if open { 19 } else { 17 },
            TileType::DoorEW { open } => if open { 18 } else { 16 },
            TileType::Landmark { ty, .. } => ty.atlas_index() as u32,
        };
        let width: u32 = if misc { MISC_ATLAS_WIDTH } else { TILESET_ATLAS_WIDTH };
        let x: u32 = (index % width) * TILE_DIAMETER;
        let y: u32 = (index / width) * TILE_DIAMETER;
        let path: &'static str = if misc { "tiles/misc.png" } else { self.tileset.asset_path() };
        let rect = AtlasRect {
            min_x: x,
            min_y: y,
            max_x: x + TILE_DIAMETER,
            max_y: y + TILE_DIAMETER,
        };
        (path, rect, flip)
    }
}

/// One cell of the grid: a foreground layer for walls, doors and landmarks
/// over a background layer for the floor.
#[derive(Clone, Copy, Debug, PartialEq, Eq, Hash, Structural)]
pub struct TilePair {
    pub foreground: Tile,
    pub background: Tile,
    /// Whether the foreground has been handed over to a dynamic entity.
    pub plucked: bool,
}

impl Default for TilePair {
    fn default() -> (r: Self)
        ensures
            r == (TilePair {
                foreground: Tile { ty: TileType::Empty, tileset: Tileset::BrickBlue },
                background: Tile { ty: TileType::Empty, tileset: Tileset::BrickBlue },
                plucked: false,
            }),
    {
        TilePair { foreground: Tile::default(), background: Tile::default(), plucked: false }
    }
}

impl TilePair {
    /// The cell that every fresh chunk is filled with.
    pub open spec fn spec_blank() -> TilePair {
        TilePair {
            foreground: Tile { ty: TileType::Empty, tileset: Tileset::Normal },
            background: Tile { ty: TileType::Empty, tileset: Tileset::Normal },
            plucked: false,
        }
    }

    pub open spec fn spec_is_empty(&self) -> bool {
        self.foreground.ty is Empty && self.background.ty is Empty
    }

    pub open spec fn spec_is_wall(&self) -> bool {
        self.foreground.ty is Wall
    }

    pub open spec fn spec_is_floor(&self) -> bool {
        self.foreground.ty is Empty && self.background.ty is Floor
    }

    pub open spec fn spec_is_door(&self) -> bool {
        self.foreground.ty.spec_is_door()
    }

    pub open spec fn spec_is_landmark(&self) -> bool {
        self.foreground.ty is Landmark
    }

    /// Whether the layers hold what they are for: no floor in the
    /// foreground, and a floor behind every foreground that is not empty.
    pub open spec fn layers_in_order(&self) -> bool {
        !(self.foreground.ty is Floor) && (!(self.foreground.ty is Empty)
            ==> self.background.ty is Floor)
    }

    /// The cell after `tile` was given a custom floor: `tile` in front, a
    /// floor of type `floor` in `tile`'s skin behind it.
    pub open spec fn with_floor(self, tile: Tile, floor: FloorType) -> TilePair {
        TilePair {
            foreground: tile,
            background: Tile { ty: TileType::Floor(floor), tileset: tile.tileset },
            plucked: self.plucked,
        }
    }

    /// The cell after `tile` was set: a floor replaces the background and
    /// empties the foreground; anything else becomes the foreground over the
    /// skin's own floor.
    pub open spec fn after_set(self, tile: Tile) -> TilePair {
        if tile.ty is Floor {
            TilePair {
                foreground: Tile { ty: TileType::Empty, tileset: self.foreground.tileset },
                background: tile,
                plucked: self.plucked,
            }
        } else {
            self.with_floor(tile, FloorType::Tileset)
        }
    }

    /// The cell with both layers emptied.
    pub open spec fn cleared(self) -> TilePair {
        TilePair {
            foreground: Tile { ty: TileType::Empty, tileset: self.foreground.tileset },
            background: Tile { ty: TileType::Empty, tileset: self.background.tileset },
            plucked: self.plucked,
        }
    }

    /// The cell with its plucked mark set.
    pub open spec fn spec_plucked(self) -> TilePair {
        TilePair { foreground: self.foreground, background: self.background, plucked: true }
    }

    /// The foreground as it is drawn: nothing for an empty or plucked one.
    pub open spec fn spec_rendered_foreground(&self) -> Option<Tile> {
        if self.plucked || self.foreground.ty is Empty {
            None
        } else {
            Some(self.foreground)
        }
    }

    /// The background as it is drawn: nothing for an empty one.
    pub open spec fn spec_rendered_background(&self) -> Option<Tile> {
        if self.background.ty is Empty {
            None
        } else {
            Some(self.background)
        }
    }

    /// A cell with nothing in either layer, as fresh chunks hold it.
    pub fn blank() -> (r: Self)
        ensures
            r == Self::spec_blank(),
    {
        let empty = Tile { ty: TileType::Empty, tileset: Tileset::Normal };
        TilePair { foreground: empty, background: empty, plucked: false }
    }

    pub fn is_empty(&self) -> (r: bool)
        ensures
            r == self.spec_is_empty(),
    {
        self.foreground.is_empty() && self.background.is_empty()
    }

    pub fn is_wall(&self) -> (r: bool)
        ensures
            r == self.spec_is_wall(),
    {
        match self.foreground.ty {
            TileType::Wall(_) => true,
            _ => false,
        }
    }

    pub fn is_floor(&self) -> (r: bool)
        ensures
            r == self.spec_is_floor(),
    {
        let floored: bool = match self.background.ty {
            TileType::Floor(_) => true,
            _ => false,
        };
        self.foreground.is_empty() && floored
    }

    pub fn is_door(&self) -> (r: bool)
        ensures
            r == self.spec_is_door(),
    {
        self.foreground.ty.is_door()
    }

    pub fn is_landmark(&self) -> (r: bool)
        ensures
            r == self.spec_is_landmark(),
    {
        match self.foreground.ty {
            TileType::Landmark { .. } => true,
            _ => false,
        }
    }

    /// Sets the foreground or the background, depending on the kind of
    /// `tile`. A floor empties the foreground; anything else is put over the
    /// skin's own floor, whatever floor was there before.
    pub fn set(&mut self, tile: Tile)
        ensures
            *final(self) == old(self).after_set(tile),
            tile.ty is Floor ==> final(self).foreground.ty is Empty && final(self).background
                == tile,
            !(tile.ty is Floor) ==> final(self).foreground == tile && final(self).background == (
            Tile { ty: TileType::Floor(FloorType::Tileset), tileset: tile.tileset }),
            final(self).plucked == old(self).plucked,
            final(self).layers_in_order(),
    {
        let is_floor: bool = match tile.ty {
            TileType::Floor(_) => true,
            _ => false,
        };
        if is_floor {
            self.foreground.ty = TileType::Empty;
            self.background = tile;
        } else {
            self.set_with_floor(tile, FloorType::Tileset);
        }
    }

    /// Sets a tile that is no floor as the foreground, over a floor of the
    /// given type in the same skin.
    pub fn set_with_floor(&mut self, tile: Tile, floor: FloorType)
        requires
            !(tile.ty is Floor),
        ensures
            *final(self) == old(self).with_floor(tile, floor),
            final(self).layers_in_order(),
    {
        self.foreground = tile;
        self.background = Tile { ty: TileType::Floor(floor), tileset: tile.tileset };
    }

    /// Empties both layers. The skins and the plucked mark stay.
    pub fn clear(&mut self)
        ensures
            *final(self) == old(self).cleared(),
            final(self).spec_is_empty(),
            final(self).layers_in_order(),
    {
        self.foreground.ty = TileType::Empty;
        self.background.ty = TileType::Empty;
    }

    /// The layers to draw, foreground first. A plucked cell draws no
    /// foreground, whatever kind is stored there: its dynamic entity does.
    pub fn rendered_layers(&self) -> (layers: (Option<Tile>, Option<Tile>))
        ensures
            layers.0 == self.spec_rendered_foreground(),
            layers.1 == self.spec_rendered_background(),
            self.plucked ==> layers.0 is None,
    {
        let foreground = if self.plucked || self.foreground.is_empty() {
            None
        } else {
            Some(self.foreground)
        };
        let background = if self.background.is_empty() {
            None
        } else {
            Some(self.background)
        };
        (foreground, background)
    }
}

} // verus!
