//! What the dynamic entities that take over plucked tiles are told by the
//! tile they take over.

use crate::tile::{Landmark, TilePair, TileType, WallShape};
use vstd::prelude::*;

verus! {

/// What a shrine does to the player who uses it.
#[derive(Clone, Copy, Debug, PartialEq, Eq, Structural)]
pub enum ShrineType {
    Heal,
    Damage,
    Blink,
}

impl ShrineType {
    /// Whether the landmark is a shrine that does something.
    pub open spec fn spec_is_shrine(landmark: Landmark) -> bool {
        landmark == Landmark::ShrineIdol || landmark == Landmark::ShrineSkulls || landmark
            == Landmark::ShrineScroll
    }

    /// What the shrine with the given landmark does: the idol heals, the
    /// skulls damage, the scroll blinks.
    pub open spec fn spec_from(landmark: Landmark) -> ShrineType {
        match landmark {
            Landmark::ShrineIdol => ShrineType::Heal,
            Landmark::ShrineSkulls => ShrineType::Damage,
            _ => ShrineType::Blink,
        }
    }

    /// Whether the landmark is a shrine that does something.
    pub fn is_shrine(landmark: Landmark) -> (r: bool)
        ensures
            r == Self::spec_is_shrine(landmark),
    {
        match landmark {
            Landmark::ShrineIdol => true,
            Landmark::ShrineSkulls => true,
            Landmark::ShrineScroll => true,
            _ => false,
        }
    }

    /// What the shrine with the given landmark does.
    pub fn from(landmark: Landmark) -> (r: Self)
        requires
            Self::spec_is_shrine(landmark),
        ensures
            r == Self::spec_from(landmark),
    {
        match landmark {
            Landmark::ShrineIdol => ShrineType::Heal,
            Landmark::ShrineSkulls => ShrineType::Damage,
            _ => ShrineType::Blink,
        }
    }
}

/// Whether the cell holds a shrine that does something: the cells that the
/// shrine entities pluck.
pub fn holds_shrine(cell: &TilePair) -> (r: bool)
    ensures
        r == (cell.foreground.ty matches TileType::Landmark { ty, .. }
            && ShrineType::spec_is_shrine(ty)),
{
    match cell.foreground.ty {
        TileType::Landmark { ty, .. } => ShrineType::is_shrine(ty),
        _ => false,
    }
}

/// Whether the cell holds a spawn point of the player: the cells that the
/// player entity plucks.
pub fn holds_player_spawn(cell: &TilePair) -> (r: bool)
    ensures
        r == (cell.foreground.ty matches TileType::Landmark { ty, .. } && ty
            == Landmark::SpawnPlayer),
{
    match cell.foreground.ty {
        TileType::Landmark { ty, .. } => match ty {
            Landmark::SpawnPlayer => true,
            _ => false,
        },
        _ => false,
    }
}

/// The wall shape whose outline a door entity collides with: that of the
/// wall which the door continues.
pub fn door_shape(door: TileType) -> (shape: WallShape)
    requires
        door.spec_is_door(),
    ensures
        shape == if door is DoorNS {
            WallShape::Northsouth
        } else {
            WallShape::Eastwest
        },
{
    match door {
        TileType::DoorNS { .. } => WallShape::Northsouth,
        _ => WallShape::Eastwest,
    }
}

} // verus!
