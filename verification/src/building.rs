use vstd::prelude::*;
use crate::world::WorldPos;

verus! {

/// The three tiers of the main base building.
#[derive(Clone, Copy, Debug, PartialEq, Eq, Structural)]
pub enum BuildingKind {
    TownHall,
    Keep,
    Castle,
}

/// The stable numeric code of each building tier (its on-disk tag).
pub open spec fn building_code(kind: BuildingKind) -> u8 {
    match kind {
        BuildingKind::TownHall => 1,
        BuildingKind::Keep => 2,
        BuildingKind::Castle => 3,
    }
}

impl BuildingKind {
    /// Numeric tag of the tier: town hall 1, keep 2, castle 3.
    pub fn code(self) -> (c: u8)
        ensures
            c == building_code(self),
    {
        match self {
            BuildingKind::TownHall => 1,
            BuildingKind::Keep => 2,
            BuildingKind::Castle => 3,
        }
    }
}

/// A placed building: its tier, where it stands, and its rotation about the
/// vertical axis in radians, held as the bit pattern of an `f32`.
#[derive(Clone, Copy, Debug)]
pub struct CBuilding {
    pub kind: BuildingKind,
    pub pos: WorldPos,
    pub rotation: u32,
}

impl CBuilding {
    /// A building of tier `kind` at `pos`, turned by `rotation`.
    pub fn new(kind: BuildingKind, pos: WorldPos, rotation: u32) -> (b: Self)
        ensures
            b.kind == kind,
            b.pos == pos,
            b.rotation == rotation,
    {
        CBuilding { kind, pos, rotation }
    }
}

/// Distinct tiers have distinct codes, and every code lies in `1..=3`.
pub proof fn lemma_building_code_injective(a: BuildingKind, b: BuildingKind)
    ensures
        building_code(a) == building_code(b) <==> a == b,
        1 <= building_code(a) <= 3,
{
}

} // verus!
