use vstd::prelude::*;
use crate::player::PlayerId;
use crate::resource_node::ResourceNodeId;
use crate::world::WorldPos;

verus! {

pub type UnitId = u32;

/// Where a gathering unit is in its cycle.
#[derive(Clone, Copy, Debug, PartialEq, Eq, Structural)]
pub enum GatherPhase {
    MovingToNode,
    Harvesting { ticks_remaining: u32 },
    ReturningToBase,
}

/// What a unit is doing. `cooldown` is the bit pattern of an `f32` tick count.
#[derive(Clone, Debug)]
pub enum BehaviorState {
    Idle,
    MovingTo { target: WorldPos, path: Vec<WorldPos>, path_idx: usize },
    Gathering { node: ResourceNodeId, phase: GatherPhase },
    Attacking { target: UnitId, cooldown: u32 },
    Dead,
}

/// A behavior with its waypoints as a sequence.
pub ghost enum BehaviorV {
    Idle,
    MovingTo { target: WorldPos, path: Seq<WorldPos>, path_idx: nat },
    Gathering { node: ResourceNodeId, phase: GatherPhase },
    Attacking { target: UnitId, cooldown: u32 },
    Dead,
}

impl View for BehaviorState {
    type V = BehaviorV;

    open spec fn view(&self) -> BehaviorV {
        match self {
            BehaviorState::Idle => BehaviorV::Idle,
            BehaviorState::MovingTo { target, path, path_idx } => BehaviorV::MovingTo {
                target: *target,
                path: path@,
                path_idx: *path_idx as nat,
            },
            BehaviorState::Gathering { node, phase } => BehaviorV::Gathering { node: *node, phase: *phase },
            BehaviorState::Attacking { target, cooldown } => BehaviorV::Attacking {
                target: *target,
                cooldown: *cooldown,
            },
            BehaviorState::Dead => BehaviorV::Dead,
        }
    }
}

/// A unit of the simulation. The fields `facing`, `hp`, `max_hp`, `supply`,
/// `max_supply` and `attack_cooldown` hold bit patterns of `f32` values.
#[derive(Debug)]
pub struct CUnit {
    pub id: UnitId,
    pub owner: PlayerId,
    pub pos: WorldPos,
    pub facing: u32,
    pub hp: u32,
    pub max_hp: u32,
    pub supply: u32,
    pub max_supply: u32,
    pub behavior: BehaviorState,
    pub attack_cooldown: u32,
    pub is_dead: bool,
}

/// A unit with its behavior as a [`BehaviorV`].
pub ghost struct CUnitV {
    pub id: UnitId,
    pub owner: PlayerId,
    pub pos: WorldPos,
    pub facing: u32,
    pub hp: u32,
    pub max_hp: u32,
    pub supply: u32,
    pub max_supply: u32,
    pub behavior: BehaviorV,
    pub attack_cooldown: u32,
    pub is_dead: bool,
}

impl View for CUnit {
    type V = CUnitV;

    open spec fn view(&self) -> CUnitV {
        CUnitV {
            id: self.id,
            owner: self.owner,
            pos: self.pos,
            facing: self.facing,
            hp: self.hp,
            max_hp: self.max_hp,
            supply: self.supply,
            max_supply: self.max_supply,
            behavior: self.behavior@,
            attack_cooldown: self.attack_cooldown,
            is_dead: self.is_dead,
        }
    }
}

/// The views of a sequence of units.
pub open spec fn units_view(s: Seq<CUnit>) -> Seq<CUnitV> {
    s.map_values(|u: CUnit| u@)
}

/// Bit pattern of `0.0f32`.
pub const F32_ZERO: u32 = 0x0000_0000;

/// Bit pattern of `100.0f32`, a new unit's hit points.
pub const UNIT_HP_BITS: u32 = 0x42c8_0000;

/// Bit pattern of `10.0f32`, a new unit's supply reserve.
pub const UNIT_SUPPLY_BITS: u32 = 0x4120_0000;

/// Ticks a harvest lasts (two seconds at 20 ticks per second).
pub const HARVEST_TICKS: u32 = 40;

/// Wood or stone delivered per harvest.
pub const HARVEST_AMOUNT: u32 = 10;

/// A fresh idle unit at `pos` facing angle 0, with 100 of 100 hit points
/// and 10 of 10 supply.
pub open spec fn new_unit_view(id: UnitId, owner: PlayerId, pos: WorldPos) -> CUnitV {
    CUnitV {
        id,
        owner,
        pos,
        facing: F32_ZERO,
        hp: UNIT_HP_BITS,
        max_hp: UNIT_HP_BITS,
        supply: UNIT_SUPPLY_BITS,
        max_supply: UNIT_SUPPLY_BITS,
        behavior: BehaviorV::Idle,
        attack_cooldown: F32_ZERO,
        is_dead: false,
    }
}

impl CUnit {
    /// A fresh unit, as [`new_unit_view`] describes it.
    pub fn new(id: UnitId, owner: PlayerId, pos: WorldPos) -> (u: Self)
        ensures
            u@ == new_unit_view(id, owner, pos),
    {
        CUnit {
            id,
            owner,
            pos,
            facing: F32_ZERO,
            hp: UNIT_HP_BITS,
            max_hp: UNIT_HP_BITS,
            supply: UNIT_SUPPLY_BITS,
            max_supply: UNIT_SUPPLY_BITS,
            behavior: BehaviorState::Idle,
            attack_cooldown: F32_ZERO,
            is_dead: false,
        }
    }
}


/// The waypoint a unit following a path heads for next. `reached` says its
/// last step brought it within reach of waypoint `path_idx`; then it moves
/// on to the following one, or stops (none) at the end of the path.
pub fn advance_waypoint(path_len: usize, path_idx: usize, reached: bool) -> (r: Option<usize>)
    requires
        path_idx < path_len,
    ensures
        r == if !reached {
            Some(path_idx)
        } else if path_idx + 1 >= path_len {
            None::<usize>
        } else {
            Some((path_idx + 1) as usize)
        },
{
    if !reached {
        Some(path_idx)
    } else if path_idx + 1 >= path_len {
        None
    } else {
        Some(path_idx + 1)
    }
}

/// What becomes of a gatherer that is walking to its node or back to its
/// owner's depot.
#[derive(Clone, Copy, Debug, PartialEq, Eq, Structural)]
pub enum GatherWalk {
    /// The node is gone or exhausted, or there is no depot: stand idle.
    GiveUp,
    /// Not there yet: keep walking.
    KeepWalking,
    /// Reached the node: start harvesting.
    StartHarvest,
    /// Reached the depot with the load: walk back to the node.
    HeadToNode,
}

/// The rule behind [`gather_walk`]. `returning` is true on the way back to
/// the depot and false on the way to the node; `reached` says whether this
/// tick's step brought the unit within reach of where it was walking.
pub open spec fn gather_walk_of(returning: bool, node_available: bool, has_depot: bool, reached: bool) -> GatherWalk {
    if !node_available {
        GatherWalk::GiveUp
    } else if returning && !has_depot {
        GatherWalk::GiveUp
    } else if !reached {
        GatherWalk::KeepWalking
    } else if returning {
        GatherWalk::HeadToNode
    } else {
        GatherWalk::StartHarvest
    }
}

/// Decides a walking gatherer's next phase (see [`gather_walk_of`]). The
/// unit takes a step only where the answer with `reached` false is
/// `KeepWalking`; the caller then asks again with where the step ended.
pub fn gather_walk(returning: bool, node_available: bool, has_depot: bool, reached: bool) -> (w: GatherWalk)
    ensures
        w == gather_walk_of(returning, node_available, has_depot, reached),
{
    if !node_available {
        GatherWalk::GiveUp
    } else if returning && !has_depot {
        GatherWalk::GiveUp
    } else if !reached {
        GatherWalk::KeepWalking
    } else if returning {
        GatherWalk::HeadToNode
    } else {
        GatherWalk::StartHarvest
    }
}

} // verus!
