use vstd::prelude::*;
use crate::player::PlayerId;
use crate::resource_node::ResourceNodeId;
use crate::unit::UnitId;
use crate::world::WorldPos;

verus! {

/// A command a player gives one unit.
#[derive(Clone, Copy, Debug, PartialEq, Eq, Structural)]
pub enum Order {
    Stop,
    Move { target: WorldPos },
    Gather { node: ResourceNodeId },
    Attack { target: UnitId },
    AttackMove { target: WorldPos },
}

/// One recorded input event, kept for deterministic replay.
#[derive(Clone, Copy, Debug, PartialEq, Eq, Structural)]
pub struct InputEntry {
    pub tick: u64,
    pub player: PlayerId,
    pub unit: UnitId,
    pub order: Order,
}

} // verus!
