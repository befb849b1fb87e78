use vstd::prelude::*;
use crate::world::WorldPos;

verus! {

pub type PlayerId = u8;

/// A player's stockpile and supply depot.
#[derive(Clone, Copy, Debug)]
pub struct CPlayer {
    pub id: PlayerId,
    pub wood: u32,
    pub stone: u32,
    /// Food produced by structures; consumed by units.
    pub food: u32,
    /// Where the player's supply depot stands, if it has one.
    pub supply_depot: Option<WorldPos>,
}

/// Wood a player starts with.
pub const STARTING_WOOD: u32 = 100;

/// Food a player starts with.
pub const STARTING_FOOD: u32 = 10;

impl CPlayer {
    /// A new player: 100 wood, no stone, 10 food and no depot yet.
    pub fn new(id: PlayerId) -> (p: Self)
        ensures
            p.id == id,
            p.wood == STARTING_WOOD,
            p.stone == 0,
            p.food == STARTING_FOOD,
            p.supply_depot is None,
    {
        CPlayer { id, wood: STARTING_WOOD, stone: 0, food: STARTING_FOOD, supply_depot: None }
    }
}

} // verus!
