use vstd::prelude::*;
use crate::world::WorldPos;

verus! {

pub type ResourceNodeId = u32;

/// What a resource node yields.
#[derive(Clone, Copy, Debug, PartialEq, Eq, Structural)]
pub enum ResourceKind {
    Wood,
    Stone,
}

/// A harvestable deposit on the map.
#[derive(Clone, Copy, Debug)]
pub struct CResourceNode {
    pub id: ResourceNodeId,
    pub kind: ResourceKind,
    pub pos: WorldPos,
    pub amount: u32,
    pub max_amount: u32,
}

/// The smaller of two amounts.
pub open spec fn min_u32(a: u32, b: u32) -> u32 {
    if a <= b { a } else { b }
}

impl CResourceNode {
    /// A full node: its capacity is the amount it starts with.
    pub fn new(id: ResourceNodeId, kind: ResourceKind, pos: WorldPos, amount: u32) -> (n: Self)
        ensures
            n.id == id,
            n.kind == kind,
            n.pos == pos,
            n.amount == amount,
            n.max_amount == amount,
    {
        CResourceNode { id, kind, pos, amount, max_amount: amount }
    }

    /// Takes up to `quantity` from the node and returns what was taken: all
    /// of it when the node holds enough, else everything that is left.
    pub fn harvest(&mut self, quantity: u32) -> (taken: u32)
        ensures
            taken == min_u32(quantity, old(self).amount),
            final(self).amount == old(self).amount - taken,
            final(self).id == old(self).id,
            final(self).kind == old(self).kind,
            final(self).pos == old(self).pos,
            final(self).max_amount == old(self).max_amount,
    {
        let taken = if quantity <= self.amount { quantity } else { self.amount };
        self.amount = self.amount - taken;
        taken
    }

    /// Whether nothing is left to harvest.
    pub fn is_depleted(&self) -> (r: bool)
        ensures
            r == (self.amount == 0),
    {
        self.amount == 0
    }
}

/// What a harvest takes and what the node keeps always add up to what the
/// node held: nothing is created or lost.
pub proof fn lemma_harvest_conserves(amount: u32, quantity: u32)
    ensures
        min_u32(quantity, amount) + (amount - min_u32(quantity, amount)) == amount,
        min_u32(quantity, amount) <= quantity,
        min_u32(quantity, amount) < quantity ==> amount - min_u32(quantity, amount) == 0,
{
}

} // verus!
