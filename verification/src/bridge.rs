use vstd::prelude::*;
use crate::orders::Order;
use crate::resource_node::{CResourceNode, ResourceKind, ResourceNodeId};
use crate::simulation::{CSimulation, find_node, is_alive, node_is};
use crate::lookup::{lemma_first_index_at, lemma_first_index_none};
use crate::unit::{CUnitV, UnitId, units_view};
use crate::world::WorldPos;

verus! {

/// The simulation as the editor front end drives it: orders and queries by
/// plain ids, before and after the simulation has been created.
pub struct SimBridge {
    sim: Option<CSimulation>,
}

/// Ids of the living units, in order, as the front end's integers.
pub open spec fn living_ids(units: Seq<CUnitV>) -> Seq<i64> {
    units.filter(|u: CUnitV| is_alive(u)).map_values(|u: CUnitV| u.id as i64)
}

/// The front end's code of a resource kind: wood 1, stone 2.
pub open spec fn kind_code(k: ResourceKind) -> i64 {
    match k {
        ResourceKind::Wood => 1,
        ResourceKind::Stone => 2,
    }
}

pub open spec fn not_depleted(n: CResourceNode) -> bool {
    n.amount != 0
}

/// Kinds of the nodes that still hold something, in order.
pub open spec fn available_kinds(nodes: Seq<CResourceNode>) -> Seq<i64> {
    nodes.filter(|n: CResourceNode| not_depleted(n)).map_values(|n: CResourceNode| kind_code(n.kind))
}

/// `t` is `s` after unit `unit_id` was given `order`: the order is queued
/// and logged with the tick and the unit's owner, and nothing else changes.
pub open spec fn after_issue(s: CSimulation, t: CSimulation, unit_id: UnitId, order: Order) -> bool {
    &&& t.input_log@ == s.input_log@.push(
        crate::orders::InputEntry { tick: s.tick, player: crate::simulation::owner_of(s.units@, unit_id), unit: unit_id, order },
    )
    &&& t.pending_orders@ == s.pending_orders@.push((unit_id, order))
    &&& t.units@ == s.units@
    &&& t.resource_nodes@ == s.resource_nodes@
    &&& t.players@ == s.players@
    &&& t.gaia@ == s.gaia@
    &&& t.tick == s.tick
    &&& t.next_unit_id == s.next_unit_id
    &&& t.next_node_id == s.next_node_id
    &&& t.next_gaia_id == s.next_gaia_id
    &&& crate::simulation::same_setup(t, s)
}

impl SimBridge {
    /// The simulation, once created.
    pub closed spec fn simulation(&self) -> Option<CSimulation> {
        self.sim
    }

    /// A bridge with no simulation yet.
    pub fn init() -> (r: Self)
        ensures
            r.simulation() is None,
    {
        SimBridge { sim: None }
    }

    /// Puts the simulation in place.
    pub fn set_simulation(&mut self, sim: CSimulation)
        ensures
            final(self).simulation() == Some(sim),
    {
        self.sim = Some(sim);
    }

    /// The simulation to advance or save, if created.
    pub fn simulation_mut(&mut self) -> (r: &mut Option<CSimulation>)
        ensures
            *r == old(self).simulation(),
            final(self).simulation() == *final(r),
    {
        &mut self.sim
    }

    /// The simulation to read, if created.
    pub fn simulation_ref(&self) -> (r: &Option<CSimulation>)
        ensures
            *r == self.simulation(),
    {
        &self.sim
    }

    fn issue(&mut self, unit_id: UnitId, order: Order)
        ensures
            match old(self).simulation() {
                None => final(self).simulation() is None,
                Some(s) => final(self).simulation() matches Some(t) && after_issue(s, t, unit_id, order),
            },
    {
        match &mut self.sim {
            Some(sim) => {
                sim.issue_order(unit_id, order);
            },
            None => {},
        }
    }

    /// Orders unit `unit_id` to move to `target`.
    pub fn issue_move_order(&mut self, unit_id: UnitId, target: WorldPos)
        ensures
            match old(self).simulation() {
                None => final(self).simulation() is None,
                Some(s) => final(self).simulation() matches Some(t) && after_issue(s, t, unit_id, Order::Move { target }),
            },
    {
        self.issue(unit_id, Order::Move { target });
    }

    /// Orders unit `unit_id` to gather from node `node_id`.
    pub fn issue_gather_order(&mut self, unit_id: UnitId, node_id: ResourceNodeId)
        ensures
            match old(self).simulation() {
                None => final(self).simulation() is None,
                Some(s) => final(self).simulation() matches Some(t) && after_issue(s, t, unit_id, Order::Gather { node: node_id }),
            },
    {
        self.issue(unit_id, Order::Gather { node: node_id });
    }

    /// Orders unit `attacker` to attack unit `target`.
    pub fn issue_attack_order(&mut self, attacker: UnitId, target: UnitId)
        ensures
            match old(self).simulation() {
                None => final(self).simulation() is None,
                Some(s) => final(self).simulation() matches Some(t) && after_issue(s, t, attacker, Order::Attack { target }),
            },
    {
        self.issue(attacker, Order::Attack { target });
    }

    /// Ids of the living units, in order; none without a simulation.
    pub fn get_unit_ids(&self) -> (r: Vec<i64>)
        ensures
            r@ == match self.simulation() {
                Some(s) => living_ids(units_view(s.units@)),
                None => Seq::<i64>::empty(),
            },
    {
        let mut out: Vec<i64> = Vec::new();
        match &self.sim {
            None => {},
            Some(sim) => {
                let ghost v = units_view(sim.units@);
                let ghost alive = |u: CUnitV| is_alive(u);
                let ghost id_of = |u: CUnitV| u.id as i64;
                let mut i: usize = 0;
                proof {
                    reveal(Seq::filter);
                    assert(v.take(0) =~= seq![]);
                    assert(out@ =~= v.take(0).filter(alive).map_values(id_of));
                }
                while i < sim.units.len()
                    invariant
                        v == units_view(sim.units@),
                        alive == (|u: CUnitV| is_alive(u)),
                        id_of == (|u: CUnitV| u.id as i64),
                        i <= sim.units@.len(),
                        out@ == v.take(i as int).filter(alive).map_values(id_of),
                    decreases sim.units@.len() - i,
                {
                    proof {
                        assert(v.take(i + 1).drop_last() =~= v.take(i as int));
                        reveal(Seq::filter);
                    }
                    if !sim.units[i].is_dead {
                        let ghost before = out@;
                        out.push(sim.units[i].id as i64);
                        proof {
                            assert(out@ =~= v.take(i + 1).filter(alive).map_values(id_of));
                        }
                    } else {
                        proof {
                            assert(out@ =~= v.take(i + 1).filter(alive).map_values(id_of));
                        }
                    }
                    i = i + 1;
                }
                proof {
                    assert(v.take(v.len() as int) =~= v);
                }
            },
        }
        out
    }

    /// Number of living units; 0 without a simulation.
    pub fn get_unit_count(&self) -> (r: i64)
        ensures
            r == match self.simulation() {
                Some(s) => living_ids(units_view(s.units@)).len() as i64,
                None => 0,
            },
    {
        let ids = self.get_unit_ids();
        ids.len() as i64
    }

    /// Wood of the player at index 0; 0 without one.
    pub fn get_wood(&self) -> (r: u32)
        ensures
            r == match self.simulation() {
                Some(s) => if s.players@.len() > 0 {
                    s.players@[0].wood
                } else {
                    0
                },
                None => 0,
            },
    {
        match &self.sim {
            Some(sim) => if sim.players.len() > 0 {
                sim.players[0].wood
            } else {
                0
            },
            None => 0,
        }
    }

    /// Stone of the player at index 0; 0 without one.
    pub fn get_stone(&self) -> (r: u32)
        ensures
            r == match self.simulation() {
                Some(s) => if s.players@.len() > 0 {
                    s.players@[0].stone
                } else {
                    0
                },
                None => 0,
            },
    {
        match &self.sim {
            Some(sim) => if sim.players.len() > 0 {
                sim.players[0].stone
            } else {
                0
            },
            None => 0,
        }
    }

    /// Kind codes (wood 1, stone 2) of the nodes that still hold something,
    /// in order; none without a simulation.
    pub fn get_resource_kinds(&self) -> (r: Vec<i64>)
        ensures
            r@ == match self.simulation() {
                Some(s) => available_kinds(s.resource_nodes@),
                None => Seq::<i64>::empty(),
            },
    {
        let mut out: Vec<i64> = Vec::new();
        match &self.sim {
            None => {},
            Some(sim) => {
                let ghost v = sim.resource_nodes@;
                let ghost keep = |n: CResourceNode| not_depleted(n);
                let ghost code = |n: CResourceNode| kind_code(n.kind);
                let mut i: usize = 0;
                proof {
                    reveal(Seq::filter);
                    assert(v.take(0) =~= seq![]);
                    assert(out@ =~= v.take(0).filter(keep).map_values(code));
                }
                while i < sim.resource_nodes.len()
                    invariant
                        v == sim.resource_nodes@,
                        keep == (|n: CResourceNode| not_depleted(n)),
                        code == (|n: CResourceNode| kind_code(n.kind)),
                        i <= v.len(),
                        out@ == v.take(i as int).filter(keep).map_values(code),
                    decreases v.len() - i,
                {
                    proof {
                        assert(v.take(i + 1).drop_last() =~= v.take(i as int));
                        reveal(Seq::filter);
                    }
                    let n = sim.resource_nodes[i];
                    if n.amount != 0 {
                        let c: i64 = match n.kind {
                            ResourceKind::Wood => 1,
                            ResourceKind::Stone => 2,
                        };
                        out.push(c);
                    }
                    proof {
                        assert(out@ =~= v.take(i + 1).filter(keep).map_values(code));
                    }
                    i = i + 1;
                }
                proof {
                    assert(v.take(v.len() as int) =~= v);
                }
            },
        }
        out
    }

    /// What the first node with id `node_id` holds; -1 when there is no
    /// such node or it has been depleted.
    pub fn get_resource_amount(&self, node_id: ResourceNodeId) -> (r: i64)
        ensures
            r == match self.simulation() {
                Some(s) => match find_node(s.resource_nodes@, node_id) {
                    Some(k) => if s.resource_nodes@[k].amount == 0 {
                        -1int
                    } else {
                        s.resource_nodes@[k].amount as int
                    },
                    None => -1int,
                },
                None => -1int,
            },
    {
        match &self.sim {
            None => -1,
            Some(sim) => {
                let ghost p = node_is(node_id);
                let mut i: usize = 0;
                while i < sim.resource_nodes.len()
                    invariant
                        self.simulation() == Some(*sim),
                        p == node_is(node_id),
                        i <= sim.resource_nodes@.len(),
                        forall|j: int| 0 <= j < i ==> !p(#[trigger] sim.resource_nodes@[j]),
                    decreases sim.resource_nodes@.len() - i,
                {
                    if sim.resource_nodes[i].id == node_id {
                        proof {
                            assert(p(sim.resource_nodes@[i as int]));
                            lemma_first_index_at(sim.resource_nodes@, p, i as int);
                        }
                        let amount = sim.resource_nodes[i].amount;
                        if amount == 0 {
                            return -1;
                        }
                        return amount as i64;
                    }
                    i = i + 1;
                }
                proof {
                    lemma_first_index_none(sim.resource_nodes@, p);
                }
                -1
            },
        }
    }
}

} // verus!
