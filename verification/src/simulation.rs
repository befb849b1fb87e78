use vstd::prelude::*;
use crate::config::SimConfig;
use crate::gaia::{CGaiaEntity, GaiaBehavior, GaiaId, GAIA_HP_BITS, ROAM_IDLE_TICKS};
use crate::lookup::{first_index, is_first, lemma_first_index_at, lemma_first_index_none, lemma_first_index_some};
use crate::orders::{InputEntry, Order};
use crate::pathfinding::GridPathfinder;
use crate::replay::{encode_replay, replay_bytes};
use crate::player::{CPlayer, PlayerId, STARTING_FOOD, STARTING_WOOD};
use crate::resource_node::{CResourceNode, ResourceKind, ResourceNodeId, min_u32};
use crate::rng::DeterministicRng;
use crate::unit::{BehaviorState, BehaviorV, CUnit, CUnitV, GatherPhase, UnitId, F32_ZERO, HARVEST_AMOUNT, new_unit_view, units_view};
use crate::world::WorldPos;

verus! {

/// The game state: units, resource nodes, players and wild creatures on a
/// grid map, advanced in fixed 50 ms ticks. Every order given is queued for
/// the next tick and recorded in `input_log` for replay.
pub struct CSimulation {
    pub tick: u64,
    pub units: Vec<CUnit>,
    pub resource_nodes: Vec<CResourceNode>,
    pub players: Vec<CPlayer>,
    pub gaia: Vec<CGaiaEntity>,
    pub pathfinder: GridPathfinder,
    pub rng: DeterministicRng,
    pub pending_orders: Vec<(UnitId, Order)>,
    pub input_log: Vec<InputEntry>,
    pub config: SimConfig,
    /// The id the next spawned unit gets.
    pub next_unit_id: UnitId,
    /// The id the next spawned resource node gets.
    pub next_node_id: ResourceNodeId,
    /// The id the next spawned creature gets.
    pub next_gaia_id: GaiaId,
}

pub open spec fn unit_is(id: UnitId) -> spec_fn(CUnit) -> bool {
    |u: CUnit| u.id == id
}

pub open spec fn living_unit_is(id: UnitId) -> spec_fn(CUnitV) -> bool {
    |u: CUnitV| u.id == id && !u.is_dead
}

pub open spec fn node_is(id: ResourceNodeId) -> spec_fn(CResourceNode) -> bool {
    |n: CResourceNode| n.id == id
}

pub open spec fn player_is(id: PlayerId) -> spec_fn(CPlayer) -> bool {
    |p: CPlayer| p.id == id
}

/// Position of the first unit with id `id`.
pub open spec fn find_unit(units: Seq<CUnit>, id: UnitId) -> Option<int> {
    first_index(units, unit_is(id))
}

/// Position of the first living unit with id `id`.
pub open spec fn find_living_unit(units: Seq<CUnitV>, id: UnitId) -> Option<int> {
    first_index(units, living_unit_is(id))
}

/// Position of the first resource node with id `id`.
pub open spec fn find_node(nodes: Seq<CResourceNode>, id: ResourceNodeId) -> Option<int> {
    first_index(nodes, node_is(id))
}

/// Position of the first player with id `id`.
pub open spec fn find_player(players: Seq<CPlayer>, id: PlayerId) -> Option<int> {
    first_index(players, player_is(id))
}

/// The owner of the first unit with id `id`; player 0 when there is none.
pub open spec fn owner_of(units: Seq<CUnit>, id: UnitId) -> PlayerId {
    match find_unit(units, id) {
        Some(i) => units[i].owner,
        None => 0,
    }
}

/// Ids increase strictly along the sequence and lie in `1..next`.
pub open spec fn ids_below(ids: Seq<u32>, next: u32) -> bool {
    &&& forall|i: int, j: int| 0 <= i < j < ids.len() ==> ids[i] < ids[j]
    &&& forall|i: int| 0 <= i < ids.len() ==> 1 <= #[trigger] ids[i] < next
}

/// The map, the random generator and the configuration are as they were.
pub open spec fn same_setup(a: CSimulation, b: CSimulation) -> bool {
    &&& a.pathfinder == b.pathfinder
    &&& a.rng == b.rng
    &&& a.config == b.config
}

/// Appending the next id keeps the ids increasing and below the new next id.
pub proof fn lemma_ids_push(ids: Seq<u32>, next: u32)
    requires
        ids_below(ids, next),
        1 <= next < u32::MAX,
    ensures
        ids_below(ids.push(next), (next + 1) as u32),
{
    let t = ids.push(next);
    assert forall|i: int, j: int| 0 <= i < j < t.len() implies t[i] < t[j] by {
        if j == ids.len() {
            assert(t[i] == ids[i]);
        } else {
            assert(t[i] == ids[i] && t[j] == ids[j]);
        }
    }
    assert forall|i: int| 0 <= i < t.len() implies 1 <= #[trigger] t[i] < next + 1 by {
        if i < ids.len() {
            assert(t[i] == ids[i]);
        }
    }
}

pub open spec fn unit_ids(units: Seq<CUnit>) -> Seq<u32> {
    units.map_values(|u: CUnit| u.id)
}

pub open spec fn node_ids(nodes: Seq<CResourceNode>) -> Seq<u32> {
    nodes.map_values(|n: CResourceNode| n.id)
}

pub open spec fn gaia_ids(gaia: Seq<CGaiaEntity>) -> Seq<u32> {
    gaia.map_values(|g: CGaiaEntity| g.id)
}


/// The behavior an order gives a unit; `path` is the waypoint list of a move.
pub open spec fn order_behavior(order: Order, path: Seq<WorldPos>) -> BehaviorV {
    match order {
        Order::Stop => BehaviorV::Idle,
        Order::Move { target } => BehaviorV::MovingTo { target, path, path_idx: 0 },
        Order::Gather { node } => BehaviorV::Gathering { node, phase: GatherPhase::MovingToNode },
        Order::Attack { target } => BehaviorV::Attacking { target, cooldown: F32_ZERO },
        Order::AttackMove { target } => BehaviorV::MovingTo { target, path, path_idx: 0 },
    }
}

/// The units once an order is carried out: the first living unit with the
/// ordered id takes the order's behavior; without one nothing changes.
pub open spec fn after_order(units: Seq<CUnitV>, unit_id: UnitId, order: Order, path: Seq<WorldPos>) -> Seq<CUnitV> {
    match find_living_unit(units, unit_id) {
        Some(i) => units.update(i, CUnitV { behavior: order_behavior(order, path), ..units[i] }),
        None => units,
    }
}

/// The units once the first `n` queued orders are carried out in turn,
/// the `k`-th with waypoints `paths[k]`.
pub open spec fn after_orders(
    units: Seq<CUnitV>,
    orders: Seq<(UnitId, Order)>,
    paths: Seq<Seq<WorldPos>>,
    n: nat,
) -> Seq<CUnitV>
    decreases n,
{
    if n == 0 {
        units
    } else {
        let k = (n - 1) as nat;
        after_order(after_orders(units, orders, paths, k), orders[k as int].0, orders[k as int].1, paths[k as int])
    }
}

/// The waypoint lists as sequences.
pub open spec fn paths_view(paths: Seq<Vec<WorldPos>>) -> Seq<Seq<WorldPos>> {
    paths.map_values(|p: Vec<WorldPos>| p@)
}

/// Whether the first resource node with id `id` exists and is not depleted.
pub open spec fn node_available(nodes: Seq<CResourceNode>, id: ResourceNodeId) -> bool {
    match find_node(nodes, id) {
        Some(k) => nodes[k].amount != 0,
        None => false,
    }
}

/// The stock of `kind` a player holds.
pub open spec fn stock_of(p: CPlayer, kind: ResourceKind) -> u32 {
    match kind {
        ResourceKind::Wood => p.wood,
        ResourceKind::Stone => p.stone,
    }
}

/// The player with `amount` more of `kind`.
pub open spec fn credited(p: CPlayer, kind: ResourceKind, amount: u32) -> CPlayer {
    match kind {
        ResourceKind::Wood => CPlayer { wood: (p.wood + amount) as u32, ..p },
        ResourceKind::Stone => CPlayer { stone: (p.stone + amount) as u32, ..p },
    }
}

/// The node once a harvest has taken its share.
pub open spec fn harvested_node(n: CResourceNode) -> CResourceNode {
    CResourceNode { amount: (n.amount - min_u32(HARVEST_AMOUNT, n.amount)) as u32, ..n }
}

/// The players once the owner of a harvesting unit is credited with what
/// it took from `n`; an owner that is not a player index receives nothing.
pub open spec fn paid_players(players: Seq<CPlayer>, owner: PlayerId, n: CResourceNode) -> Seq<CPlayer> {
    if owner < players.len() {
        players.update(owner as int, credited(players[owner as int], n.kind, min_u32(HARVEST_AMOUNT, n.amount)))
    } else {
        players
    }
}

/// A unit is alive.
pub open spec fn is_alive(u: CUnitV) -> bool {
    !u.is_dead
}

/// A harvest by a unit of `owner` from node position `k` fits the owner's
/// stock (an owner that is not a player index receives nothing).
pub open spec fn harvest_fits(players: Seq<CPlayer>, owner: PlayerId, node: CResourceNode) -> bool {
    owner < players.len() ==> stock_of(players[owner as int], node.kind) + min_u32(HARVEST_AMOUNT, node.amount)
        <= u32::MAX
}


/// In a well-formed simulation no two units share an id, so the unit found
/// by id is the one carrying it.
pub proof fn lemma_unit_ids_distinct(sim: CSimulation, id: UnitId, i: int)
    requires
        sim.wf(),
        0 <= i < sim.units@.len(),
        sim.units@[i].id == id,
    ensures
        forall|j: int| 0 <= j < sim.units@.len() && j != i ==> (#[trigger] sim.units@[j]).id != id,
        find_unit(sim.units@, id) == Some(i),
{
    assert forall|j: int| 0 <= j < sim.units@.len() && j != i implies (#[trigger] sim.units@[j]).id != id by {
        assert(unit_ids(sim.units@)[i] == sim.units@[i].id);
        assert(unit_ids(sim.units@)[j] == sim.units@[j].id);
    }
    assert forall|j: int| 0 <= j < i implies !unit_is(id)(#[trigger] sim.units@[j]) by {
        assert(sim.units@[j].id != id);
    }
    lemma_first_index_at(sim.units@, unit_is(id), i);
}

/// A unit just spawned is the one found under the id it was given.
pub proof fn lemma_spawned_unit_found(units: Seq<CUnit>, next: UnitId, u: CUnit)
    requires
        ids_below(unit_ids(units), next),
        u.id == next,
    ensures
        find_unit(units.push(u), next) == Some(units.len() as int),
{
    let s = units.push(u);
    assert forall|j: int| 0 <= j < units.len() implies !unit_is(next)(#[trigger] s[j]) by {
        assert(unit_ids(units)[j] == units[j].id);
        assert(s[j] == units[j]);
    }
    lemma_first_index_at(s, unit_is(next), units.len() as int);
}

/// A harvest moves resources from the node to the owner's stock without
/// creating or losing any: what the node loses the owner gains, and the
/// owner's other stock is untouched.
pub proof fn lemma_harvest_conserves_stock(n: CResourceNode, p: CPlayer)
    requires
        stock_of(p, n.kind) + min_u32(HARVEST_AMOUNT, n.amount) <= u32::MAX,
    ensures
        harvested_node(n).amount + stock_of(credited(p, n.kind, min_u32(HARVEST_AMOUNT, n.amount)), n.kind)
            == n.amount + stock_of(p, n.kind),
        credited(p, n.kind, min_u32(HARVEST_AMOUNT, n.amount)).food == p.food,
        credited(p, n.kind, min_u32(HARVEST_AMOUNT, n.amount)).id == p.id,
        n.kind == ResourceKind::Wood ==> credited(p, n.kind, min_u32(HARVEST_AMOUNT, n.amount)).stone == p.stone,
        n.kind == ResourceKind::Stone ==> credited(p, n.kind, min_u32(HARVEST_AMOUNT, n.amount)).wood == p.wood,
{
}

/// Where the pieces of a new game stand. The positions come from
/// floating-point geometry around the map centre, computed by the caller.
#[derive(Clone, Copy, Debug)]
pub struct StartLayout {
    /// Player 0's supply depot, at the map centre.
    pub depot: WorldPos,
    /// The starter workers, on a circle around the depot.
    pub workers: [WorldPos; 10],
    /// The three wood nodes near the depot.
    pub wood: [WorldPos; 3],
    /// The stone node near the depot.
    pub stone: WorldPos,
    /// Centre of the wolf's territory, where it starts.
    pub wolf_center: WorldPos,
}

/// Radius of the wolf's territory, 50 world units (an `f32` bit pattern).
pub const WOLF_TERRITORY_RADIUS_BITS: u32 = 0x4248_0000;

/// The starter workers of player 0: ids from 1, in layout order.
pub open spec fn starting_units(workers: Seq<WorldPos>) -> Seq<CUnitV> {
    Seq::new(workers.len(), |k: int| new_unit_view((k + 1) as u32, 0, workers[k]))
}

/// The resource nodes of a new game: wood holding 500, 500 and 300, then
/// stone holding 400, with ids from 1, each full.
pub open spec fn starting_nodes(l: StartLayout) -> Seq<CResourceNode> {
    seq![
        CResourceNode { id: 1, kind: ResourceKind::Wood, pos: l.wood@[0], amount: 500, max_amount: 500 },
        CResourceNode { id: 2, kind: ResourceKind::Wood, pos: l.wood@[1], amount: 500, max_amount: 500 },
        CResourceNode { id: 3, kind: ResourceKind::Wood, pos: l.wood@[2], amount: 300, max_amount: 300 },
        CResourceNode { id: 4, kind: ResourceKind::Stone, pos: l.stone, amount: 400, max_amount: 400 },
    ]
}

/// Player 0 of a new game, with its depot placed.
pub open spec fn starting_player(depot: WorldPos) -> CPlayer {
    CPlayer { id: 0, wood: STARTING_WOOD, stone: 0, food: STARTING_FOOD, supply_depot: Some(depot) }
}

/// The wolf of a new game, roaming its territory from its centre.
pub open spec fn starting_wolf(center: WorldPos) -> CGaiaEntity {
    CGaiaEntity {
        id: 1,
        pos: center,
        territory_center: center,
        territory_radius: WOLF_TERRITORY_RADIUS_BITS,
        hp: GAIA_HP_BITS,
        max_hp: GAIA_HP_BITS,
        behavior: GaiaBehavior::Roaming { waypoint: center, idle_ticks: ROAM_IDLE_TICKS },
    }
}

/// What an order does to the unit it is given: the first living unit with
/// the ordered id, and only it, takes up the order. Stop leaves it idle; a
/// move or attack-move sends it along exactly the given waypoints, from the
/// first, towards the order's target; a gather order sends it to the
/// order's node; an attack order sets it on the order's target, ready to
/// strike. Only a stop order leaves the unit idle. Its other state (id,
/// owner, position, health) is kept, and an order for an id with no living
/// unit changes nothing.
pub proof fn lemma_order_takes_effect(units: Seq<CUnitV>, unit_id: UnitId, order: Order, path: Seq<WorldPos>)
    ensures
        after_order(units, unit_id, order, path).len() == units.len(),
        match find_living_unit(units, unit_id) {
            None => after_order(units, unit_id, order, path) == units,
            Some(k) => {
                let u = after_order(units, unit_id, order, path)[k];
                &&& 0 <= k < units.len()
                &&& units[k].id == unit_id && !units[k].is_dead
                &&& forall|j: int| 0 <= j < k ==> !(units[j].id == unit_id && !units[j].is_dead)
                &&& forall|j: int| 0 <= j < units.len() && j != k ==> after_order(units, unit_id, order, path)[j] == units[j]
                &&& u.id == units[k].id && u.owner == units[k].owner && u.pos == units[k].pos
                &&& u.hp == units[k].hp && u.is_dead == units[k].is_dead
                &&& (u.behavior is Idle <==> order is Stop)
                &&& (order matches Order::Move { target } ==> u.behavior == (BehaviorV::MovingTo { target, path, path_idx: 0 }))
                &&& (order matches Order::AttackMove { target } ==> u.behavior == (BehaviorV::MovingTo { target, path, path_idx: 0 }))
                &&& (order matches Order::Gather { node } ==> u.behavior == (BehaviorV::Gathering { node, phase: GatherPhase::MovingToNode }))
                &&& (order matches Order::Attack { target } ==> u.behavior == (BehaviorV::Attacking { target, cooldown: 0 }))
            },
        },
{
    lemma_first_index_some(units, living_unit_is(unit_id));
}

impl CSimulation {
    /// Well-formed: units, resource nodes and creatures each carry distinct
    /// ids, in the order they were spawned, all below the next id to hand
    /// out; and the pathfinding grid matches its dimensions.
    pub open spec fn wf(&self) -> bool {
        &&& 1 <= self.next_unit_id && 1 <= self.next_node_id && 1 <= self.next_gaia_id
        &&& ids_below(unit_ids(self.units@), self.next_unit_id)
        &&& ids_below(node_ids(self.resource_nodes@), self.next_node_id)
        &&& ids_below(gaia_ids(self.gaia@), self.next_gaia_id)
        &&& self.pathfinder.wf()
    }

    /// A simulation on the configured map at tick 0: every tile passable,
    /// the random generator seeded from the configuration, and no players,
    /// units, resource nodes, creatures or orders yet. Ids start at 1.
    pub fn with_config(config: SimConfig) -> (s: Self)
        requires
            config.map_width as int * config.map_height as int <= u32::MAX,
        ensures
            s.wf(),
            s.tick == 0,
            s.units@.len() == 0,
            s.resource_nodes@.len() == 0,
            s.players@.len() == 0,
            s.gaia@.len() == 0,
            s.pending_orders@.len() == 0,
            s.input_log@.len() == 0,
            s.config == config,
            s.rng@ == config.seed,
            s.pathfinder.width == config.map_width,
            s.pathfinder.height == config.map_height,
            s.pathfinder.cell_size_bits == config.tile_size,
            forall|i: int| 0 <= i < s.pathfinder.grid@.len() ==> s.pathfinder.grid@[i],
            s.next_unit_id == 1,
            s.next_node_id == 1,
            s.next_gaia_id == 1,
    {
        let pathfinder = GridPathfinder::new(config.map_width, config.map_height, config.tile_size);
        let rng = DeterministicRng::new(config.seed);
        let s = CSimulation {
            tick: 0,
            units: Vec::new(),
            resource_nodes: Vec::new(),
            players: Vec::new(),
            gaia: Vec::new(),
            pathfinder,
            rng,
            pending_orders: Vec::new(),
            input_log: Vec::new(),
            config,
            next_unit_id: 1,
            next_node_id: 1,
            next_gaia_id: 1,
        };
        proof {
            assert(unit_ids(s.units@) =~= seq![]);
            assert(node_ids(s.resource_nodes@) =~= seq![]);
            assert(gaia_ids(s.gaia@) =~= seq![]);
        }
        s
    }

    /// A new game on the configured map: player 0 with its depot, ten
    /// workers, three wood nodes and a stone node, and one wolf, placed as
    /// `layout` says; everything else as [`CSimulation::with_config`] leaves it.
    pub fn new(config: SimConfig, layout: StartLayout) -> (s: Self)
        requires
            config.map_width as int * config.map_height as int <= u32::MAX,
        ensures
            s.wf(),
            s.tick == 0,
            s.players@ == seq![starting_player(layout.depot)],
            units_view(s.units@) == starting_units(layout.workers@),
            s.resource_nodes@ == starting_nodes(layout),
            s.gaia@ == seq![starting_wolf(layout.wolf_center)],
            s.pending_orders@.len() == 0,
            s.input_log@.len() == 0,
            s.config == config,
            s.rng@ == config.seed,
            s.pathfinder.width == config.map_width,
            s.pathfinder.height == config.map_height,
            s.pathfinder.cell_size_bits == config.tile_size,
            forall|i: int| 0 <= i < s.pathfinder.grid@.len() ==> s.pathfinder.grid@[i],
            s.next_unit_id == 11,
            s.next_node_id == 5,
            s.next_gaia_id == 2,
    {
        let mut s = CSimulation::with_config(config);
        let mut p0 = CPlayer::new(0);
        p0.supply_depot = Some(layout.depot);
        s.players.push(p0);
        let ghost grid = s.pathfinder.grid@;
        let mut i: usize = 0;
        while i < 10
            invariant
                s.wf(),
                i <= 10,
                s.next_unit_id == i + 1,
                s.next_node_id == 1,
                s.next_gaia_id == 1,
                units_view(s.units@) == starting_units(layout.workers@.take(i as int)),
                s.resource_nodes@.len() == 0,
                s.gaia@.len() == 0,
                s.players@ == seq![starting_player(layout.depot)],
                s.tick == 0,
                s.pending_orders@.len() == 0,
                s.input_log@.len() == 0,
                s.config == config,
                s.rng@ == config.seed,
                s.pathfinder.width == config.map_width,
                s.pathfinder.height == config.map_height,
                s.pathfinder.cell_size_bits == config.tile_size,
                s.pathfinder.grid@ == grid,
                forall|k: int| 0 <= k < grid.len() ==> grid[k],
            decreases 10 - i,
        {
            let ghost before = units_view(s.units@);
            s.spawn_unit(0, layout.workers[i]);
            proof {
                assert(starting_units(layout.workers@.take(i + 1)) =~= before.push(
                    new_unit_view((i + 1) as u32, 0, layout.workers@[i as int]),
                ));
            }
            i = i + 1;
        }
        assert(layout.workers@.take(10) =~= layout.workers@);
        s.spawn_resource_node(ResourceKind::Wood, layout.wood[0], 500);
        s.spawn_resource_node(ResourceKind::Wood, layout.wood[1], 500);
        s.spawn_resource_node(ResourceKind::Wood, layout.wood[2], 300);
        s.spawn_resource_node(ResourceKind::Stone, layout.stone, 400);
        assert(s.resource_nodes@ =~= starting_nodes(layout));
        s.spawn_gaia(layout.wolf_center, layout.wolf_center, WOLF_TERRITORY_RADIUS_BITS);
        proof {
            let w = s.gaia@[0];
            assert(s.gaia@.drop_last().len() == 0);
            assert(w == starting_wolf(layout.wolf_center));
            assert(s.gaia@ =~= seq![starting_wolf(layout.wolf_center)]);
        }
        s
    }

    /// Adds a fresh idle unit for `owner` at `pos` and returns its id, the
    /// next unused one.
    pub fn spawn_unit(&mut self, owner: PlayerId, pos: WorldPos) -> (id: UnitId)
        requires
            old(self).wf(),
            old(self).next_unit_id < u32::MAX,
        ensures
            final(self).wf(),
            id == old(self).next_unit_id,
            final(self).next_unit_id == id + 1,
            units_view(final(self).units@) == units_view(old(self).units@).push(new_unit_view(id, owner, pos)),
            final(self).resource_nodes@ == old(self).resource_nodes@,
            final(self).players@ == old(self).players@,
            final(self).gaia@ == old(self).gaia@,
            final(self).tick == old(self).tick,
            final(self).pending_orders@ == old(self).pending_orders@,
            final(self).input_log@ == old(self).input_log@,
            final(self).next_node_id == old(self).next_node_id,
            final(self).next_gaia_id == old(self).next_gaia_id,
            same_setup(*final(self), *old(self)),
    {
        let id = self.next_unit_id;
        self.next_unit_id = self.next_unit_id + 1;
        self.units.push(CUnit::new(id, owner, pos));
        proof {
            assert(unit_ids(self.units@) =~= unit_ids(old(self).units@).push(id));
            lemma_ids_push(unit_ids(old(self).units@), id);
            assert(units_view(self.units@) =~= units_view(old(self).units@).push(new_unit_view(id, owner, pos)));
        }
        id
    }

    /// Adds a full resource node and returns its id, the next unused one.
    pub fn spawn_resource_node(&mut self, kind: ResourceKind, pos: WorldPos, amount: u32) -> (id: ResourceNodeId)
        requires
            old(self).wf(),
            old(self).next_node_id < u32::MAX,
        ensures
            final(self).wf(),
            id == old(self).next_node_id,
            final(self).next_node_id == id + 1,
            final(self).resource_nodes@ == old(self).resource_nodes@.push(
                CResourceNode { id, kind, pos, amount, max_amount: amount },
            ),
            units_view(final(self).units@) == units_view(old(self).units@),
            final(self).players@ == old(self).players@,
            final(self).gaia@ == old(self).gaia@,
            final(self).tick == old(self).tick,
            final(self).pending_orders@ == old(self).pending_orders@,
            final(self).input_log@ == old(self).input_log@,
            final(self).next_unit_id == old(self).next_unit_id,
            final(self).next_gaia_id == old(self).next_gaia_id,
            same_setup(*final(self), *old(self)),
    {
        let id = self.next_node_id;
        self.next_node_id = self.next_node_id + 1;
        self.resource_nodes.push(CResourceNode::new(id, kind, pos, amount));
        proof {
            assert(node_ids(self.resource_nodes@) =~= node_ids(old(self).resource_nodes@).push(id));
            lemma_ids_push(node_ids(old(self).resource_nodes@), id);
        }
        id
    }

    /// Adds a wild creature at `pos` guarding the circle of radius
    /// `territory_radius` (an `f32` bit pattern) around `territory_center`,
    /// and returns its id, the next unused one.
    pub fn spawn_gaia(&mut self, pos: WorldPos, territory_center: WorldPos, territory_radius: u32) -> (id: GaiaId)
        requires
            old(self).wf(),
            old(self).next_gaia_id < u32::MAX,
        ensures
            final(self).wf(),
            id == old(self).next_gaia_id,
            final(self).next_gaia_id == id + 1,
            final(self).gaia@.len() == old(self).gaia@.len() + 1,
            final(self).gaia@.drop_last() == old(self).gaia@,
            final(self).gaia@.last().id == id,
            final(self).gaia@.last().pos == pos,
            final(self).gaia@.last().territory_center == territory_center,
            final(self).gaia@.last().territory_radius == territory_radius,
            final(self).gaia@.last().hp == GAIA_HP_BITS,
            final(self).gaia@.last().max_hp == GAIA_HP_BITS,
            final(self).gaia@.last().behavior == (GaiaBehavior::Roaming { waypoint: territory_center, idle_ticks: ROAM_IDLE_TICKS }),
            units_view(final(self).units@) == units_view(old(self).units@),
            final(self).resource_nodes@ == old(self).resource_nodes@,
            final(self).players@ == old(self).players@,
            final(self).tick == old(self).tick,
            final(self).pending_orders@ == old(self).pending_orders@,
            final(self).input_log@ == old(self).input_log@,
            final(self).next_unit_id == old(self).next_unit_id,
            final(self).next_node_id == old(self).next_node_id,
            same_setup(*final(self), *old(self)),
    {
        let id = self.next_gaia_id;
        self.next_gaia_id = self.next_gaia_id + 1;
        self.gaia.push(CGaiaEntity::new(id, pos, territory_center, territory_radius));
        proof {
            assert(gaia_ids(self.gaia@) =~= gaia_ids(old(self).gaia@).push(id));
            lemma_ids_push(gaia_ids(old(self).gaia@), id);
            assert(self.gaia@.drop_last() =~= old(self).gaia@);
        }
        id
    }

    /// Position of the first unit with id `id`.
    fn unit_position(&self, id: UnitId) -> (r: Option<usize>)
        ensures
            match r {
                Some(k) => k < self.units@.len() && find_unit(self.units@, id) == Some(k as int),
                None => find_unit(self.units@, id) is None,
            },
    {
        let ghost p = unit_is(id);
        let mut i: usize = 0;
        while i < self.units.len()
            invariant
                p == unit_is(id),
                i <= self.units@.len(),
                forall|j: int| 0 <= j < i ==> !p(#[trigger] self.units@[j]),
            decreases self.units@.len() - i,
        {
            if self.units[i].id == id {
                proof {
                    assert(p(self.units@[i as int]));
                    lemma_first_index_at(self.units@, p, i as int);
                }
                return Some(i);
            }
            i = i + 1;
        }
        proof {
            lemma_first_index_none(self.units@, p);
        }
        None
    }

    /// Queues `order` for unit `unit_id` and records it in the input log,
    /// stamped with the current tick and the owner of the first unit with
    /// that id (player 0 when there is none).
    pub fn issue_order(&mut self, unit_id: UnitId, order: Order)
        ensures
            final(self).input_log@ == old(self).input_log@.push(
                InputEntry { tick: old(self).tick, player: owner_of(old(self).units@, unit_id), unit: unit_id, order },
            ),
            final(self).pending_orders@ == old(self).pending_orders@.push((unit_id, order)),
            units_view(final(self).units@) == units_view(old(self).units@),
            final(self).units@ == old(self).units@,
            final(self).resource_nodes@ == old(self).resource_nodes@,
            final(self).players@ == old(self).players@,
            final(self).gaia@ == old(self).gaia@,
            final(self).tick == old(self).tick,
            final(self).next_unit_id == old(self).next_unit_id,
            final(self).next_node_id == old(self).next_node_id,
            final(self).next_gaia_id == old(self).next_gaia_id,
            final(self).wf() == old(self).wf(),
            same_setup(*final(self), *old(self)),
    {
        let player = match self.unit_position(unit_id) {
            Some(i) => self.units[i].owner,
            None => 0,
        };
        self.input_log.push(InputEntry { tick: self.tick, player, unit: unit_id, order });
        self.pending_orders.push((unit_id, order));
    }

    /// The units, in spawn order.
    pub fn iter_units(&self) -> (r: &[CUnit])
        ensures
            r@ == self.units@,
    {
        self.units.as_slice()
    }

    /// The resource nodes, in spawn order.
    pub fn iter_resources(&self) -> (r: &[CResourceNode])
        ensures
            r@ == self.resource_nodes@,
    {
        self.resource_nodes.as_slice()
    }

    /// The first unit with id `id`, if any.
    pub fn get_unit(&self, id: UnitId) -> (r: Option<&CUnit>)
        ensures
            match find_unit(self.units@, id) {
                Some(i) => r == Some(&self.units@[i]),
                None => r is None,
            },
    {
        match self.unit_position(id) {
            Some(i) => Some(&self.units[i]),
            None => None,
        }
    }

    /// Wood and stone of the first player with id `player_id`; `(0, 0)` when
    /// there is none.
    pub fn player_resources(&self, player_id: PlayerId) -> (r: (u32, u32))
        ensures
            r == match find_player(self.players@, player_id) {
                Some(i) => (self.players@[i].wood, self.players@[i].stone),
                None => (0u32, 0u32),
            },
    {
        let ghost p = player_is(player_id);
        let mut i: usize = 0;
        while i < self.players.len()
            invariant
                p == player_is(player_id),
                i <= self.players@.len(),
                forall|j: int| 0 <= j < i ==> !p(#[trigger] self.players@[j]),
            decreases self.players@.len() - i,
        {
            if self.players[i].id == player_id {
                proof {
                    assert(p(self.players@[i as int]));
                    lemma_first_index_at(self.players@, p, i as int);
                }
                return (self.players[i].wood, self.players[i].stone);
            }
            i = i + 1;
        }
        proof {
            lemma_first_index_none(self.players@, p);
        }
        (0, 0)
    }

    /// Position of the first living unit with id `id`.
    fn living_unit_index(&self, id: UnitId) -> (r: Option<usize>)
        ensures
            match r {
                Some(k) => k < self.units@.len() && find_living_unit(units_view(self.units@), id) == Some(k as int),
                None => find_living_unit(units_view(self.units@), id) is None,
            },
    {
        let ghost p = living_unit_is(id);
        let ghost v = units_view(self.units@);
        let mut i: usize = 0;
        while i < self.units.len()
            invariant
                p == living_unit_is(id),
                v == units_view(self.units@),
                i <= self.units@.len(),
                forall|j: int| 0 <= j < i ==> !p(#[trigger] v[j]),
            decreases self.units@.len() - i,
        {
            if self.units[i].id == id && !self.units[i].is_dead {
                proof {
                    assert(p(v[i as int]));
                    lemma_first_index_at(v, p, i as int);
                }
                return Some(i);
            }
            i = i + 1;
        }
        proof {
            lemma_first_index_none(v, p);
        }
        None
    }

    /// Where the first living unit with id `id` stands, if there is one.
    pub fn living_unit_pos(&self, id: UnitId) -> (r: Option<WorldPos>)
        ensures
            match find_living_unit(units_view(self.units@), id) {
                Some(i) => r == Some(self.units@[i].pos),
                None => r is None,
            },
    {
        match self.living_unit_index(id) {
            Some(i) => Some(self.units[i].pos),
            None => None,
        }
    }

    /// Starts the next tick: the tick counter goes up by one.
    pub fn advance_tick(&mut self)
        requires
            old(self).tick < u64::MAX,
        ensures
            final(self).tick == old(self).tick + 1,
            units_view(final(self).units@) == units_view(old(self).units@),
            final(self).resource_nodes@ == old(self).resource_nodes@,
            final(self).players@ == old(self).players@,
            final(self).gaia@ == old(self).gaia@,
            final(self).pending_orders@ == old(self).pending_orders@,
            final(self).input_log@ == old(self).input_log@,
            final(self).next_unit_id == old(self).next_unit_id,
            final(self).next_node_id == old(self).next_node_id,
            final(self).next_gaia_id == old(self).next_gaia_id,
            final(self).wf() == old(self).wf(),
            same_setup(*final(self), *old(self)),
    {
        self.tick = self.tick + 1;
    }

    /// Carries out one order: the first living unit with id `unit_id`
    /// stops, moves along `path`, starts gathering or starts attacking.
    /// `path` is used only by the two kinds of move.
    pub fn apply_order(&mut self, unit_id: UnitId, order: Order, path: Vec<WorldPos>)
        ensures
            units_view(final(self).units@) == after_order(units_view(old(self).units@), unit_id, order, path@),
            unit_ids(final(self).units@) == unit_ids(old(self).units@),
            final(self).resource_nodes@ == old(self).resource_nodes@,
            final(self).players@ == old(self).players@,
            final(self).gaia@ == old(self).gaia@,
            final(self).tick == old(self).tick,
            final(self).pending_orders@ == old(self).pending_orders@,
            final(self).input_log@ == old(self).input_log@,
            final(self).next_unit_id == old(self).next_unit_id,
            final(self).next_node_id == old(self).next_node_id,
            final(self).next_gaia_id == old(self).next_gaia_id,
            final(self).wf() == old(self).wf(),
            same_setup(*final(self), *old(self)),
    {
        match self.living_unit_index(unit_id) {
            None => {},
            Some(i) => {
                let behavior = match order {
                    Order::Stop => BehaviorState::Idle,
                    Order::Move { target } => BehaviorState::MovingTo { target, path, path_idx: 0 },
                    Order::Gather { node } => BehaviorState::Gathering { node, phase: GatherPhase::MovingToNode },
                    Order::Attack { target } => BehaviorState::Attacking { target, cooldown: F32_ZERO },
                    Order::AttackMove { target } => BehaviorState::MovingTo { target, path, path_idx: 0 },
                };
                self.units[i].behavior = behavior;
                proof {
                    assert(units_view(self.units@) =~= units_view(old(self).units@).update(
                        i as int,
                        CUnitV { behavior: order_behavior(order, path@), ..units_view(old(self).units@)[i as int] },
                    ));
                    assert(unit_ids(self.units@) =~= unit_ids(old(self).units@));
                }
            },
        }
    }

    /// Carries out the queued orders in the order they were given, then
    /// empties the queue. `paths[k]` is the waypoint list of the `k`-th
    /// queued order when it is a move.
    pub fn apply_pending_orders(&mut self, paths: Vec<Vec<WorldPos>>)
        requires
            paths@.len() == old(self).pending_orders@.len(),
        ensures
            final(self).pending_orders@.len() == 0,
            units_view(final(self).units@) == after_orders(
                units_view(old(self).units@),
                old(self).pending_orders@,
                paths_view(paths@),
                old(self).pending_orders@.len(),
            ),
            unit_ids(final(self).units@) == unit_ids(old(self).units@),
            final(self).resource_nodes@ == old(self).resource_nodes@,
            final(self).players@ == old(self).players@,
            final(self).gaia@ == old(self).gaia@,
            final(self).tick == old(self).tick,
            final(self).input_log@ == old(self).input_log@,
            final(self).next_unit_id == old(self).next_unit_id,
            final(self).next_node_id == old(self).next_node_id,
            final(self).next_gaia_id == old(self).next_gaia_id,
            final(self).wf() == old(self).wf(),
            same_setup(*final(self), *old(self)),
    {
        let mut orders: Vec<(UnitId, Order)> = Vec::new();
        std::mem::swap(&mut orders, &mut self.pending_orders);
        let ghost pv = paths_view(paths@);
        let ghost all = paths@;
        let ghost u0 = units_view(self.units@);
        let ghost ids0 = unit_ids(self.units@);
        let n: usize = paths.len();
        let mut k: usize = 0;
        for path in it: paths
            invariant
                k == it.index(),
                it.seq() == all,
                all.len() == n,
                pv == paths_view(all),
                all.len() == orders@.len(),
                orders@ == old(self).pending_orders@,
                self.pending_orders@.len() == 0,
                u0 == units_view(old(self).units@),
                ids0 == unit_ids(old(self).units@),
                units_view(self.units@) == after_orders(u0, orders@, pv, k as nat),
                unit_ids(self.units@) == ids0,
                self.resource_nodes@ == old(self).resource_nodes@,
                self.players@ == old(self).players@,
                self.gaia@ == old(self).gaia@,
                self.tick == old(self).tick,
                self.input_log@ == old(self).input_log@,
                self.next_unit_id == old(self).next_unit_id,
                self.next_node_id == old(self).next_node_id,
                self.next_gaia_id == old(self).next_gaia_id,
                self.pathfinder == old(self).pathfinder,
                self.rng == old(self).rng,
                self.config == old(self).config,
        {
            let (uid, order) = orders[k];
            proof {
                assert(path@ == pv[k as int]);
            }
            self.apply_order(uid, order, path);
            k = k + 1;
        }
    }

    /// Position of the first resource node with id `id`.
    fn node_index(&self, id: ResourceNodeId) -> (r: Option<usize>)
        ensures
            match r {
                Some(k) => k < self.resource_nodes@.len() && find_node(self.resource_nodes@, id) == Some(k as int),
                None => find_node(self.resource_nodes@, id) is None,
            },
    {
        let ghost p = node_is(id);
        let mut i: usize = 0;
        while i < self.resource_nodes.len()
            invariant
                p == node_is(id),
                i <= self.resource_nodes@.len(),
                forall|j: int| 0 <= j < i ==> !p(#[trigger] self.resource_nodes@[j]),
            decreases self.resource_nodes@.len() - i,
        {
            if self.resource_nodes[i].id == id {
                proof {
                    assert(p(self.resource_nodes@[i as int]));
                    lemma_first_index_at(self.resource_nodes@, p, i as int);
                }
                return Some(i);
            }
            i = i + 1;
        }
        proof {
            lemma_first_index_none(self.resource_nodes@, p);
        }
        None
    }

    /// Whether the first resource node with id `id` exists and still holds
    /// something.
    pub fn is_node_available(&self, id: ResourceNodeId) -> (r: bool)
        ensures
            r == node_available(self.resource_nodes@, id),
    {
        match self.node_index(id) {
            Some(k) => self.resource_nodes[k].amount != 0,
            None => false,
        }
    }

    /// Where the first resource node with id `id` stands, if there is one.
    pub fn node_pos(&self, id: ResourceNodeId) -> (r: Option<WorldPos>)
        ensures
            match find_node(self.resource_nodes@, id) {
                Some(k) => r == Some(self.resource_nodes@[k].pos),
                None => r is None,
            },
    {
        match self.node_index(id) {
            Some(k) => Some(self.resource_nodes[k].pos),
            None => None,
        }
    }

    /// One tick of unit `i` harvesting node `node_id` with `ticks_remaining`
    /// ticks to go. When the node is gone or depleted the unit goes idle.
    /// Otherwise it counts down; at zero it takes up to ten from the node,
    /// credits its owner (the player at index `owner`) with what it took,
    /// and heads back to base. Returns the unit's next behavior.
    pub fn harvest_tick(&mut self, i: usize, node_id: ResourceNodeId, ticks_remaining: u32) -> (b: BehaviorState)
        requires
            i < old(self).units@.len(),
            match find_node(old(self).resource_nodes@, node_id) {
                Some(k) => harvest_fits(old(self).players@, old(self).units@[i as int].owner, old(self).resource_nodes@[k]),
                None => true,
            },
        ensures
            !node_available(old(self).resource_nodes@, node_id) ==> {
                &&& b@ == BehaviorV::Idle
                &&& final(self).resource_nodes@ == old(self).resource_nodes@
                &&& final(self).players@ == old(self).players@
            },
            node_available(old(self).resource_nodes@, node_id) && ticks_remaining > 0 ==> {
                &&& b@ == (BehaviorV::Gathering {
                    node: node_id,
                    phase: GatherPhase::Harvesting { ticks_remaining: (ticks_remaining - 1) as u32 },
                })
                &&& final(self).resource_nodes@ == old(self).resource_nodes@
                &&& final(self).players@ == old(self).players@
            },
            node_available(old(self).resource_nodes@, node_id) && ticks_remaining == 0 ==> {
                let k = find_node(old(self).resource_nodes@, node_id)->0;
                let n = old(self).resource_nodes@[k];
                &&& b@ == (BehaviorV::Gathering { node: node_id, phase: GatherPhase::ReturningToBase })
                &&& final(self).resource_nodes@ == old(self).resource_nodes@.update(k, harvested_node(n))
                &&& final(self).players@ == paid_players(old(self).players@, old(self).units@[i as int].owner, n)
            },
            units_view(final(self).units@) == units_view(old(self).units@),
            final(self).units@ == old(self).units@,
            final(self).gaia@ == old(self).gaia@,
            final(self).tick == old(self).tick,
            final(self).pending_orders@ == old(self).pending_orders@,
            final(self).input_log@ == old(self).input_log@,
            final(self).next_unit_id == old(self).next_unit_id,
            final(self).next_node_id == old(self).next_node_id,
            final(self).next_gaia_id == old(self).next_gaia_id,
            old(self).wf() ==> final(self).wf(),
            same_setup(*final(self), *old(self)),
    {
        let k = match self.node_index(node_id) {
            Some(k) => k,
            None => {
                return BehaviorState::Idle;
            },
        };
        if self.resource_nodes[k].amount == 0 {
            return BehaviorState::Idle;
        }
        if ticks_remaining > 0 {
            return BehaviorState::Gathering {
                node: node_id,
                phase: GatherPhase::Harvesting { ticks_remaining: ticks_remaining - 1 },
            };
        }
        let mut node = self.resource_nodes[k];
        let kind = node.kind;
        let taken = node.harvest(HARVEST_AMOUNT);
        self.resource_nodes.set(k, node);
        let owner = self.units[i].owner as usize;
        if owner < self.players.len() {
            let mut p = self.players[owner];
            match kind {
                ResourceKind::Wood => {
                    p.wood = p.wood + taken;
                },
                ResourceKind::Stone => {
                    p.stone = p.stone + taken;
                },
            }
            self.players.set(owner, p);
        }
        proof {
            assert(node_ids(self.resource_nodes@) =~= node_ids(old(self).resource_nodes@));
        }
        BehaviorState::Gathering { node: node_id, phase: GatherPhase::ReturningToBase }
    }

    /// Drops dead units, keeping the living ones in order.
    pub fn remove_dead_units(&mut self)
        requires
            old(self).wf(),
        ensures
            final(self).wf(),
            units_view(final(self).units@) == units_view(old(self).units@).filter(|u: CUnitV| is_alive(u)),
            forall|i: int| 0 <= i < final(self).units@.len() ==> !(#[trigger] final(self).units@[i]).is_dead,
            final(self).resource_nodes@ == old(self).resource_nodes@,
            final(self).players@ == old(self).players@,
            final(self).gaia@ == old(self).gaia@,
            final(self).tick == old(self).tick,
            final(self).pending_orders@ == old(self).pending_orders@,
            final(self).input_log@ == old(self).input_log@,
            final(self).next_unit_id == old(self).next_unit_id,
            final(self).next_node_id == old(self).next_node_id,
            final(self).next_gaia_id == old(self).next_gaia_id,
            same_setup(*final(self), *old(self)),
    {
        let mut all: Vec<CUnit> = Vec::new();
        std::mem::swap(&mut all, &mut self.units);
        let ghost s0 = all@;
        let ghost alive = |u: CUnitV| is_alive(u);
        proof {
            assert(units_view(s0.take(0)) =~= seq![]);
            reveal(Seq::filter);
            assert(units_view(self.units@) =~= units_view(s0.take(0)).filter(alive));
            assert(unit_ids(self.units@) =~= seq![]);
        }
        for u in it: all
            invariant
                it.seq() == s0,
                s0 == old(self).units@,
                alive == (|u: CUnitV| is_alive(u)),
                units_view(self.units@) == units_view(s0.take(it.index() as int)).filter(alive),
                forall|i: int| 0 <= i < self.units@.len() ==> !(#[trigger] self.units@[i]).is_dead,
                ids_below(unit_ids(self.units@), self.next_unit_id),
                ids_below(unit_ids(s0), self.next_unit_id),
                forall|a: int, j: int|
                    0 <= a < self.units@.len() && it.index() <= j < s0.len() ==> #[trigger] self.units@[a].id
                        < #[trigger] s0[j].id,
                self.resource_nodes@ == old(self).resource_nodes@,
                self.players@ == old(self).players@,
                self.gaia@ == old(self).gaia@,
                self.tick == old(self).tick,
                self.pending_orders@ == old(self).pending_orders@,
                self.input_log@ == old(self).input_log@,
                self.next_unit_id == old(self).next_unit_id,
                self.next_node_id == old(self).next_node_id,
                self.next_gaia_id == old(self).next_gaia_id,
                self.pathfinder == old(self).pathfinder,
                self.rng == old(self).rng,
                self.config == old(self).config,
                ids_below(node_ids(self.resource_nodes@), self.next_node_id),
                ids_below(gaia_ids(self.gaia@), self.next_gaia_id),
                1 <= self.next_unit_id && 1 <= self.next_node_id && 1 <= self.next_gaia_id,
                self.pathfinder.wf(),
        {
            let ghost k = it.index() as int;
            let ghost before = self.units@;
            proof {
                assert(u == s0[k]);
                assert(s0.take(k + 1).drop_last() =~= s0.take(k));
                assert(units_view(s0.take(k + 1)).drop_last() =~= units_view(s0.take(k)));
                reveal(Seq::filter);
            }
            if !u.is_dead {
                self.units.push(u);
                proof {
                    assert(unit_ids(self.units@) =~= unit_ids(before).push(s0[k].id));
                    assert(unit_ids(s0)[k] == s0[k].id);
                    assert forall|a: int, j: int| 0 <= a < self.units@.len() && k + 1 <= j < s0.len()
                        implies #[trigger] self.units@[a].id < #[trigger] s0[j].id by {
                        assert(unit_ids(s0)[j] == s0[j].id);
                        if a < before.len() {
                            assert(self.units@[a] == before[a]);
                        }
                    }
                    assert(units_view(self.units@) =~= units_view(before).push(s0[k]@));
                    assert forall|j: int| 0 <= j < self.units@.len() implies !(#[trigger] self.units@[j]).is_dead by {
                        if j < before.len() {
                            assert(self.units@[j] == before[j]);
                        }
                    }
                }
            }
        }
        proof {
            assert(s0.take(s0.len() as int) =~= s0);
        }
    }

    /// The replay file of the input log: the entry count, then each entry's
    /// tick, player, unit and order, little-endian (see [`replay_bytes`]).
    pub fn replay_data(&self) -> (r: Vec<u8>)
        ensures
            r@ == replay_bytes(self.input_log@),
    {
        encode_replay(self.input_log.as_slice())
    }
}

} // verus!
