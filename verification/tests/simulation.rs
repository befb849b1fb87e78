use game_core::bridge::SimBridge;
use game_core::config::SimConfig;
use game_core::gaia::{decide, GaiaBehavior, GaiaStep, TargetState};
use game_core::orders::Order;
use game_core::pathfinding::GridPathfinder;
use game_core::player::CPlayer;
use game_core::resource_node::{CResourceNode, ResourceKind};
use game_core::rng::DeterministicRng;
use game_core::simulation::{CSimulation, StartLayout};
use game_core::unit::{advance_waypoint, gather_walk, BehaviorState, CUnit, GatherPhase, GatherWalk, HARVEST_TICKS};
use game_core::world::WorldPos;

fn pos(x: f32, y: f32) -> WorldPos {
    WorldPos::new(x.to_bits(), y.to_bits())
}

/// A default simulation with player 0 and ten workers, as a game starts.
fn started_sim() -> CSimulation {
    let mut sim = CSimulation::with_config(SimConfig::default());
    sim.players.push(CPlayer::new(0));
    for i in 0..10 {
        sim.spawn_unit(0, pos(64.0 + i as f32, 64.0));
    }
    sim
}

#[test]
fn input_log_records_orders() {
    let mut sim = started_sim();

    let first_id = sim.iter_units()[0].id;
    sim.issue_order(first_id, Order::Stop);
    sim.issue_order(first_id, Order::Move { target: pos(50.0, 50.0) });

    assert_eq!(sim.input_log.len(), 2, "Two orders should be in the log");
    assert_eq!(sim.input_log[0].unit, first_id);
    assert_eq!(sim.input_log[1].unit, first_id);
}

#[test]
fn tick_counter_increments() {
    let mut sim = CSimulation::with_config(SimConfig::default());
    assert_eq!(sim.tick, 0);

    for i in 1..=50 {
        sim.advance_tick();
        assert_eq!(sim.tick, i);
    }
}

#[test]
fn rng_is_deterministic() {
    let mut a = DeterministicRng::new(999);
    let mut b = DeterministicRng::new(999);

    for _ in 0..1000 {
        let va = a.next_unit_bits();
        let vb = b.next_unit_bits();
        assert_eq!(va, vb, "RNG should be deterministic for the same seed");
    }
}

#[test]
fn pathfinder_finds_path_on_open_grid() {
    let pf = GridPathfinder::new(16, 16, 2.0f32.to_bits());
    // World points (1, 1) and (25, 25) lie in cells (0, 0) and (12, 12).
    let path = pf.find_path_cells((0, 0), (12, 12));
    assert!(!path.is_empty(), "Should find a path on an open grid");
}

#[test]
fn rng_first_output_matches_lcg() {
    let mut r = DeterministicRng::new(0);
    assert_eq!(r.next_u64(), 1442695040888963407);
    let mut s = DeterministicRng::new(1);
    assert_eq!(s.next_u64(), 6364136223846793005u64.wrapping_add(1442695040888963407));
}

#[test]
fn rng_unit_bits_are_top_24_bits() {
    let mut r = DeterministicRng::new(42);
    let mut c = DeterministicRng::new(42);
    let full = c.next_u64();
    assert_eq!(r.next_unit_bits() as u64, full >> 40);
}

#[test]
fn spawned_ids_count_up_from_one() {
    let mut sim = CSimulation::with_config(SimConfig::default());
    assert_eq!(sim.spawn_unit(0, pos(1.0, 1.0)), 1);
    assert_eq!(sim.spawn_unit(1, pos(2.0, 2.0)), 2);
    assert_eq!(sim.spawn_resource_node(ResourceKind::Wood, pos(3.0, 3.0), 500), 1);
    assert_eq!(sim.spawn_gaia(pos(20.0, 20.0), pos(20.0, 20.0), 50.0f32.to_bits()), 1);
    assert_eq!(sim.units.len(), 2);
    assert_eq!(sim.get_unit(2).unwrap().owner, 1);
    assert!(sim.get_unit(3).is_none());
    assert_eq!(sim.resource_nodes[0].max_amount, 500);
    assert_eq!(sim.gaia[0].behavior, GaiaBehavior::Roaming { waypoint: pos(20.0, 20.0), idle_ticks: 100 });
}

#[test]
fn new_unit_is_idle_with_full_health() {
    let u = CUnit::new(7, 3, pos(1.5, 2.5));
    assert_eq!(u.id, 7);
    assert_eq!(u.owner, 3);
    assert_eq!(f32::from_bits(u.hp), 100.0);
    assert_eq!(f32::from_bits(u.max_hp), 100.0);
    assert_eq!(f32::from_bits(u.supply), 10.0);
    assert_eq!(f32::from_bits(u.facing), 0.0);
    assert!(!u.is_dead);
    assert!(matches!(u.behavior, BehaviorState::Idle));
}

#[test]
fn default_config_values() {
    let c = SimConfig::default();
    assert_eq!(c.map_width, 64);
    assert_eq!(c.map_height, 64);
    assert_eq!(f32::from_bits(c.tile_size), 2.0);
    assert_eq!(f32::from_bits(c.tick_rate), 20.0);
    assert_eq!(f32::from_bits(c.supply_drain_per_tick), 1.0 / 200.0);
    assert_eq!(f32::from_bits(c.hp_drain_per_tick), 3.0 / 200.0);
    assert_eq!(f32::from_bits(c.auto_heal_per_tick), 1.0 / 200.0);
    assert_eq!(f32::from_bits(c.supply_range), 20.0);
    assert_eq!(c.seed, 12345);
}

#[test]
fn new_player_stock() {
    let p = CPlayer::new(4);
    assert_eq!((p.id, p.wood, p.stone, p.food), (4, 100, 0, 10));
    assert!(p.supply_depot.is_none());
}

#[test]
fn harvest_takes_at_most_what_is_left() {
    let mut n = CResourceNode::new(1, ResourceKind::Stone, pos(0.0, 0.0), 15);
    assert_eq!(n.harvest(10), 10);
    assert_eq!(n.amount, 5);
    assert!(!n.is_depleted());
    assert_eq!(n.harvest(10), 5);
    assert_eq!(n.amount, 0);
    assert!(n.is_depleted());
    assert_eq!(n.harvest(10), 0);
    assert_eq!(n.max_amount, 15);
}

#[test]
fn player_resources_of_missing_player_are_zero() {
    let sim = started_sim();
    assert_eq!(sim.player_resources(0), (100, 0));
    assert_eq!(sim.player_resources(5), (0, 0));
}

#[test]
fn issue_order_stamps_owner_and_tick() {
    let mut sim = CSimulation::with_config(SimConfig::default());
    let a = sim.spawn_unit(2, pos(0.0, 0.0));
    sim.advance_tick();
    sim.advance_tick();
    sim.issue_order(a, Order::Gather { node: 9 });
    sim.issue_order(99, Order::Stop);
    assert_eq!(sim.input_log[0].tick, 2);
    assert_eq!(sim.input_log[0].player, 2);
    assert_eq!(sim.input_log[0].order, Order::Gather { node: 9 });
    assert_eq!(sim.input_log[1].player, 0);
    assert_eq!(sim.pending_orders, vec![(a, Order::Gather { node: 9 }), (99, Order::Stop)]);
}

#[test]
fn pending_orders_set_behaviors() {
    let mut sim = started_sim();
    sim.issue_order(1, Order::Move { target: pos(10.0, 10.0) });
    sim.issue_order(2, Order::Gather { node: 4 });
    sim.issue_order(3, Order::Attack { target: 1 });
    sim.issue_order(1, Order::Stop);
    let paths = vec![vec![pos(9.0, 9.0), pos(10.0, 10.0)], vec![], vec![], vec![]];
    sim.apply_pending_orders(paths);
    assert!(sim.pending_orders.is_empty());
    assert!(matches!(sim.units[0].behavior, BehaviorState::Idle));
    assert!(matches!(sim.units[1].behavior, BehaviorState::Gathering { node: 4, phase: GatherPhase::MovingToNode }));
    match &sim.units[2].behavior {
        BehaviorState::Attacking { target, cooldown } => {
            assert_eq!(*target, 1);
            assert_eq!(f32::from_bits(*cooldown), 0.0);
        }
        _ => panic!("unit 3 should be attacking"),
    }
}

#[test]
fn move_order_keeps_path() {
    let mut sim = started_sim();
    sim.apply_order(4, Order::AttackMove { target: pos(5.0, 6.0) }, vec![pos(1.0, 1.0)]);
    match &sim.units[3].behavior {
        BehaviorState::MovingTo { target, path, path_idx } => {
            assert_eq!(*target, pos(5.0, 6.0));
            assert_eq!(path, &vec![pos(1.0, 1.0)]);
            assert_eq!(*path_idx, 0);
        }
        _ => panic!("unit 4 should be moving"),
    }
}

#[test]
fn orders_for_dead_units_are_ignored() {
    let mut sim = started_sim();
    sim.units[0].is_dead = true;
    sim.apply_order(1, Order::Gather { node: 1 }, vec![]);
    assert!(matches!(sim.units[0].behavior, BehaviorState::Idle));
}

#[test]
fn harvest_cycle_moves_stock_to_owner() {
    let mut sim = started_sim();
    let node = sim.spawn_resource_node(ResourceKind::Wood, pos(70.0, 70.0), 15);
    assert!(sim.is_node_available(node));
    assert_eq!(sim.node_pos(node), Some(pos(70.0, 70.0)));

    let b = sim.harvest_tick(0, node, HARVEST_TICKS);
    assert!(matches!(b, BehaviorState::Gathering { phase: GatherPhase::Harvesting { ticks_remaining: 39 }, .. }));
    assert_eq!(sim.player_resources(0), (100, 0));

    let b = sim.harvest_tick(0, node, 0);
    assert!(matches!(b, BehaviorState::Gathering { phase: GatherPhase::ReturningToBase, .. }));
    assert_eq!(sim.player_resources(0), (110, 0));
    assert_eq!(sim.resource_nodes[0].amount, 5);

    sim.harvest_tick(1, node, 0);
    assert_eq!(sim.player_resources(0), (115, 0));
    assert!(!sim.is_node_available(node));

    let b = sim.harvest_tick(2, node, 0);
    assert!(matches!(b, BehaviorState::Idle));
    assert_eq!(sim.player_resources(0), (115, 0));
}

#[test]
fn stone_goes_to_stone_stock() {
    let mut sim = started_sim();
    let node = sim.spawn_resource_node(ResourceKind::Stone, pos(1.0, 1.0), 400);
    sim.harvest_tick(0, node, 0);
    assert_eq!(sim.player_resources(0), (100, 10));
    assert_eq!(sim.resource_nodes[0].amount, 390);
}

#[test]
fn dead_units_are_removed_in_order() {
    let mut sim = started_sim();
    sim.units[1].is_dead = true;
    sim.units[4].is_dead = true;
    sim.remove_dead_units();
    let ids: Vec<u32> = sim.units.iter().map(|u| u.id).collect();
    assert_eq!(ids, vec![1, 3, 4, 6, 7, 8, 9, 10]);
    assert_eq!(sim.spawn_unit(0, pos(0.0, 0.0)), 11);
}

#[test]
fn living_unit_position() {
    let mut sim = started_sim();
    assert_eq!(sim.living_unit_pos(3), Some(pos(66.0, 64.0)));
    sim.units[2].is_dead = true;
    assert_eq!(sim.living_unit_pos(3), None);
    assert_eq!(sim.living_unit_pos(42), None);
}

#[test]
fn replay_layout() {
    let mut sim = CSimulation::with_config(SimConfig::default());
    let u = sim.spawn_unit(1, pos(0.0, 0.0));
    sim.advance_tick();
    sim.issue_order(u, Order::Stop);
    sim.issue_order(u, Order::Move { target: pos(1.0, 2.0) });
    sim.issue_order(u, Order::Gather { node: 0x0102_0304 });
    sim.issue_order(u, Order::Attack { target: 5 });
    sim.issue_order(u, Order::AttackMove { target: pos(3.0, 4.0) });
    let bytes = sim.replay_data();

    let mut expected: Vec<u8> = vec![5, 0, 0, 0];
    let head = |e: &mut Vec<u8>| {
        e.extend_from_slice(&1u64.to_le_bytes());
        e.push(1);
        e.extend_from_slice(&1u32.to_le_bytes());
    };
    head(&mut expected);
    expected.push(0);
    head(&mut expected);
    expected.push(1);
    expected.extend_from_slice(&1.0f32.to_le_bytes());
    expected.extend_from_slice(&2.0f32.to_le_bytes());
    head(&mut expected);
    expected.extend_from_slice(&[2, 4, 3, 2, 1]);
    head(&mut expected);
    expected.extend_from_slice(&[3, 5, 0, 0, 0]);
    head(&mut expected);
    expected.push(4);
    expected.extend_from_slice(&3.0f32.to_le_bytes());
    expected.extend_from_slice(&4.0f32.to_le_bytes());
    assert_eq!(bytes, expected);
}

#[test]
fn empty_replay_is_a_zero_count() {
    let sim = CSimulation::with_config(SimConfig::default());
    assert_eq!(sim.replay_data(), vec![0, 0, 0, 0]);
}

#[test]
fn gaia_decisions() {
    let roam = GaiaBehavior::Roaming { waypoint: pos(0.0, 0.0), idle_ticks: 5 };
    assert_eq!(decide(roam, Some(3), false, TargetState::Gone), GaiaStep::Chase { target: 3 });
    assert_eq!(decide(roam, None, false, TargetState::Gone), GaiaStep::Roam { idle_ticks: 4 });
    assert_eq!(decide(roam, None, true, TargetState::Gone), GaiaStep::NewWaypoint);
    let waited = GaiaBehavior::Roaming { waypoint: pos(0.0, 0.0), idle_ticks: 0 };
    assert_eq!(decide(waited, None, false, TargetState::Gone), GaiaStep::NewWaypoint);

    let chase = GaiaBehavior::Chasing { target: 8 };
    assert_eq!(decide(chase, None, false, TargetState::Gone), GaiaStep::Return);
    assert_eq!(decide(chase, None, false, TargetState::BeyondLeash), GaiaStep::Return);
    assert_eq!(decide(chase, None, false, TargetState::OutOfReach), GaiaStep::Pursue);
    assert_eq!(decide(chase, None, false, TargetState::InReach), GaiaStep::StartAttack { target: 8 });

    let attack = GaiaBehavior::Attacking { target: 8, cooldown: 0 };
    assert_eq!(decide(attack, None, false, TargetState::InReach), GaiaStep::Strike);
    assert_eq!(decide(attack, None, false, TargetState::OutOfReach), GaiaStep::ResumeChase { target: 8 });
    assert_eq!(decide(attack, None, false, TargetState::Gone), GaiaStep::Return);

    assert_eq!(decide(GaiaBehavior::Returning, None, true, TargetState::Gone), GaiaStep::Settle);
    assert_eq!(decide(GaiaBehavior::Returning, Some(1), false, TargetState::Gone), GaiaStep::HeadHome);
}

#[test]
fn waypoints_advance_to_the_end() {
    assert_eq!(advance_waypoint(3, 0, false), Some(0));
    assert_eq!(advance_waypoint(3, 0, true), Some(1));
    assert_eq!(advance_waypoint(3, 2, true), None);
}

#[test]
fn blocked_goal_has_no_path() {
    let mut pf = GridPathfinder::new(8, 8, 2.0f32.to_bits());
    pf.set_blocked_cell((5, 5), true);
    assert!(!pf.is_passable_cell((5, 5)));
    assert!(pf.find_path_cells((0, 0), (5, 5)).is_empty());
    assert!(pf.find_path_cells((0, 0), (8, 0)).is_empty());
    assert_eq!(pf.find_path_cells((2, 2), (2, 2)), vec![(2, 2)]);
}

#[test]
fn path_is_a_walk_to_the_goal() {
    let pf = GridPathfinder::new(10, 10, 1.0f32.to_bits());
    let path = pf.find_path_cells((0, 0), (3, 7));
    assert_eq!(*path.last().unwrap(), (3, 7));
    let mut prev = (0u32, 0u32);
    for c in &path {
        let dx = (c.0 as i64 - prev.0 as i64).abs();
        let dy = (c.1 as i64 - prev.1 as i64).abs();
        assert!(dx <= 1 && dy <= 1 && (dx, dy) != (0, 0));
        prev = *c;
    }
    assert_eq!(path.len(), 7);
}

#[test]
fn walled_off_goal_is_unreachable() {
    let mut pf = GridPathfinder::new(5, 5, 1.0f32.to_bits());
    for y in 0..5 {
        pf.set_blocked_cell((2, y), true);
    }
    assert!(pf.find_path_cells((0, 0), (4, 4)).is_empty());
    pf.set_blocked_cell((2, 4), false);
    let path = pf.find_path_cells((0, 0), (4, 4));
    assert!(path.contains(&(2, 4)));
}

fn step(a: (u32, u32), b: (u32, u32)) -> u64 {
    if a.0 != b.0 && a.1 != b.1 {
        23_726_566
    } else {
        16_777_216
    }
}

/// Cheapest walk cost by plain Dijkstra over the grid, for comparison.
fn dijkstra(pf: &GridPathfinder, start: (u32, u32), goal: (u32, u32)) -> Option<u64> {
    let (w, h) = (pf.width as i64, pf.height as i64);
    let mut dist = vec![u64::MAX; (w * h) as usize];
    let mut done = vec![false; (w * h) as usize];
    dist[(start.1 as i64 * w + start.0 as i64) as usize] = 0;
    loop {
        let mut best: Option<usize> = None;
        for i in 0..dist.len() {
            if !done[i] && dist[i] != u64::MAX && best.map_or(true, |b| dist[i] < dist[b]) {
                best = Some(i);
            }
        }
        let Some(b) = best else { break };
        done[b] = true;
        let c = ((b as i64 % w) as u32, (b as i64 / w) as u32);
        for dx in -1i64..=1 {
            for dy in -1i64..=1 {
                let (nx, ny) = (c.0 as i64 + dx, c.1 as i64 + dy);
                if (dx, dy) == (0, 0) || nx < 0 || ny < 0 || nx >= w || ny >= h {
                    continue;
                }
                let n = (nx as u32, ny as u32);
                if !pf.is_passable_cell(n) {
                    continue;
                }
                let ni = (ny * w + nx) as usize;
                let nd = dist[b] + step(c, n);
                if nd < dist[ni] {
                    dist[ni] = nd;
                }
            }
        }
    }
    let g = dist[(goal.1 as i64 * w + goal.0 as i64) as usize];
    if g == u64::MAX { None } else { Some(g) }
}

#[test]
fn path_cost_is_minimal() {
    let mut pf = GridPathfinder::new(12, 9, 1.0f32.to_bits());
    for y in 0..7 {
        pf.set_blocked_cell((4, y), true);
    }
    for y in 2..9 {
        pf.set_blocked_cell((8, y), true);
    }
    pf.set_blocked_cell((6, 4), true);
    for (start, goal) in [((0, 0), (11, 8)), ((1, 8), (10, 0)), ((5, 5), (0, 3)), ((11, 0), (0, 8))] {
        let path = pf.find_path_cells(start, goal);
        let best = dijkstra(&pf, start, goal).expect("reachable");
        let mut cost = 0u64;
        let mut prev = start;
        for &c in &path {
            cost += step(prev, c);
            prev = c;
        }
        assert_eq!(prev, goal);
        assert_eq!(cost, best);
    }
}

#[test]
fn bridge_queries_without_and_with_simulation() {
    let mut b = SimBridge::init();
    assert!(b.get_unit_ids().is_empty());
    assert_eq!(b.get_unit_count(), 0);
    assert_eq!(b.get_wood(), 0);
    assert_eq!(b.get_resource_amount(1), -1);
    b.issue_gather_order(1, 1);
    assert!(b.simulation_ref().is_none());

    let mut sim = started_sim();
    sim.spawn_resource_node(ResourceKind::Wood, pos(1.0, 1.0), 0);
    sim.spawn_resource_node(ResourceKind::Stone, pos(2.0, 2.0), 400);
    sim.spawn_resource_node(ResourceKind::Wood, pos(3.0, 3.0), 7);
    sim.units[0].is_dead = true;
    sim.units[9].is_dead = true;
    b.set_simulation(sim);
    assert_eq!(b.get_unit_ids(), vec![2, 3, 4, 5, 6, 7, 8, 9]);
    assert_eq!(b.get_unit_count(), 8);
    assert_eq!((b.get_wood(), b.get_stone()), (100, 0));
    assert_eq!(b.get_resource_kinds(), vec![2, 1]);
    assert_eq!(b.get_resource_amount(2), 400);
    assert_eq!(b.get_resource_amount(1), -1);
    assert_eq!(b.get_resource_amount(9), -1);
    b.issue_attack_order(2, 5);
    b.issue_move_order(3, pos(4.0, 4.0));
    let log = &b.simulation_ref().as_ref().unwrap().input_log;
    assert_eq!(log.len(), 2);
    assert_eq!(log[0].order, Order::Attack { target: 5 });
    assert_eq!(log[1].order, Order::Move { target: pos(4.0, 4.0) });
}

#[test]
fn new_game_places_players_workers_nodes_and_wolf() {
    let depot = pos(64.0, 64.0);
    let mut workers = [depot; 10];
    for (i, w) in workers.iter_mut().enumerate() {
        *w = pos(60.0 + i as f32, 64.0);
    }
    let layout = StartLayout {
        depot,
        workers,
        wood: [pos(79.0, 69.0), pos(49.0, 59.0), pos(69.0, 84.0)],
        stone: pos(59.0, 79.0),
        wolf_center: pos(20.0, 20.0),
    };
    let sim = CSimulation::new(SimConfig::default(), layout);
    assert_eq!(sim.tick, 0);
    assert_eq!(sim.players.len(), 1);
    assert_eq!(sim.players[0].supply_depot, Some(depot));
    assert_eq!((sim.players[0].wood, sim.players[0].stone, sim.players[0].food), (100, 0, 10));
    let ids: Vec<u32> = sim.units.iter().map(|u| u.id).collect();
    assert_eq!(ids, (1..=10).collect::<Vec<u32>>());
    assert_eq!(sim.units[3].pos, pos(63.0, 64.0));
    let amounts: Vec<(u32, u32)> = sim.resource_nodes.iter().map(|n| (n.id, n.amount)).collect();
    assert_eq!(amounts, vec![(1, 500), (2, 500), (3, 300), (4, 400)]);
    assert_eq!(sim.resource_nodes[3].kind, ResourceKind::Stone);
    assert_eq!(sim.gaia.len(), 1);
    assert_eq!(sim.gaia[0].pos, pos(20.0, 20.0));
    assert_eq!(f32::from_bits(sim.gaia[0].territory_radius), 50.0);
    assert_eq!((sim.next_unit_id, sim.next_node_id, sim.next_gaia_id), (11, 5, 2));
}

#[test]
fn gather_walk_decides_phase_changes() {
    assert_eq!(gather_walk(false, false, true, true), GatherWalk::GiveUp);
    assert_eq!(gather_walk(false, true, false, false), GatherWalk::KeepWalking);
    assert_eq!(gather_walk(false, true, false, true), GatherWalk::StartHarvest);
    assert_eq!(gather_walk(true, true, false, true), GatherWalk::GiveUp);
    assert_eq!(gather_walk(true, true, true, false), GatherWalk::KeepWalking);
    assert_eq!(gather_walk(true, true, true, true), GatherWalk::HeadToNode);
    assert_eq!(gather_walk(true, false, true, false), GatherWalk::GiveUp);
}
