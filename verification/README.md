# game_core

The deterministic core of a small real-time-strategy game, written in Verus:
every function in `src/` carries a contract that the verifier proves.

## Layout

- `src/simulation.rs` – the game state (units, resource nodes, players,
  wild creatures), unit spawning with fresh ids, the order queue and input
  log, order application, harvesting and removal of dead units.
- `src/pathfinding.rs` – 8-directional A* on a grid; proved to return a
  cheapest walk whenever one exists, and nothing otherwise.
- `src/replay.rs` – the replay file layout, with a proof that a replay file
  reads back as the input log it was written from.
- `src/rng.rs` – the deterministic linear congruential generator.
- `src/gaia.rs`, `src/unit.rs`, `src/resource_node.rs`, `src/player.rs`,
  `src/orders.rs`, `src/config.rs`, `src/formation.rs` – entities, their
  decisions and formation slots.
- `src/mdx/` – the MDX model reader (byte-level specification in
  `format.rs`, reader in `parser.rs`) and the mesh, skeleton and animation
  helpers built on it.
- `src/datasource.rs`, `src/team_color.rs`, `src/material.rs`,
  `src/frontend.rs`, `src/anim.rs`, `src/bridge.rs`, `src/image.rs` – asset
  lookup, animation choice by name, and the data the front ends exchange
  with the simulation.
- `app/` – the floating-point half of each tick (movement, combat, supply,
  creature motion), world/grid conversions, file output, the MPQ-archive
  data source and BLP decoding.

Floating-point values never enter the verified library: positions, hit
points and other real quantities travel through it as `f32` bit patterns.
