use vstd::prelude::*;

verus! {

/// Settings a simulation is built from. Rates are per tick (20 ticks per
/// second). The fields `tile_size`, `tick_rate`, `supply_drain_per_tick`,
/// `hp_drain_per_tick`, `auto_heal_per_tick` and `supply_range` hold bit
/// patterns of `f32` values.
#[derive(Clone, Copy, Debug)]
pub struct SimConfig {
    /// Map width in tiles.
    pub map_width: u32,
    /// Map height in tiles.
    pub map_height: u32,
    /// World units per tile (the pathfinding cell size).
    pub tile_size: u32,
    /// Ticks per second.
    pub tick_rate: u32,
    /// Supply drained per tick inside supply range.
    pub supply_drain_per_tick: u32,
    /// Hit points drained per tick outside supply range.
    pub hp_drain_per_tick: u32,
    /// Hit points healed per tick while supplied.
    pub auto_heal_per_tick: u32,
    /// Radius around the depot within which units are supplied.
    pub supply_range: u32,
    /// Seed of every random event.
    pub seed: u64,
}

/// Bit pattern of `2.0f32`: two world units per tile.
pub const DEFAULT_TILE_SIZE: u32 = 0x4000_0000;

/// Bit pattern of `20.0f32`.
pub const DEFAULT_TICK_RATE: u32 = 0x41a0_0000;

/// Bit pattern of `1.0f32 / 200.0`: one unit per 10 s at 20 ticks per second.
pub const DEFAULT_DRAIN: u32 = 0x3ba3_d70a;

/// Bit pattern of `3.0f32 / 200.0`: three times the supply drain.
pub const DEFAULT_HP_DRAIN: u32 = 0x3c75_c28f;

/// Bit pattern of `20.0f32`.
pub const DEFAULT_SUPPLY_RANGE: u32 = 0x41a0_0000;

/// Seed of the default configuration.
pub const DEFAULT_SEED: u64 = 12345;

impl Default for SimConfig {
    /// A 64 × 64 map of 2-unit tiles at 20 ticks per second, supply draining
    /// 1/200 per tick, hit points draining 3/200 and healing 1/200 per tick,
    /// a supply range of 20 and seed 12345.
    fn default() -> (c: Self)
        ensures
            c.map_width == 64,
            c.map_height == 64,
            c.tile_size == DEFAULT_TILE_SIZE,
            c.tick_rate == DEFAULT_TICK_RATE,
            c.supply_drain_per_tick == DEFAULT_DRAIN,
            c.hp_drain_per_tick == DEFAULT_HP_DRAIN,
            c.auto_heal_per_tick == DEFAULT_DRAIN,
            c.supply_range == DEFAULT_SUPPLY_RANGE,
            c.seed == DEFAULT_SEED,
    {
        SimConfig {
            map_width: 64,
            map_height: 64,
            tile_size: DEFAULT_TILE_SIZE,
            tick_rate: DEFAULT_TICK_RATE,
            supply_drain_per_tick: DEFAULT_DRAIN,
            hp_drain_per_tick: DEFAULT_HP_DRAIN,
            auto_heal_per_tick: DEFAULT_DRAIN,
            supply_range: DEFAULT_SUPPLY_RANGE,
            seed: DEFAULT_SEED,
        }
    }
}

} // verus!
