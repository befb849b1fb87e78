//! Deterministic core of a small real-time-strategy game: integer simulation
//! state, grid pathfinding, replay encoding, the MDX model-format reader and
//! the asset data-source layer. Floating-point geometry is not computed here:
//! coordinates travel through the library as IEEE-754 bit patterns.

pub mod anim;
pub mod bridge;
pub mod building;
pub mod config;
pub mod datasource;
pub mod formation;
pub mod frontend;
pub mod image;
pub mod gaia;
pub mod lookup;
pub mod material;
pub mod orders;
pub mod player;
pub mod replay;
pub mod resource_node;
pub mod unit;
pub mod world;
pub mod pathfinding;
pub mod rng;
pub mod simulation;
pub mod team_color;
pub mod text;
pub mod mdx;

