//! Reader for the MDX binary model format.

pub mod format;
pub mod mesh;
pub mod parser;
pub mod rig;
pub mod types;
