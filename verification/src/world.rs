use vstd::prelude::*;

verus! {

/// A point on the map in world units. Each coordinate is held as the bit
/// pattern of an IEEE-754 single-precision number (`f32::to_bits`); the
/// library moves points around and serialises them but never does geometry
/// on them.
#[derive(Clone, Copy, Debug, PartialEq, Eq, Structural)]
pub struct WorldPos {
    pub x: u32,
    pub y: u32,
}

impl WorldPos {
    /// The point whose coordinates have the given bit patterns.
    pub fn new(x: u32, y: u32) -> (p: Self)
        ensures
            p.x == x,
            p.y == y,
    {
        WorldPos { x, y }
    }
}

} // verus!
