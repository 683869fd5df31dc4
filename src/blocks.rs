use vstd::prelude::*;

use crate::chunk::{DIRT, GRASS};

verus! {

/// The empty block.
#[derive(Debug, Clone, Copy, PartialEq, Eq, Structural)]
pub struct AirBlock;

/// Dirt: solid terrain below the surface.
#[derive(Debug, Clone, Copy, PartialEq, Eq, Structural)]
pub struct DirtBlock;

/// Grass: the solid terrain cell at the surface.
#[derive(Debug, Clone, Copy, PartialEq, Eq, Structural)]
pub struct GrassBlock {
    pub is_snowy: bool,
}

impl AirBlock {
    /// Block ID of air.
    pub fn id(&self) -> (r: u8)
        ensures
            r == 0,
    {
        0
    }
}

impl DirtBlock {
    /// Block ID of dirt.
    pub fn id(&self) -> (r: u8)
        ensures
            r == DIRT,
    {
        DIRT
    }
}

impl GrassBlock {
    /// Block ID of grass.
    pub fn id(&self) -> (r: u8)
        ensures
            r == GRASS,
    {
        GRASS
    }
}

} // verus!
