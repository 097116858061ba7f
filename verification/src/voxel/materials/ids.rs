//! Material ids.
use vstd::prelude::*;

verus! {

pub const AIR: u16 = 0;
pub const BEDROCK: u16 = 1;
pub const STONE: u16 = 2;
pub const DIRT: u16 = 3;
pub const GRASS: u16 = 4;
pub const WATER: u16 = 5;
pub const CLAY: u16 = 6;

} // verus!
