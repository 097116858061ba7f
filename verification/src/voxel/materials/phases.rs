//! Phases of matter.
use vstd::prelude::*;

verus! {

pub const SOLID: u8 = 0;
pub const LIQUID: u8 = 1;
pub const GAS: u8 = 2;
pub const PLASMA: u8 = 3;

} // verus!
