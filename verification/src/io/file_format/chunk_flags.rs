//! Bits of `ChunkHeader::flags`.
use vstd::prelude::*;

verus! {

pub const COMPRESSED: u16 = 0x0001;
pub const DIRTY: u16 = 0x0002;
pub const EMPTY: u16 = 0x0004;

} // verus!
