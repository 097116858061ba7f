//! Requests to the background I/O worker and its responses.
use vstd::prelude::*;
use crate::voxel::format::Cell;

verus! {

/// Request to load a chunk into the active pool.
#[derive(Clone, Debug)]
pub struct LoadRequest {
    pub slot: usize,
    pub chunk_x: usize,
    pub chunk_z: usize,
    pub priority: u32,
}

/// Response to a load of a chunk into the active pool.
#[derive(Clone, Debug)]
pub struct LoadResponse {
    pub slot: usize,
    pub data: Vec<Cell>,
    pub min_solid_y: u16,
    pub max_solid_y: u16,
    pub min_liquid_y: u16,
    pub max_liquid_y: u16,
    pub success: bool,
}

/// Request to save a chunk of the active pool.
#[derive(Clone, Debug)]
pub struct SaveRequest {
    pub slot: usize,
    pub chunk_x: usize,
    pub chunk_z: usize,
    pub data: Vec<Cell>,
}

/// Response to a save of a chunk of the active pool.
#[derive(Clone, Debug)]
pub struct SaveResponse {
    pub slot: usize,
    pub success: bool,
}

/// Request to load a chunk into the shadow pool.
#[derive(Clone, Debug)]
pub struct ShadowLoadRequest {
    pub slot: usize,
    pub chunk_x: usize,
    pub chunk_z: usize,
}

/// Response to a load of a chunk into the shadow pool.
#[derive(Clone, Debug)]
pub struct ShadowLoadResponse {
    pub slot: usize,
    pub chunk_x: i64,
    pub chunk_z: i64,
    pub data: Vec<Cell>,
    pub success: bool,
}

} // verus!
