//! Buffers that hand chunks read by the background worker over to the main
//! loop: one for the active pool, one for the shadow pool.
use vstd::prelude::*;
use crate::voxel::format::Cell;
use crate::io::channels::SaveResponse;

verus! {

/// A loaded chunk of the active pool.
pub struct StagedChunk {
    pub slot: usize,
    pub grid_x: i64,
    pub grid_z: i64,
    pub data: Vec<Cell>,
    pub min_solid_y: u16,
    pub max_solid_y: u16,
    pub min_liquid_y: u16,
    pub max_liquid_y: u16,
}

/// A loaded chunk of the shadow pool.
pub struct ShadowStagedChunk {
    pub slot: usize,
    pub chunk_x: i64,
    pub chunk_z: i64,
    pub data: Vec<Cell>,
}

/// Buffer of the active pool.
pub struct ActiveStagingBuffer {
    pub loaded_chunks: Vec<StagedChunk>,
    pub saved_chunks: Vec<SaveResponse>,
}

impl ActiveStagingBuffer {
    /// Takes out every loaded chunk, in the order they were pushed.
    pub fn take_loaded(&mut self) -> (r: Vec<StagedChunk>)
        ensures
            r@ == old(self).loaded_chunks@,
            final(self).loaded_chunks@ == Seq::<StagedChunk>::empty(),
            final(self).saved_chunks@ == old(self).saved_chunks@,
    {
        let mut out: Vec<StagedChunk> = Vec::new();
        std::mem::swap(&mut out, &mut self.loaded_chunks);
        out
    }

    /// Takes out every save response, in the order they were pushed.
    pub fn take_saved(&mut self) -> (r: Vec<SaveResponse>)
        ensures
            r@ == old(self).saved_chunks@,
            final(self).saved_chunks@ == Seq::<SaveResponse>::empty(),
            final(self).loaded_chunks@ == old(self).loaded_chunks@,
    {
        let mut out: Vec<SaveResponse> = Vec::new();
        std::mem::swap(&mut out, &mut self.saved_chunks);
        out
    }

    pub fn push_loaded(&mut self, chunk: StagedChunk)
        ensures
            final(self).loaded_chunks@ == old(self).loaded_chunks@.push(chunk),
            final(self).saved_chunks@ == old(self).saved_chunks@,
    {
        self.loaded_chunks.push(chunk);
    }

    pub fn push_saved(&mut self, response: SaveResponse)
        ensures
            final(self).saved_chunks@ == old(self).saved_chunks@.push(response),
            final(self).loaded_chunks@ == old(self).loaded_chunks@,
    {
        self.saved_chunks.push(response);
    }
}

impl Default for ActiveStagingBuffer {
    fn default() -> (b: Self)
        ensures
            b.loaded_chunks@ == Seq::<StagedChunk>::empty(),
            b.saved_chunks@ == Seq::<SaveResponse>::empty(),
    {
        Self { loaded_chunks: Vec::new(), saved_chunks: Vec::new() }
    }
}

/// Buffer of the shadow pool.
pub struct ShadowStagingBuffer {
    pub loaded_chunks: Vec<ShadowStagedChunk>,
}

impl ShadowStagingBuffer {
    /// Takes out every loaded chunk, in the order they were pushed.
    pub fn take_loaded(&mut self) -> (r: Vec<ShadowStagedChunk>)
        ensures
            r@ == old(self).loaded_chunks@,
            final(self).loaded_chunks@ == Seq::<ShadowStagedChunk>::empty(),
    {
        let mut out: Vec<ShadowStagedChunk> = Vec::new();
        std::mem::swap(&mut out, &mut self.loaded_chunks);
        out
    }

    pub fn push_loaded(&mut self, chunk: ShadowStagedChunk)
        ensures
            final(self).loaded_chunks@ == old(self).loaded_chunks@.push(chunk),
    {
        self.loaded_chunks.push(chunk);
    }
}

impl Default for ShadowStagingBuffer {
    fn default() -> (b: Self)
        ensures
            b.loaded_chunks@ == Seq::<ShadowStagedChunk>::empty(),
    {
        Self { loaded_chunks: Vec::new() }
    }
}

} // verus!
