//! Queue of mesh updates for the renderer.
use vstd::prelude::*;
use super::small_vec::{MeshEventVec, mesh_event_items, mesh_events_new, mesh_events_push, mesh_events_clear,
    mesh_events_is_empty, mesh_events_to_vec, mesh_events_len, push_length_limit};

verus! {

/// Kind of a mesh update.
#[derive(Clone, Copy, Debug, PartialEq, Eq, Structural)]
pub enum MeshUpdateKind {
    ChunkLoaded,
    ChunkDirty,
    ChunkUnloaded,
    ShadowChunkLoaded,
    ShadowChunkUnloaded,
}

/// Where the renderer reads a chunk from.
#[derive(Clone, Copy, Debug, PartialEq, Eq, Structural)]
pub enum RenderSource {
    Active,
    Shadow,
}

/// A mesh update.
#[derive(Clone, Copy, Debug)]
pub struct MeshUpdateEvent {
    pub kind: MeshUpdateKind,
    pub source: RenderSource,
    pub slot_index: usize,
    pub grid_x: i64,
    pub grid_z: i64,
    pub dirty_subchunks: u64,
}

/// Queue of mesh updates.
pub struct MeshUpdateQueue {
    pub events: MeshEventVec,
}

impl View for MeshUpdateQueue {
    type V = Seq<MeshUpdateEvent>;

    /// The queued updates, oldest first.
    open spec fn view(&self) -> Seq<MeshUpdateEvent> {
        mesh_event_items(self.events)
    }
}

impl MeshUpdateQueue {
    /// The number of queued items.
    pub fn len(&self) -> (r: usize)
        ensures
            r == self@.len(),
    {
        mesh_events_len(&self.events)
    }

    pub fn push(&mut self, event: MeshUpdateEvent)
        requires
            old(self)@.len() < push_length_limit(),
        ensures
            final(self)@ == old(self)@.push(event),
    {
        mesh_events_push(&mut self.events, event);
    }

    pub fn clear(&mut self)
        ensures
            final(self)@ == Seq::<MeshUpdateEvent>::empty(),
    {
        mesh_events_clear(&mut self.events);
    }

    /// The queued updates, oldest first.
    pub fn iter(&self) -> (r: Vec<MeshUpdateEvent>)
        ensures
            r@ == self@,
    {
        mesh_events_to_vec(&self.events)
    }

    pub fn is_empty(&self) -> (r: bool)
        ensures
            r <==> self@.len() == 0,
    {
        mesh_events_is_empty(&self.events)
    }
}

impl Default for MeshUpdateQueue {
    fn default() -> (q: Self)
        ensures
            q@ == Seq::<MeshUpdateEvent>::empty(),
    {
        Self { events: mesh_events_new() }
    }
}

} // verus!
