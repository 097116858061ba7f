//! Buffer of changed-chunk updates produced after a swap; handed to the
//! mesh queue at the start of the next frame.
use vstd::prelude::*;
use super::mesh_queue::MeshUpdateEvent;
use super::small_vec::{MeshEventVec, mesh_event_items, mesh_events_new, mesh_events_push, mesh_events_drain_all,
    mesh_events_is_empty, mesh_events_len, push_length_limit};

verus! {

/// Buffer of changed-chunk updates.
pub struct PostSwapDirtyBuffer {
    pub events: MeshEventVec,
}

impl View for PostSwapDirtyBuffer {
    type V = Seq<MeshUpdateEvent>;

    /// The buffered updates, oldest first.
    open spec fn view(&self) -> Seq<MeshUpdateEvent> {
        mesh_event_items(self.events)
    }
}

impl PostSwapDirtyBuffer {
    /// The number of queued items.
    pub fn len(&self) -> (r: usize)
        ensures
            r == self@.len(),
    {
        mesh_events_len(&self.events)
    }

    pub fn push(&mut self, event: MeshUpdateEvent)
        requires
            old(self)@.len() < push_length_limit(),
        ensures
            final(self)@ == old(self)@.push(event),
    {
        mesh_events_push(&mut self.events, event);
    }

    /// Takes out every buffered update, oldest first.
    pub fn drain(&mut self) -> (r: Vec<MeshUpdateEvent>)
        ensures
            r@ == old(self)@,
            final(self)@ == Seq::<MeshUpdateEvent>::empty(),
    {
        mesh_events_drain_all(&mut self.events)
    }

    pub fn is_empty(&self) -> (r: bool)
        ensures
            r <==> self@.len() == 0,
    {
        mesh_events_is_empty(&self.events)
    }
}

impl Default for PostSwapDirtyBuffer {
    fn default() -> (b: Self)
        ensures
            b@ == Seq::<MeshUpdateEvent>::empty(),
    {
        Self { events: mesh_events_new() }
    }
}

} // verus!
