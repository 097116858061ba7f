//! Handing the post-swap changed-chunk updates over to the mesh queue.
use vstd::prelude::*;
use crate::queues::mesh_queue::{MeshUpdateEvent, MeshUpdateQueue};
use crate::queues::PostSwapDirtyBuffer;
use crate::queues::small_vec::push_length_limit;

verus! {

/// Moves every buffered update, oldest first, to the end of the mesh queue.
pub fn dispatch_dirty_events(dirty_buffer: &mut PostSwapDirtyBuffer, mesh_queue: &mut MeshUpdateQueue)
    requires
        old(mesh_queue)@.len() + old(dirty_buffer)@.len() < push_length_limit(),
    ensures
        final(mesh_queue)@ == old(mesh_queue)@ + old(dirty_buffer)@,
        final(dirty_buffer)@ == Seq::<MeshUpdateEvent>::empty(),
{
    if dirty_buffer.is_empty() {
        assert(old(mesh_queue)@ + old(dirty_buffer)@ =~= old(mesh_queue)@);
        return;
    }

    let events = dirty_buffer.drain();
    let mut i: usize = 0;
    while i < events.len()
        invariant
            0 <= i <= events@.len(),
            events@ == old(dirty_buffer)@,
            old(mesh_queue)@.len() + events@.len() < push_length_limit(),
            mesh_queue@ == old(mesh_queue)@ + events@.subrange(0, i as int),
        decreases events@.len() - i,
    {
        mesh_queue.push(events[i]);
        assert(mesh_queue@ =~= old(mesh_queue)@ + events@.subrange(0, i + 1));
        i = i + 1;
    }
    assert(events@.subrange(0, events@.len() as int) =~= events@);
}

} // verus!
