//! Telling the renderer, once per chunk, that a chunk of the active window
//! is loaded.
use vstd::prelude::*;
use crate::voxel::format::{WINDOW_CHUNK_COUNT, all_subchunks_mask};
use crate::manager::manager::ChunkManager;
use crate::manager::metadata::{SlotMetadata, SlotState};
use crate::queues::mesh_queue::{MeshUpdateEvent, MeshUpdateKind, MeshUpdateQueue, RenderSource};
use crate::queues::small_vec::push_length_limit;
use crate::systems::initial_copy::InitialCopyDone;

verus! {

/// A window slot whose chunk the renderer has still to be told about.
pub open spec fn awaits_notification(m: SlotMetadata) -> bool {
    m.spec_state() == SlotState::Ready && m.is_active && !m.render_notified
}

/// The `ChunkLoaded` update for a slot, covering every subchunk.
pub open spec fn loaded_event(m: SlotMetadata, slot: int) -> MeshUpdateEvent {
    MeshUpdateEvent {
        kind: MeshUpdateKind::ChunkLoaded,
        source: RenderSource::Active,
        slot_index: slot as usize,
        grid_x: m.grid_x,
        grid_z: m.grid_z,
        dirty_subchunks: 0xF,
    }
}

/// The window slots below `n` that await a notification, in increasing order.
pub open spec fn notified_slots(meta: Seq<SlotMetadata>, n: int) -> Seq<usize>
    decreases n,
{
    if n <= 0 {
        Seq::empty()
    } else if awaits_notification(meta[n - 1]) {
        notified_slots(meta, n - 1).push((n - 1) as usize)
    } else {
        notified_slots(meta, n - 1)
    }
}

/// No window slot below `n` awaits a notification: none is listed.
proof fn lemma_nothing_awaits(meta: Seq<SlotMetadata>, n: int)
    requires
        forall|s: int| 0 <= s < n ==> !awaits_notification(#[trigger] meta[s]),
    ensures
        notified_slots(meta, n) == Seq::<usize>::empty(),
    decreases n,
{
    if n > 0 {
        lemma_nothing_awaits(meta, n - 1);
    }
}

/// After a dispatch has announced every waiting window slot (the metadata
/// that `dispatch_loaded_events` leaves), no window slot awaits a
/// notification, so a second dispatch queues nothing.
pub proof fn lemma_dispatch_announces_once(meta: Seq<SlotMetadata>, after: Seq<SlotMetadata>)
    requires
        after.len() == meta.len(),
        forall|s: int| 0 <= s < meta.len() ==> #[trigger] after[s]
            == if s < WINDOW_CHUNK_COUNT && awaits_notification(meta[s]) {
                SlotMetadata { render_notified: true, ..meta[s] }
            } else {
                meta[s]
            },
        meta.len() >= WINDOW_CHUNK_COUNT,
    ensures
        notified_slots(after, WINDOW_CHUNK_COUNT as int) == Seq::<usize>::empty(),
{
    assert forall|s: int| 0 <= s < WINDOW_CHUNK_COUNT implies !awaits_notification(#[trigger] after[s]) by {
        assert(after[s] == if s < WINDOW_CHUNK_COUNT && awaits_notification(meta[s]) {
            SlotMetadata { render_notified: true, ..meta[s] }
        } else {
            meta[s]
        });
    }
    lemma_nothing_awaits(after, WINDOW_CHUNK_COUNT as int);
}

/// Once the start-up copy is done: for each window slot, in order, that is
/// ready, active and not yet announced, queues a `ChunkLoaded` update with
/// every subchunk and marks the slot announced.
pub fn dispatch_loaded_events(manager: &mut ChunkManager, mesh_queue: &mut MeshUpdateQueue, initial_copy: &InitialCopyDone)
    requires
        old(manager).wf(),
        old(mesh_queue)@.len() + WINDOW_CHUNK_COUNT < push_length_limit(),
    ensures
        final(manager).wf(),
        final(manager).topology == old(manager).topology,
        final(manager).load_queue@ == old(manager).load_queue@,
        final(manager).save_queue@ == old(manager).save_queue@,
        !initial_copy.done ==> final(manager).metadata@ == old(manager).metadata@ && final(mesh_queue)@ == old(mesh_queue)@,
        initial_copy.done ==> ({
            let meta = old(manager).metadata@;
            let order = notified_slots(meta, WINDOW_CHUNK_COUNT as int);
            &&& final(mesh_queue)@ == old(mesh_queue)@
                + Seq::new(order.len(), |j: int| loaded_event(meta[order[j] as int], order[j] as int))
            &&& forall|s: int| 0 <= s < meta.len() ==> #[trigger] final(manager).metadata@[s]
                == if s < WINDOW_CHUNK_COUNT && awaits_notification(meta[s]) {
                    SlotMetadata { render_notified: true, ..meta[s] }
                } else {
                    meta[s]
                }
        }),
{
    if !initial_copy.done {
        return;
    }

    let ghost meta0 = manager.metadata@;
    let ghost q0 = mesh_queue@;
    let mut slot: usize = 0;
    while slot < WINDOW_CHUNK_COUNT
        invariant
            0 <= slot <= WINDOW_CHUNK_COUNT,
            manager.wf(),
            manager.topology == old(manager).topology,
            manager.load_queue@ == old(manager).load_queue@,
            manager.save_queue@ == old(manager).save_queue@,
            meta0 == old(manager).metadata@,
            meta0.len() == crate::voxel::format::POOL_CHUNK_COUNT,
            q0 == old(mesh_queue)@,
            q0.len() + WINDOW_CHUNK_COUNT < push_length_limit(),
            notified_slots(meta0, slot as int).len() <= slot,
            mesh_queue@ == q0 + Seq::new(notified_slots(meta0, slot as int).len(),
                |j: int| loaded_event(meta0[notified_slots(meta0, slot as int)[j] as int], notified_slots(meta0, slot as int)[j] as int)),
            forall|s: int| 0 <= s < meta0.len() ==> #[trigger] manager.metadata@[s]
                == if s < slot && awaits_notification(meta0[s]) {
                    SlotMetadata { render_notified: true, ..meta0[s] }
                } else {
                    meta0[s]
                },
        decreases WINDOW_CHUNK_COUNT - slot,
    {
        let ghost prev = notified_slots(meta0, slot as int);
        assert(manager.metadata@[slot as int] == meta0[slot as int]);
        if manager.get_slot_state(slot) != SlotState::Ready {
            slot = slot + 1;
            continue;
        }
        if !manager.metadata[slot].is_active() {
            slot = slot + 1;
            continue;
        }
        if manager.metadata[slot].is_render_notified() {
            slot = slot + 1;
            continue;
        }

        let mask = all_subchunks_mask();
        mesh_queue.push(MeshUpdateEvent {
            kind: MeshUpdateKind::ChunkLoaded,
            source: RenderSource::Active,
            slot_index: slot,
            grid_x: manager.metadata[slot].grid_x,
            grid_z: manager.metadata[slot].grid_z,
            dirty_subchunks: mask,
        });
        manager.metadata[slot].set_render_notified(true);
        proof {
            let next = notified_slots(meta0, slot + 1);
            assert(next == prev.push(slot));
            assert(mesh_queue@ =~= q0 + Seq::new(next.len(),
                |j: int| loaded_event(meta0[next[j] as int], next[j] as int)));
        }
        slot = slot + 1;
    }
}

} // verus!
