//! Garbage collection of the active pool: unloading chunks that left both
//! windows, saving them first when they changed.
use vstd::prelude::*;
use crate::voxel::format::POOL_CHUNK_COUNT;
use crate::voxel::pool::{ChunkPool, chunk_of};
use crate::io::channels::SaveRequest;
use crate::manager::manager::ChunkManager;
use crate::manager::masks::lists_in_order;
use crate::manager::metadata::{SlotMetadata, SlotState};

verus! {

/// A ready chunk that is in neither the active nor the shadow window.
pub open spec fn gc_candidate(m: SlotMetadata) -> bool {
    m.spec_state() == SlotState::Ready && !m.is_active && !m.is_shadow
}

/// A slot that this collection sends to be saved.
pub open spec fn gc_saves(m: SlotMetadata) -> bool {
    gc_candidate(m) && m.unload_timer == 0 && m.file_dirty
}

/// Metadata of a slot after a collection: candidates count their unload
/// timer down; at zero they await a save when changed, else become empty.
pub open spec fn gc_meta(m: SlotMetadata) -> SlotMetadata {
    if !gc_candidate(m) {
        m
    } else if m.unload_timer > 0 {
        SlotMetadata { unload_timer: (m.unload_timer - 1) as u32, ..m }
    } else if m.file_dirty {
        SlotMetadata { state: SlotState::AwaitingSave.code(), ..m }
    } else {
        SlotMetadata { state: SlotState::Empty.code(), ..m }
    }
}

/// The slots that a collection of `meta` sends to be saved.
pub open spec fn gc_save_slots(meta: Seq<SlotMetadata>) -> Set<int> {
    Set::new(|s: int| 0 <= s < POOL_CHUNK_COUNT && gc_saves(meta[s]))
}

/// `q` is the save request for slot `s` with metadata `m` in the read pool `pool`.
pub open spec fn is_gc_save_request(q: SaveRequest, s: int, m: SlotMetadata, pool: &ChunkPool) -> bool {
    &&& q.slot == s
    &&& q.chunk_x == m.grid_x as usize
    &&& q.chunk_z == m.grid_z as usize
    &&& q.data@ == chunk_of(pool.data@, s)
}

/// A collection spares every chunk in a window and every chunk that is not
/// ready: its metadata stays exactly as it was and no save is queued for
/// it.  A ready chunk outside both windows counts its unload timer down;
/// once the timer is zero it is saved first when it changed on disk (its
/// slot then awaits the save), else its slot becomes empty.
pub proof fn lemma_gc_effect(meta: Seq<SlotMetadata>, s: int)
    requires
        0 <= s < POOL_CHUNK_COUNT,
    ensures
        (meta[s].is_active || meta[s].is_shadow || meta[s].spec_state() != SlotState::Ready) ==> {
            &&& gc_meta(meta[s]) == meta[s]
            &&& !gc_save_slots(meta).contains(s)
        },
        (!meta[s].is_active && !meta[s].is_shadow && meta[s].spec_state() == SlotState::Ready) ==> {
            let after = gc_meta(meta[s]);
            &&& meta[s].unload_timer > 0 ==> after == SlotMetadata { unload_timer: (meta[s].unload_timer - 1) as u32, ..meta[s] }
                && !gc_save_slots(meta).contains(s)
            &&& meta[s].unload_timer == 0 && meta[s].file_dirty ==>
                after.spec_state() == SlotState::AwaitingSave && after == SlotMetadata { state: after.state, ..meta[s] }
                && gc_save_slots(meta).contains(s)
            &&& meta[s].unload_timer == 0 && !meta[s].file_dirty ==>
                after.spec_state() == SlotState::Empty && after == SlotMetadata { state: after.state, ..meta[s] }
                && !gc_save_slots(meta).contains(s)
        },
{
}

/// Runs one collection over every pool slot (see `gc_meta`), queueing a save
/// of the read pool's cells for each slot that leaves changed.
pub fn collect_garbage(manager: &mut ChunkManager, read_world: &ChunkPool)
    requires
        old(manager).wf(),
        read_world.wf(),
        read_world.slot_count >= POOL_CHUNK_COUNT,
    ensures
        final(manager).wf(),
        final(manager).topology == old(manager).topology,
        final(manager).load_queue@ == old(manager).load_queue@,
        forall|s: int| 0 <= s < POOL_CHUNK_COUNT ==> #[trigger] final(manager).metadata@[s] == gc_meta(old(manager).metadata@[s]),
        exists|order: Seq<usize>| {
            &&& lists_in_order(order, gc_save_slots(old(manager).metadata@))
            &&& final(manager).save_queue@.len() == old(manager).save_queue@.len() + order.len()
            &&& final(manager).save_queue@.subrange(0, old(manager).save_queue@.len() as int) == old(manager).save_queue@
            &&& forall|j: int| 0 <= j < order.len() ==> is_gc_save_request(
                #[trigger] final(manager).save_queue@[old(manager).save_queue@.len() + j],
                order[j] as int, old(manager).metadata@[order[j] as int], read_world)
        },
{
    let ghost meta0 = manager.metadata@;
    let ghost q0 = manager.save_queue@;
    let ghost saves = gc_save_slots(meta0);
    let ghost mut order: Seq<usize> = Seq::empty();
    let mut slot: usize = 0;
    while slot < POOL_CHUNK_COUNT
        invariant
            0 <= slot <= POOL_CHUNK_COUNT,
            manager.wf(),
            read_world.wf(),
            read_world.slot_count >= POOL_CHUNK_COUNT,
            manager.topology == old(manager).topology,
            manager.load_queue@ == old(manager).load_queue@,
            meta0 == old(manager).metadata@,
            q0 == old(manager).save_queue@,
            saves == gc_save_slots(meta0),
            forall|s: int| 0 <= s < POOL_CHUNK_COUNT ==> #[trigger] manager.metadata@[s]
                == if s < slot { gc_meta(meta0[s]) } else { meta0[s] },
            forall|a: int, b: int| 0 <= a < b < order.len() ==> order[a] < order[b],
            forall|a: int| 0 <= a < order.len() ==> #[trigger] order[a] < slot && saves.contains(order[a] as int),
            forall|s: int| 0 <= s < slot && saves.contains(s) ==> exists|a: int| 0 <= a < order.len() && order[a] == s,
            manager.save_queue@.len() == q0.len() + order.len(),
            manager.save_queue@.subrange(0, q0.len() as int) == q0,
            forall|j: int| 0 <= j < order.len() ==> is_gc_save_request(
                #[trigger] manager.save_queue@[q0.len() + j], order[j] as int, meta0[order[j] as int], read_world),
        decreases POOL_CHUNK_COUNT - slot,
    {
        assert(manager.metadata@[slot as int] == meta0[slot as int]);
        let state = manager.metadata[slot].get_state();
        if state != SlotState::Ready {
            slot = slot + 1;
            continue;
        }
        if manager.metadata[slot].is_active() || manager.metadata[slot].is_shadow() {
            slot = slot + 1;
            continue;
        }
        let timer = manager.metadata[slot].get_unload_timer();
        if timer > 0 {
            manager.metadata[slot].decrement_unload_timer();
            slot = slot + 1;
            continue;
        }
        if manager.metadata[slot].file_dirty {
            let data = vstd::slice::slice_to_vec(read_world.chunk_slice(slot));
            let chunk_x = manager.metadata[slot].grid_x as usize;
            let chunk_z = manager.metadata[slot].grid_z as usize;
            let ghost qb = manager.save_queue@;
            manager.save_queue.push(SaveRequest { slot, chunk_x, chunk_z, data });
            manager.set_slot_state(slot, SlotState::AwaitingSave);
            proof {
                let old_order = order;
                order = order.push(slot);
                assert(manager.save_queue@.subrange(0, q0.len() as int) =~= qb.subrange(0, q0.len() as int));
                assert forall|j: int| 0 <= j < order.len() implies is_gc_save_request(
                    #[trigger] manager.save_queue@[q0.len() + j], order[j] as int, meta0[order[j] as int], read_world) by {
                    if j < old_order.len() {
                        assert(manager.save_queue@[q0.len() + j] == qb[q0.len() + j]);
                    }
                }
                assert forall|s: int| 0 <= s < slot + 1 && saves.contains(s)
                    implies exists|a: int| 0 <= a < order.len() && order[a] == s by {
                    if s == slot {
                        assert(order[old_order.len() as int] == s);
                    } else {
                        let a = choose|a: int| 0 <= a < old_order.len() && old_order[a] == s;
                        assert(order[a] == s);
                    }
                }
            }
        } else {
            manager.set_slot_state(slot, SlotState::Empty);
        }
        slot = slot + 1;
    }
    assert(lists_in_order(order, saves));
    assert({
        &&& lists_in_order(order, gc_save_slots(meta0))
        &&& manager.save_queue@.len() == q0.len() + order.len()
        &&& manager.save_queue@.subrange(0, q0.len() as int) == q0
        &&& forall|j: int| 0 <= j < order.len() ==> is_gc_save_request(
            #[trigger] manager.save_queue@[q0.len() + j], order[j] as int, meta0[order[j] as int], read_world)
    });
}

} // verus!
