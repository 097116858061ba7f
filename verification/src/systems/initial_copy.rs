//! First copy of the write pool into the read pool, once every chunk of
//! the start-up load is ready.
use vstd::prelude::*;
use crate::voxel::format::{CELLS_PER_CHUNK, POOL_CHUNK_COUNT};
use crate::voxel::pool::{ChunkPool, lemma_chunk_in_bounds};
use crate::manager::manager::ChunkManager;
use crate::manager::metadata::SlotState;
use crate::signals::{ComputePhase, ComputePipeline};

verus! {

/// Whether the first copy has been made.
pub struct InitialCopyDone {
    pub done: bool,
}

impl Default for InitialCopyDone {
    fn default() -> (d: Self)
        ensures
            !d.done,
    {
        Self { done: false }
    }
}

/// Copies every chunk of the write pool into the read pool and lets the
/// simulation run, once: only while not done yet, while the pipeline awaits
/// the post-swap step, and when every pool slot is ready.
pub fn initial_copy(
    read_world: &mut ChunkPool,
    write_world: &ChunkPool,
    manager: &ChunkManager,
    pipeline: &mut ComputePipeline,
    initial_copy: &mut InitialCopyDone,
)
    requires
        old(read_world).wf(),
        old(read_world).slot_count >= POOL_CHUNK_COUNT,
        write_world.wf(),
        write_world.slot_count >= POOL_CHUNK_COUNT,
        manager.wf(),
    ensures
        final(read_world).wf(),
        final(read_world).slot_count == old(read_world).slot_count,
        ({
            let runs = !old(initial_copy).done
                && old(pipeline).phase == ComputePhase::AwaitingPostSwap
                && forall|s: int| 0 <= s < POOL_CHUNK_COUNT ==> #[trigger] manager.slot_state(s) == SlotState::Ready;
            if runs {
                &&& final(initial_copy).done
                &&& final(pipeline).phase == ComputePhase::Computing
                &&& final(read_world).data@.len() == old(read_world).data@.len()
                &&& forall|c: int| #![trigger final(read_world).data@[c]] 0 <= c < final(read_world).data@.len() ==>
                    final(read_world).data@[c] == if c < POOL_CHUNK_COUNT * CELLS_PER_CHUNK {
                        write_world.data@[c]
                    } else {
                        old(read_world).data@[c]
                    }
            } else {
                &&& final(initial_copy).done == old(initial_copy).done
                &&& final(pipeline).phase == old(pipeline).phase
                &&& *final(read_world) == *old(read_world)
            }
        }),
{
    if initial_copy.done {
        return;
    }

    if pipeline.phase != ComputePhase::AwaitingPostSwap {
        return;
    }

    let mut all_ready = true;
    let mut slot: usize = 0;
    while slot < POOL_CHUNK_COUNT
        invariant
            0 <= slot <= POOL_CHUNK_COUNT,
            manager.wf(),
            all_ready <==> forall|s: int| 0 <= s < slot ==> #[trigger] manager.slot_state(s) == SlotState::Ready,
        decreases POOL_CHUNK_COUNT - slot,
    {
        if manager.get_slot_state(slot) != SlotState::Ready {
            all_ready = false;
        }
        slot = slot + 1;
    }

    if !all_ready {
        return;
    }

    let ghost d0 = read_world.data@;
    let mut slot: usize = 0;
    while slot < POOL_CHUNK_COUNT
        invariant
            0 <= slot <= POOL_CHUNK_COUNT,
            read_world.wf(),
            read_world.slot_count == old(read_world).slot_count,
            read_world.slot_count >= POOL_CHUNK_COUNT,
            write_world.wf(),
            write_world.slot_count >= POOL_CHUNK_COUNT,
            d0 == old(read_world).data@,
            read_world.data@.len() == d0.len(),
            forall|c: int| #![trigger read_world.data@[c]] 0 <= c < read_world.data@.len() ==>
                read_world.data@[c] == if c < slot * CELLS_PER_CHUNK { write_world.data@[c] } else { d0[c] },
        decreases POOL_CHUNK_COUNT - slot,
    {
        let ghost before = read_world.data@;
        read_world.copy_chunk_from(write_world, slot);
        proof {
            lemma_chunk_in_bounds(slot as int, read_world.slot_count as int);
            lemma_chunk_in_bounds(slot as int, write_world.slot_count as int);
            assert forall|c: int| #![trigger read_world.data@[c]] 0 <= c < read_world.data@.len() implies
                read_world.data@[c] == if c < (slot + 1) * CELLS_PER_CHUNK { write_world.data@[c] } else { d0[c] } by {
                assert(before[c] == before[c]);
            }
        }
        slot = slot + 1;
    }

    initial_copy.done = true;
    pipeline.phase = ComputePhase::Computing;
}

} // verus!
