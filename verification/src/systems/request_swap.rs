//! Requesting a pool swap for the next frame.
use vstd::prelude::*;
use crate::manager::manager::ChunkManager;
use crate::signals::{ComputePhase, ComputePipeline, SwapSignal};
use crate::voxel::format::POOL_CHUNK_COUNT;

verus! {

/// Requests a swap when the pipeline is computing and some slot has changes
/// waiting to be published; otherwise leaves the signal as it is.
pub fn request_swap(signal: &mut SwapSignal, pipeline: &ComputePipeline, manager: &ChunkManager)
    requires
        manager.wf(),
    ensures
        final(signal).requested == (old(signal).requested || (
            pipeline.phase == ComputePhase::Computing
            && exists|s: int| 0 <= s < POOL_CHUNK_COUNT && (#[trigger] manager.metadata@[s]).pending_b_dirty)),
{
    if pipeline.phase == ComputePhase::AwaitingSwap {
        return;
    }

    if pipeline.phase == ComputePhase::AwaitingPostSwap {
        return;
    }

    let mut has_dirty = false;
    let mut slot: usize = 0;
    while slot < POOL_CHUNK_COUNT
        invariant
            0 <= slot <= POOL_CHUNK_COUNT,
            manager.wf(),
            has_dirty <==> exists|s: int| 0 <= s < slot && (#[trigger] manager.metadata@[s]).pending_b_dirty,
        decreases POOL_CHUNK_COUNT - slot,
    {
        if manager.is_pending_b_dirty(slot) {
            has_dirty = true;
        }
        slot = slot + 1;
    }

    if has_dirty {
        signal.request();
    }
}

} // verus!
