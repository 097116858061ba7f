//! Swapping the read and write pools, then bringing the changed chunks of
//! the new read pool back into the new write pool.
use vstd::prelude::*;
use crate::voxel::format::{CELLS_PER_CHUNK, POOL_CHUNK_COUNT};
use crate::voxel::pool::{ChunkPool, chunk_start, lemma_chunk_in_bounds};
use crate::manager::masks::{DirtyMask, lists_in_order};
use crate::manager::manager::ChunkManager;
use crate::manager::metadata::{SlotMetadata, SlotState};
use crate::queues::mesh_queue::{MeshUpdateEvent, MeshUpdateKind, RenderSource};
use crate::queues::PostSwapDirtyBuffer;
use crate::queues::small_vec::push_length_limit;
use crate::signals::{ComputePhase, ComputePipeline, SwapSignal};

verus! {

/// Swaps the read and write pools when a swap was requested, unless a slot
/// is being saved, in which case the pipeline waits for the swap.
pub fn swap_pointers(
    read_world: &mut ChunkPool,
    write_world: &mut ChunkPool,
    signal: &mut SwapSignal,
    pipeline: &mut ComputePipeline,
    manager: &ChunkManager,
)
    ensures
        ({
            let saving = exists|s: int| 0 <= s < manager.metadata@.len() && #[trigger] manager.slot_state(s) == SlotState::Saving;
            if !old(signal).requested {
                &&& *final(read_world) == *old(read_world)
                &&& *final(write_world) == *old(write_world)
                &&& final(signal).requested == old(signal).requested
                &&& final(pipeline).phase == old(pipeline).phase
            } else if saving {
                &&& *final(read_world) == *old(read_world)
                &&& *final(write_world) == *old(write_world)
                &&& final(signal).requested == old(signal).requested
                &&& final(pipeline).phase == ComputePhase::AwaitingSwap
            } else {
                &&& *final(read_world) == *old(write_world)
                &&& *final(write_world) == *old(read_world)
                &&& !final(signal).requested
                &&& final(pipeline).phase == ComputePhase::AwaitingPostSwap
            }
        }),
{
    if !signal.requested {
        return;
    }

    if manager.has_saving_slots() {
        pipeline.phase = ComputePhase::AwaitingSwap;
        return;
    }

    std::mem::swap(read_world, write_world);

    signal.requested = false;
    pipeline.phase = ComputePhase::AwaitingPostSwap;
}

/// A cell written to the write pool is read from the read pool once the
/// pools are swapped: the swap publishes every write.
pub proof fn lemma_swap_publishes_write(
    manager: &ChunkManager,
    write_before_swap: &ChunkPool,
    read_after_swap: &ChunkPool,
    x: int,
    y: int,
    z: int,
    cell: crate::voxel::format::Cell,
)
    requires
        manager.spec_read_cell(write_before_swap, x, y, z) == Some(cell),
        *read_after_swap == *write_before_swap,
    ensures
        manager.spec_read_cell(read_after_swap, x, y, z) == Some(cell),
{
}

/// The update published for a changed slot.
pub open spec fn dirty_event(m: SlotMetadata, slot: int) -> MeshUpdateEvent {
    MeshUpdateEvent {
        kind: MeshUpdateKind::ChunkDirty,
        source: RenderSource::Active,
        slot_index: slot as usize,
        grid_x: m.grid_x,
        grid_z: m.grid_z,
        dirty_subchunks: m.dirty_subchunks,
    }
}

/// Metadata of a changed slot after its changes were copied back.
pub open spec fn copied_back_meta(m: SlotMetadata) -> SlotMetadata {
    SlotMetadata { file_dirty: true, dirty_subchunks: 0, pending_b_dirty: false, ..m }
}

/// The slots with changes waiting to be published.
pub open spec fn pending_slots(manager: &ChunkManager) -> Set<int> {
    Set::new(|s: int| 0 <= s < POOL_CHUNK_COUNT && manager.metadata@[s].pending_b_dirty)
}

/// After a swap: copies every changed chunk from the new read pool into the
/// new write pool, marks it as needing a save, takes its changed-subchunk
/// mask into a `ChunkDirty` update (slots in increasing order), clears its
/// pending flag, and lets the simulation run.  Does nothing unless the
/// pipeline awaits this step.
#[verifier::rlimit(40)]
pub fn post_swap_copy(
    read_world: &ChunkPool,
    write_world: &mut ChunkPool,
    manager: &mut ChunkManager,
    dirty_buffer: &mut PostSwapDirtyBuffer,
    pipeline: &mut ComputePipeline,
)
    requires
        read_world.wf(),
        read_world.slot_count >= POOL_CHUNK_COUNT,
        old(write_world).wf(),
        old(write_world).slot_count >= POOL_CHUNK_COUNT,
        old(manager).wf(),
        old(dirty_buffer)@.len() + POOL_CHUNK_COUNT < push_length_limit(),
    ensures
        final(write_world).wf(),
        final(write_world).slot_count == old(write_world).slot_count,
        final(manager).wf(),
        final(manager).topology == old(manager).topology,
        final(manager).load_queue@ == old(manager).load_queue@,
        final(manager).save_queue@ == old(manager).save_queue@,
        old(pipeline).phase != ComputePhase::AwaitingPostSwap ==> {
            &&& *final(write_world) == *old(write_world)
            &&& final(manager).metadata@ == old(manager).metadata@
            &&& final(dirty_buffer)@ == old(dirty_buffer)@
            &&& final(pipeline).phase == old(pipeline).phase
        },
        old(pipeline).phase == ComputePhase::AwaitingPostSwap ==> {
            let pending = pending_slots(old(manager));
            let meta = old(manager).metadata@;
            &&& final(pipeline).phase == ComputePhase::Computing
            &&& forall|s: int| 0 <= s < POOL_CHUNK_COUNT ==> #[trigger] final(manager).metadata@[s]
                == if pending.contains(s) { copied_back_meta(meta[s]) } else { meta[s] }
            &&& final(write_world).data@.len() == old(write_world).data@.len()
            &&& forall|c: int| #![trigger final(write_world).data@[c]] 0 <= c < final(write_world).data@.len() ==>
                final(write_world).data@[c] == if pending.contains(c / CELLS_PER_CHUNK as int) {
                    read_world.data@[c]
                } else {
                    old(write_world).data@[c]
                }
            &&& exists|order: Seq<usize>| {
                &&& lists_in_order(order, pending)
                &&& final(dirty_buffer)@ == old(dirty_buffer)@
                    + Seq::new(order.len(), |j: int| dirty_event(meta[order[j] as int], order[j] as int))
            }
        },
{
    if pipeline.phase != ComputePhase::AwaitingPostSwap {
        return;
    }

    let ghost meta0 = manager.metadata@;
    let ghost pending = pending_slots(manager);
    let mut dirty_mask = DirtyMask::new();
    let mut i: usize = 0;
    while i < POOL_CHUNK_COUNT
        invariant
            0 <= i <= POOL_CHUNK_COUNT,
            manager.wf(),
            meta0 == old(manager).metadata@,
            pending == pending_slots(old(manager)),
            manager.topology == old(manager).topology,
            manager.load_queue@ == old(manager).load_queue@,
            manager.save_queue@ == old(manager).save_queue@,
            dirty_mask@ =~= Set::new(|s: int| 0 <= s < i && pending.contains(s)),
            forall|s: int| 0 <= s < POOL_CHUNK_COUNT ==> #[trigger] manager.metadata@[s]
                == if s < i && pending.contains(s) { SlotMetadata { file_dirty: true, ..meta0[s] } } else { meta0[s] },
        decreases POOL_CHUNK_COUNT - i,
    {
        if manager.is_pending_b_dirty(i) {
            dirty_mask.set(i);
            manager.set_file_dirty(i, true);
        }
        i = i + 1;
    }
    assert(dirty_mask@ =~= pending);

    let order = dirty_mask.iter_set();
    let ghost d0 = write_world.data@;
    let ghost b0 = dirty_buffer@;
    let mut j: usize = 0;
    while j < order.len()
        invariant
            0 <= j <= order@.len(),
            lists_in_order(order@, pending),
            manager.wf(),
            read_world.wf(),
            read_world.slot_count >= POOL_CHUNK_COUNT,
            write_world.wf(),
            write_world.slot_count == old(write_world).slot_count,
            write_world.slot_count >= POOL_CHUNK_COUNT,
            meta0 == old(manager).metadata@,
            pending == pending_slots(old(manager)),
            d0 == old(write_world).data@,
            b0 == old(dirty_buffer)@,
            b0.len() + POOL_CHUNK_COUNT < push_length_limit(),
            manager.topology == old(manager).topology,
            manager.load_queue@ == old(manager).load_queue@,
            manager.save_queue@ == old(manager).save_queue@,
            forall|s: int| 0 <= s < POOL_CHUNK_COUNT ==> #[trigger] manager.metadata@[s]
                == if pending.contains(s) {
                    if (exists|a: int| 0 <= a < j && order@[a] == s) { copied_back_meta(meta0[s]) }
                    else { SlotMetadata { file_dirty: true, ..meta0[s] } }
                } else { meta0[s] },
            write_world.data@.len() == d0.len(),
            forall|c: int| #![trigger write_world.data@[c]] 0 <= c < write_world.data@.len() ==>
                write_world.data@[c] == if (exists|a: int| 0 <= a < j && order@[a] == c / CELLS_PER_CHUNK as int) {
                    read_world.data@[c]
                } else {
                    d0[c]
                },
            dirty_buffer@ == b0 + Seq::new(j as nat, |k: int| dirty_event(meta0[order@[k] as int], order@[k] as int)),
        decreases order@.len() - j,
    {
        let s = order[j];
        proof {
            assert(pending.contains(s as int));
            assert forall|a: int| 0 <= a < j implies order@[a] != s by {
                assert(order@[a] < order@[j as int]);
            }
            assert forall|a: int| 0 <= a < order@.len() implies order@[a] < POOL_CHUNK_COUNT by {
                assert(pending.contains(order@[a] as int));
            }
            lemma_increasing_bound(order@, j as int);
        }
        let ghost before = write_world.data@;
        write_world.copy_chunk_from(read_world, s);
        let sub_mask = manager.metadata[s].take_dirty_subchunks();
        let event = MeshUpdateEvent {
            kind: MeshUpdateKind::ChunkDirty,
            slot_index: s,
            grid_x: manager.metadata[s].grid_x,
            grid_z: manager.metadata[s].grid_z,
            source: RenderSource::Active,
            dirty_subchunks: sub_mask,
        };
        dirty_buffer.push(event);
        manager.set_pending_b_dirty(s, false);
        proof {
            assert(dirty_buffer@ =~= b0 + Seq::new((j + 1) as nat, |k: int| dirty_event(meta0[order@[k] as int], order@[k] as int)));
            assert forall|t: int| 0 <= t < POOL_CHUNK_COUNT implies #[trigger] manager.metadata@[t]
                == if pending.contains(t) {
                    if (exists|a: int| 0 <= a < j + 1 && order@[a] == t) { copied_back_meta(meta0[t]) }
                    else { SlotMetadata { file_dirty: true, ..meta0[t] } }
                } else { meta0[t] } by {
                if t == s {
                    assert(order@[j as int] == t);
                } else if exists|a: int| 0 <= a < j + 1 && order@[a] == t {
                    let a = choose|a: int| 0 <= a < j + 1 && order@[a] == t;
                    assert(a != j);
                }
            }
            lemma_chunk_in_bounds(s as int, write_world.slot_count as int);
            assert forall|c: int| #![trigger write_world.data@[c]] 0 <= c < write_world.data@.len() implies
                write_world.data@[c] == if (exists|a: int| 0 <= a < j + 1 && order@[a] == c / CELLS_PER_CHUNK as int) {
                    read_world.data@[c]
                } else {
                    d0[c]
                } by {
                assert(before[c] == before[c]);
                let q = c / CELLS_PER_CHUNK as int;
                let start = chunk_start(s as int);
                let in_chunk = start <= c < start + CELLS_PER_CHUNK;
                assert(in_chunk <==> q == s) by (nonlinear_arith)
                    requires 0 <= c, start == s * 16384, q == c / 16384, in_chunk == (start <= c < start + 16384);
                if in_chunk {
                    assert(write_world.data@[c] == read_world.data@[c]);
                    assert(order@[j as int] == q);
                } else {
                    assert(write_world.data@[c] == before[c]);
                    if exists|a: int| 0 <= a < j + 1 && order@[a] == q {
                        let a = choose|a: int| 0 <= a < j + 1 && order@[a] == q;
                        assert(a != j);
                    }
                }
            }
        }
        j = j + 1;
    }
    pipeline.phase = ComputePhase::Computing;
}

/// A strictly increasing list of indices starting at or above zero has its
/// `j`-th entry at least `j`; the list is bounded by the set it lists.
proof fn lemma_increasing_bound(order: Seq<usize>, j: int)
    requires
        0 <= j < order.len(),
        forall|a: int, b: int| 0 <= a < b < order.len() ==> order[a] < order[b],
        forall|a: int| 0 <= a < order.len() ==> order[a] < POOL_CHUNK_COUNT,
    ensures
        j < POOL_CHUNK_COUNT,
{
    lemma_increasing_at_least_index(order, j);
}

proof fn lemma_increasing_at_least_index(order: Seq<usize>, j: int)
    requires
        0 <= j < order.len(),
        forall|a: int, b: int| 0 <= a < b < order.len() ==> order[a] < order[b],
    ensures
        order[j] >= j,
    decreases j,
{
    if j > 0 {
        lemma_increasing_at_least_index(order, j - 1);
    }
}

} // verus!
