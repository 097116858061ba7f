//! Taking in what the background worker finished for the shadow pool.
use vstd::prelude::*;
use crate::voxel::format::{Cell, CELLS_PER_CHUNK};
use crate::voxel::pool::with_chunk;
use crate::voxel::shadow_pool::{ShadowPool, ShadowSlotMeta, ShadowSlotState, SHADOW_SLOT_COUNT,
    emptied_meta, key_of};
use crate::io::channels::ShadowLoadResponse;
use crate::io::staging::{ShadowStagedChunk, ShadowStagingBuffer};

verus! {

/// Takes in one shadow load response: a successful load is staged; a failed
/// one marks its slot failed in the shadow pool (a slot that is already
/// empty stays as it is).
pub fn handle_shadow_load_response(staging: &mut ShadowStagingBuffer, shadow_pool: &mut ShadowPool, response: ShadowLoadResponse)
    requires
        old(shadow_pool).wf(),
        response.slot < SHADOW_SLOT_COUNT,
    ensures
        final(shadow_pool).wf(),
        response.success ==> ({
            let staged = final(staging).loaded_chunks@.last();
            &&& *final(shadow_pool) == *old(shadow_pool)
            &&& final(staging).loaded_chunks@.len() == old(staging).loaded_chunks@.len() + 1
            &&& final(staging).loaded_chunks@.drop_last() == old(staging).loaded_chunks@
            &&& staged.slot == response.slot
            &&& staged.chunk_x == response.chunk_x
            &&& staged.chunk_z == response.chunk_z
            &&& staged.data@ == response.data@
        }),
        !response.success ==> final(staging).loaded_chunks@ == old(staging).loaded_chunks@,
        !response.success && old(shadow_pool).meta@[response.slot as int].state == ShadowSlotState::Empty
            ==> *final(shadow_pool) == *old(shadow_pool),
        !response.success && old(shadow_pool).meta@[response.slot as int].state != ShadowSlotState::Empty ==> {
            let s = response.slot as int;
            &&& final(shadow_pool).meta@ == old(shadow_pool).meta@.update(s, emptied_meta(old(shadow_pool).meta@[s]))
            &&& final(shadow_pool).slot_map@ == old(shadow_pool).slot_map@.remove(key_of(old(shadow_pool).meta@[s]))
            &&& final(shadow_pool).free_slots@ == old(shadow_pool).free_slots@.push(response.slot)
            &&& final(shadow_pool).data@ == old(shadow_pool).data@
            &&& final(shadow_pool).topology == old(shadow_pool).topology
            &&& final(shadow_pool).frame_counter == old(shadow_pool).frame_counter
        },
{
    if response.success {
        staging.push_loaded(ShadowStagedChunk {
            slot: response.slot,
            chunk_x: response.chunk_x,
            chunk_z: response.chunk_z,
            data: response.data,
        });
        assert(staging.loaded_chunks@.drop_last() =~= old(staging).loaded_chunks@);
    } else {
        shadow_pool.mark_failed(response.slot);
    }
}

/// The shadow cells after each staged chunk, in order, is copied into its
/// slot, skipping the slots that are empty in `meta`.
pub open spec fn apply_shadow_cells(cells: Seq<Cell>, meta: Seq<ShadowSlotMeta>, staged: Seq<ShadowStagedChunk>) -> Seq<Cell>
    decreases staged.len(),
{
    if staged.len() == 0 {
        cells
    } else {
        let before = apply_shadow_cells(cells, meta, staged.drop_last());
        let c = staged.last();
        if meta[c.slot as int].state == ShadowSlotState::Empty {
            before
        } else {
            with_chunk(before, c.slot as int, c.data@)
        }
    }
}

/// Whether some staged chunk targets slot `s`.
pub open spec fn staged_into(staged: Seq<ShadowStagedChunk>, s: int) -> bool {
    exists|i: int| 0 <= i < staged.len() && staged[i].slot == s
}

/// Every staged chunk fits a shadow slot.
pub open spec fn shadow_staging_fits(staging: &ShadowStagingBuffer) -> bool {
    forall|i: int| 0 <= i < staging.loaded_chunks@.len() ==> (#[trigger] staging.loaded_chunks@[i]).slot < SHADOW_SLOT_COUNT
        && staging.loaded_chunks@[i].data@.len() == CELLS_PER_CHUNK
}

/// Applies the staged chunks, in order, to the shadow pool (each copied
/// into its slot, which becomes ready, unless the slot was emptied
/// meanwhile), then advances the frame counter.
pub fn apply_shadow_staged(staging: &mut ShadowStagingBuffer, shadow_pool: &mut ShadowPool)
    requires
        old(shadow_pool).wf(),
        old(shadow_pool).frame_counter < u64::MAX,
        shadow_staging_fits(old(staging)),
    ensures
        final(shadow_pool).wf(),
        final(staging).loaded_chunks@.len() == 0,
        final(shadow_pool).data@ == apply_shadow_cells(old(shadow_pool).data@, old(shadow_pool).meta@, old(staging).loaded_chunks@),
        final(shadow_pool).meta@.len() == old(shadow_pool).meta@.len(),
        forall|s: int| 0 <= s < SHADOW_SLOT_COUNT ==> #[trigger] final(shadow_pool).meta@[s]
            == if staged_into(old(staging).loaded_chunks@, s) && old(shadow_pool).meta@[s].state != ShadowSlotState::Empty {
                ShadowSlotMeta { state: ShadowSlotState::Ready, ..old(shadow_pool).meta@[s] }
            } else {
                old(shadow_pool).meta@[s]
            },
        final(shadow_pool).slot_map@ == old(shadow_pool).slot_map@,
        final(shadow_pool).free_slots@ == old(shadow_pool).free_slots@,
        final(shadow_pool).topology == old(shadow_pool).topology,
        final(shadow_pool).frame_counter == old(shadow_pool).frame_counter + 1,
{
    let loaded = staging.take_loaded();
    let ghost d0 = shadow_pool.data@;
    let ghost meta0 = shadow_pool.meta@;
    let mut i: usize = 0;
    while i < loaded.len()
        invariant
            0 <= i <= loaded@.len(),
            loaded@ == old(staging).loaded_chunks@,
            shadow_staging_fits(old(staging)),
            shadow_pool.wf(),
            shadow_pool.slot_map@ == old(shadow_pool).slot_map@,
            shadow_pool.free_slots@ == old(shadow_pool).free_slots@,
            shadow_pool.topology == old(shadow_pool).topology,
            shadow_pool.frame_counter == old(shadow_pool).frame_counter,
            d0 == old(shadow_pool).data@,
            meta0 == old(shadow_pool).meta@,
            shadow_pool.data@ == apply_shadow_cells(d0, meta0, loaded@.subrange(0, i as int)),
            forall|s: int| 0 <= s < SHADOW_SLOT_COUNT ==> #[trigger] shadow_pool.meta@[s]
                == if staged_into(loaded@.subrange(0, i as int), s) && meta0[s].state != ShadowSlotState::Empty {
                    ShadowSlotMeta { state: ShadowSlotState::Ready, ..meta0[s] }
                } else {
                    meta0[s]
                },
        decreases loaded@.len() - i,
    {
        assert(loaded@[i as int].slot < SHADOW_SLOT_COUNT && loaded@[i as int].data@.len() == CELLS_PER_CHUNK);
        shadow_pool.apply_loaded_chunk(loaded[i].slot, loaded[i].data.as_slice());
        proof {
            let pre = loaded@.subrange(0, i as int);
            let next = loaded@.subrange(0, i + 1);
            assert(next.drop_last() =~= pre);
            assert forall|s: int| 0 <= s < SHADOW_SLOT_COUNT implies #[trigger] shadow_pool.meta@[s]
                == if staged_into(next, s) && meta0[s].state != ShadowSlotState::Empty {
                    ShadowSlotMeta { state: ShadowSlotState::Ready, ..meta0[s] }
                } else {
                    meta0[s]
                } by {
                if s == loaded@[i as int].slot {
                    assert(next[i as int].slot == s);
                } else {
                    if staged_into(next, s) {
                        let k = choose|k: int| 0 <= k < next.len() && next[k].slot == s;
                        assert(pre[k].slot == s);
                    }
                    if staged_into(pre, s) {
                        let k = choose|k: int| 0 <= k < pre.len() && pre[k].slot == s;
                        assert(next[k].slot == s);
                    }
                }
            }
        }
        i = i + 1;
    }
    assert(loaded@.subrange(0, loaded@.len() as int) =~= loaded@);

    shadow_pool.tick_frame();
}

} // verus!
