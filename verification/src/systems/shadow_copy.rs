//! One step of the shadow-to-active copy process.
use vstd::prelude::*;
use crate::voxel::format::{WINDOW_CHUNK_COUNT, WINDOW_SIDE};
use crate::voxel::pool::ChunkPool;
use crate::voxel::shadow_pool::ShadowPool;
use crate::manager::shadow_copy::{ShadowCopyManager, ShadowCopyState, ShadowCopyValidation,
    has_mismatch, spec_pending_count, spec_validation, copy_outcome};

verus! {

/// Advances the copy process by one step: a validating process validates
/// (ready: go copy; loading: wait; missing or mismatched: fail); a copying
/// process copies the window into the write pool (complete or failed);
/// any other state is left alone.
pub fn shadow_copy_step(copy_manager: &mut ShadowCopyManager, shadow_pool: &ShadowPool, write_world: &mut ChunkPool)
    requires
        shadow_pool.wf(),
        shadow_pool.topology.valid(),
        old(copy_manager).target_min_x <= i64::MAX - WINDOW_SIDE,
        old(copy_manager).target_min_z <= i64::MAX - WINDOW_SIDE,
        old(write_world).wf(),
        old(write_world).slot_count >= WINDOW_CHUNK_COUNT,
    ensures
        final(write_world).wf(),
        final(write_world).slot_count == old(write_world).slot_count,
        ({
            let m = *old(copy_manager);
            let mx = m.target_min_x;
            let mz = m.target_min_z;
            if m.state == ShadowCopyState::Validating {
                let v = spec_validation(shadow_pool, mx, mz);
                let pending = if has_mismatch(shadow_pool, mx, mz) { m.pending_count } else {
                    spec_pending_count(shadow_pool, mx, mz) as usize };
                let state = match v {
                    ShadowCopyValidation::Ready => ShadowCopyState::Copying,
                    ShadowCopyValidation::Loading => ShadowCopyState::Validating,
                    _ => ShadowCopyState::Failed,
                };
                &&& *final(copy_manager) == (ShadowCopyManager { state, pending_count: pending, ..m })
                &&& *final(write_world) == *old(write_world)
            } else if m.state == ShadowCopyState::Copying {
                exists|copied: bool| {
                    &&& copy_outcome(old(write_world).data@, final(write_world).data@, shadow_pool, mx, mz, copied)
                    &&& *final(copy_manager) == (ShadowCopyManager {
                        state: if copied { ShadowCopyState::Complete } else { ShadowCopyState::Failed },
                        ..m
                    })
                }
            } else {
                &&& *final(copy_manager) == m
                &&& *final(write_world) == *old(write_world)
            }
        }),
{
    match copy_manager.state {
        ShadowCopyState::Validating => {
            let validation = copy_manager.validate(shadow_pool);

            match validation {
                ShadowCopyValidation::Ready => {
                    copy_manager.state = ShadowCopyState::Copying;
                }
                ShadowCopyValidation::Loading => {
                    // wait for the next frame
                }
                ShadowCopyValidation::Missing => {
                    copy_manager.state = ShadowCopyState::Failed;
                }
                ShadowCopyValidation::GeometryMismatch => {
                    copy_manager.state = ShadowCopyState::Failed;
                }
            }
        }

        ShadowCopyState::Copying => {
            proof {
                crate::voxel::pool::lemma_chunk_in_bounds(
                    (WINDOW_CHUNK_COUNT - 1) as int, write_world.slot_count as int);
            }
            let success = copy_manager.execute_copy(shadow_pool, &mut write_world.data);
            assert(copy_outcome(old(write_world).data@, write_world.data@, shadow_pool,
                copy_manager.target_min_x, copy_manager.target_min_z, success));

            if success {
                copy_manager.state = ShadowCopyState::Complete;
            } else {
                copy_manager.state = ShadowCopyState::Failed;
            }
        }

        ShadowCopyState::Complete | ShadowCopyState::Failed | ShadowCopyState::Idle => {}
    }
}

} // verus!
