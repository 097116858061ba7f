//! Setting up the active window at start-up and sending the queued loads
//! and saves to the background worker.
use vstd::prelude::*;
use crate::voxel::format::{CHUNK_SIDE, POOL_CHUNK_COUNT, WINDOW_CHUNK_COUNT, WINDOW_SIDE};
use crate::io::channels::{LoadRequest, SaveRequest};
use crate::io::file_format::WorldHeader;
use crate::manager::manager::ChunkManager;
use crate::manager::metadata::{SlotMetadata, SlotState};
use crate::signals::{ComputePhase, ComputePipeline};

verus! {

/// Whether the window has been set up.
pub struct WindowInitialized {
    pub done: bool,
}

impl Default for WindowInitialized {
    fn default() -> (w: Self)
        ensures
            !w.done,
    {
        Self { done: false }
    }
}

/// Integer division rounding toward zero (Rust's `/`).
pub open spec fn div_toward_zero(a: int, b: int) -> int {
    if a >= 0 { a / b } else { -((-a) / b) }
}

/// The load request made at start-up for window slot `slot` of a window
/// whose corner is `(min_x, min_z)`.
pub open spec fn initial_load_request(t: crate::voxel::topology::TorusTopology, min_x: i64, min_z: i64, slot: int) -> LoadRequest {
    LoadRequest {
        slot: slot as usize,
        chunk_x: t.wrap_chunk_x(min_x + slot % WINDOW_SIDE as int) as usize,
        chunk_z: t.wrap_chunk_z(min_z + slot / WINDOW_SIDE as int) as usize,
        priority: 0,
    }
}

/// Sets up the window once: centres it on the spawn chunk of the world
/// header (spawn block / `CHUNK_SIDE`, rounded toward zero), queues a load
/// of every window chunk (slot `dz * WINDOW_SIDE + dx` for the chunk `dx,
/// dz` from the corner, wrapped onto the torus), marks those slots queued
/// with their unwrapped grid coordinates, and makes the pipeline wait for
/// the start-up copy.  Returns whether it ran.
pub fn initialize_window(
    header: &WorldHeader,
    manager: &mut ChunkManager,
    initialized: &mut WindowInitialized,
    pipeline: &mut ComputePipeline,
) -> (ran: bool)
    requires
        old(manager).wf(),
        old(manager).topology.valid(),
    ensures
        ran == !old(initialized).done,
        final(manager).wf(),
        final(manager).topology == old(manager).topology,
        final(manager).save_queue@ == old(manager).save_queue@,
        !ran ==> {
            &&& *final(manager) == *old(manager)
            &&& final(initialized).done == old(initialized).done
            &&& final(pipeline).phase == old(pipeline).phase
        },
        ran ==> ({
            let cx = div_toward_zero(header.spawn_x as int, CHUNK_SIDE as int);
            let cz = div_toward_zero(header.spawn_z as int, CHUNK_SIDE as int);
            let min_x = (cx - 8) as i64;
            let min_z = (cz - 8) as i64;
            let meta = old(manager).metadata@;
            &&& final(initialized).done
            &&& final(pipeline).phase == ComputePhase::AwaitingPostSwap
            &&& final(manager).window_center_x == cx
            &&& final(manager).window_center_z == cz
            &&& final(manager).window_min_x == min_x
            &&& final(manager).window_min_z == min_z
            &&& final(manager).window_max_x == cx + 8
            &&& final(manager).window_max_z == cz + 8
            &&& final(manager).load_queue@ == old(manager).load_queue@
                + Seq::new(WINDOW_CHUNK_COUNT as nat, |s: int| initial_load_request(old(manager).topology, min_x, min_z, s))
            &&& forall|s: int| 0 <= s < POOL_CHUNK_COUNT ==> #[trigger] final(manager).metadata@[s]
                == if s < WINDOW_CHUNK_COUNT {
                    SlotMetadata {
                        state: SlotState::Queued.code(),
                        grid_x: (min_x + s % WINDOW_SIDE as int) as i64,
                        grid_z: (min_z + s / WINDOW_SIDE as int) as i64,
                        ..meta[s]
                    }
                } else {
                    meta[s]
                }
        }),
{
    if initialized.done {
        return false;
    }

    let spawn_chunk_x = header.spawn_x / CHUNK_SIDE as i32;
    let spawn_chunk_z = header.spawn_z / CHUNK_SIDE as i32;

    manager.set_window_center(spawn_chunk_x as i64, spawn_chunk_z as i64);

    let ghost meta0 = manager.metadata@;
    let ghost q0 = manager.load_queue@;
    let ghost t = manager.topology;
    let min_x = manager.window_min_x;
    let min_z = manager.window_min_z;

    let mut dz: usize = 0;
    while dz < WINDOW_SIDE
        invariant
            0 <= dz <= WINDOW_SIDE,
            manager.wf(),
            manager.topology == t,
            t.valid(),
            min_x == manager.window_min_x,
            min_z == manager.window_min_z,
            i64::MIN + 8 <= min_x + 8 <= i64::MAX - 8,
            i64::MIN + 8 <= min_z + 8 <= i64::MAX - 8,
            manager.window_center_x == spawn_chunk_x as i64,
            manager.window_center_z == spawn_chunk_z as i64,
            manager.window_max_x == spawn_chunk_x + 8,
            manager.window_max_z == spawn_chunk_z + 8,
            manager.save_queue@ == old(manager).save_queue@,
            meta0 == old(manager).metadata@,
            q0 == old(manager).load_queue@,
            manager.load_queue@ == q0 + Seq::new((dz * WINDOW_SIDE) as nat, |s: int| initial_load_request(t, min_x, min_z, s)),
            forall|s: int| 0 <= s < POOL_CHUNK_COUNT ==> #[trigger] manager.metadata@[s]
                == if s < dz * WINDOW_SIDE {
                    SlotMetadata {
                        state: SlotState::Queued.code(),
                        grid_x: (min_x + s % WINDOW_SIDE as int) as i64,
                        grid_z: (min_z + s / WINDOW_SIDE as int) as i64,
                        ..meta0[s]
                    }
                } else {
                    meta0[s]
                },
        decreases WINDOW_SIDE - dz,
    {
        let mut dx: usize = 0;
        while dx < WINDOW_SIDE
            invariant
                0 <= dx <= WINDOW_SIDE,
                0 <= dz < WINDOW_SIDE,
                manager.wf(),
                manager.topology == t,
                t.valid(),
                min_x == manager.window_min_x,
                min_z == manager.window_min_z,
                i64::MIN + 8 <= min_x + 8 <= i64::MAX - 8,
                i64::MIN + 8 <= min_z + 8 <= i64::MAX - 8,
                manager.window_center_x == spawn_chunk_x as i64,
                manager.window_center_z == spawn_chunk_z as i64,
                manager.window_max_x == spawn_chunk_x + 8,
                manager.window_max_z == spawn_chunk_z + 8,
                manager.save_queue@ == old(manager).save_queue@,
                meta0 == old(manager).metadata@,
                q0 == old(manager).load_queue@,
                manager.load_queue@ == q0 + Seq::new((dz * WINDOW_SIDE + dx) as nat, |s: int| initial_load_request(t, min_x, min_z, s)),
                forall|s: int| 0 <= s < POOL_CHUNK_COUNT ==> #[trigger] manager.metadata@[s]
                    == if s < dz * WINDOW_SIDE + dx {
                        SlotMetadata {
                            state: SlotState::Queued.code(),
                            grid_x: (min_x + s % WINDOW_SIDE as int) as i64,
                            grid_z: (min_z + s / WINDOW_SIDE as int) as i64,
                            ..meta0[s]
                        }
                    } else {
                        meta0[s]
                    },
            decreases WINDOW_SIDE - dx,
        {
            let chunk_x = min_x + dx as i64;
            let chunk_z = min_z + dz as i64;

            let (norm_x, norm_z) = manager.topology.normalize_chunk(chunk_x, chunk_z);

            let slot = dz * WINDOW_SIDE + dx;
            proof {
                assert((slot as int) % 16 == dx && (slot as int) / 16 == dz) by (nonlinear_arith)
                    requires slot == dz * 16 + dx, dx < 16;
            }

            manager.load_queue.push(LoadRequest {
                slot,
                chunk_x: norm_x,
                chunk_z: norm_z,
                priority: 0,
            });

            manager.set_slot_state(slot, SlotState::Queued);
            manager.metadata[slot].grid_x = chunk_x;
            manager.metadata[slot].grid_z = chunk_z;
            proof {
                assert(manager.load_queue@ =~= q0 + Seq::new((dz * WINDOW_SIDE + dx + 1) as nat, |s: int| initial_load_request(t, min_x, min_z, s)));
            }
            dx = dx + 1;
        }
        dz = dz + 1;
    }

    pipeline.phase = ComputePhase::AwaitingPostSwap;
    initialized.done = true;
    true
}

/// Every queued request names a pool slot.
pub open spec fn queued_slots_in_pool(manager: &ChunkManager) -> bool {
    &&& forall|i: int| 0 <= i < manager.load_queue@.len() ==> (#[trigger] manager.load_queue@[i]).slot < POOL_CHUNK_COUNT
    &&& forall|i: int| 0 <= i < manager.save_queue@.len() ==> (#[trigger] manager.save_queue@[i]).slot < POOL_CHUNK_COUNT
}

/// Once the window is set up, takes out the queued loads (marking their
/// slots loading) and then the queued saves (marking their slots saving),
/// for the caller to send to the worker in that order.
pub fn update_window(manager: &mut ChunkManager, initialized: &WindowInitialized) -> (r: (Vec<LoadRequest>, Vec<SaveRequest>))
    requires
        old(manager).wf(),
        queued_slots_in_pool(old(manager)),
    ensures
        final(manager).wf(),
        final(manager).topology == old(manager).topology,
        !initialized.done ==> r.0@.len() == 0 && r.1@.len() == 0 && *final(manager) == *old(manager),
        initialized.done ==> ({
            let loads = old(manager).load_queue@;
            let saves = old(manager).save_queue@;
            let meta = old(manager).metadata@;
            &&& r.0@ == loads
            &&& r.1@ == saves
            &&& final(manager).load_queue@.len() == 0
            &&& final(manager).save_queue@.len() == 0
            &&& forall|s: int| 0 <= s < POOL_CHUNK_COUNT ==> #[trigger] final(manager).metadata@[s]
                == if exists|i: int| 0 <= i < saves.len() && saves[i].slot == s {
                    SlotMetadata { state: SlotState::Saving.code(), ..meta[s] }
                } else if exists|i: int| 0 <= i < loads.len() && loads[i].slot == s {
                    SlotMetadata { state: SlotState::Loading.code(), ..meta[s] }
                } else {
                    meta[s]
                }
        }),
{
    let mut requests: Vec<LoadRequest> = Vec::new();
    let mut save_requests: Vec<SaveRequest> = Vec::new();
    if !initialized.done {
        return (requests, save_requests);
    }

    let ghost meta0 = manager.metadata@;
    std::mem::swap(&mut requests, &mut manager.load_queue);
    let mut i: usize = 0;
    while i < requests.len()
        invariant
            0 <= i <= requests@.len(),
            manager.wf(),
            manager.topology == old(manager).topology,
            meta0 == old(manager).metadata@,
            requests@ == old(manager).load_queue@,
            queued_slots_in_pool(old(manager)),
            manager.load_queue@.len() == 0,
            manager.save_queue@ == old(manager).save_queue@,
            forall|s: int| 0 <= s < POOL_CHUNK_COUNT ==> #[trigger] manager.metadata@[s]
                == if exists|k: int| 0 <= k < i && requests@[k].slot == s {
                    SlotMetadata { state: SlotState::Loading.code(), ..meta0[s] }
                } else {
                    meta0[s]
                },
        decreases requests@.len() - i,
    {
        let slot = requests[i].slot;
        manager.set_slot_state(slot, SlotState::Loading);
        proof {
            assert forall|s: int| 0 <= s < POOL_CHUNK_COUNT implies #[trigger] manager.metadata@[s]
                == if exists|k: int| 0 <= k < i + 1 && requests@[k].slot == s {
                    SlotMetadata { state: SlotState::Loading.code(), ..meta0[s] }
                } else {
                    meta0[s]
                } by {
                if s == slot {
                    assert(requests@[i as int].slot == s);
                } else if exists|k: int| 0 <= k < i + 1 && requests@[k].slot == s {
                    let k = choose|k: int| 0 <= k < i + 1 && requests@[k].slot == s;
                    assert(k != i);
                }
            }
        }
        i = i + 1;
    }

    let ghost meta1 = manager.metadata@;
    std::mem::swap(&mut save_requests, &mut manager.save_queue);
    let mut j: usize = 0;
    while j < save_requests.len()
        invariant
            0 <= j <= save_requests@.len(),
            manager.wf(),
            manager.topology == old(manager).topology,
            meta0 == old(manager).metadata@,
            requests@ == old(manager).load_queue@,
            save_requests@ == old(manager).save_queue@,
            queued_slots_in_pool(old(manager)),
            manager.load_queue@.len() == 0,
            manager.save_queue@.len() == 0,
            forall|s: int| 0 <= s < POOL_CHUNK_COUNT ==> #[trigger] meta1[s]
                == if exists|k: int| 0 <= k < requests@.len() && requests@[k].slot == s {
                    SlotMetadata { state: SlotState::Loading.code(), ..meta0[s] }
                } else {
                    meta0[s]
                },
            meta1.len() == POOL_CHUNK_COUNT,
            forall|s: int| 0 <= s < POOL_CHUNK_COUNT ==> #[trigger] manager.metadata@[s]
                == if exists|k: int| 0 <= k < j && save_requests@[k].slot == s {
                    SlotMetadata { state: SlotState::Saving.code(), ..meta0[s] }
                } else {
                    meta1[s]
                },
        decreases save_requests@.len() - j,
    {
        let slot = save_requests[j].slot;
        manager.set_slot_state(slot, SlotState::Saving);
        proof {
            assert forall|s: int| 0 <= s < POOL_CHUNK_COUNT implies #[trigger] manager.metadata@[s]
                == if exists|k: int| 0 <= k < j + 1 && save_requests@[k].slot == s {
                    SlotMetadata { state: SlotState::Saving.code(), ..meta0[s] }
                } else {
                    meta1[s]
                } by {
                assert(meta1[s] == meta1[s]);
                if s == slot {
                    assert(save_requests@[j as int].slot == s);
                } else if exists|k: int| 0 <= k < j + 1 && save_requests@[k].slot == s {
                    let k = choose|k: int| 0 <= k < j + 1 && save_requests@[k].slot == s;
                    assert(k != j);
                }
            }
        }
        j = j + 1;
    }

    (requests, save_requests)
}

} // verus!
