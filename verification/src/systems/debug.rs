//! Figures for the debug report: slot states of the window and what the
//! published world holds.  Printing them is the caller's part.
use vstd::prelude::*;
use crate::manager::manager::ChunkManager;
use crate::manager::metadata::SlotState;
use crate::voxel::format::{CELLS_PER_CHUNK, CHUNK_HEIGHT, CHUNK_SIDE, WINDOW_CHUNK_COUNT};
use crate::voxel::materials::{ids, is_transparent, transparent_material};
use crate::voxel::pool::ChunkPool;
use crate::voxel::topology::spec_cell_index;

verus! {

/// How many window slots are in each state, and how many are active.
#[derive(Clone, Copy, Debug, PartialEq, Eq, Structural)]
pub struct SlotStateCounts {
    pub empty: usize,
    pub queued: usize,
    pub loading: usize,
    pub ready: usize,
    pub awaiting_save: usize,
    pub saving: usize,
    pub failed: usize,
    pub active: usize,
}

/// Number of the first `n` slots of `m` in state `st`.
pub open spec fn window_state_count(m: &ChunkManager, st: SlotState, n: int) -> nat
    decreases n,
{
    if n <= 0 {
        0
    } else {
        window_state_count(m, st, n - 1) + if m.slot_state(n - 1) == st { 1nat } else { 0nat }
    }
}

/// Number of the first `n` slots of `m` that are active.
pub open spec fn window_active_count(m: &ChunkManager, n: int) -> nat
    decreases n,
{
    if n <= 0 {
        0
    } else {
        window_active_count(m, n - 1) + if m.metadata@[n - 1].is_active { 1nat } else { 0nat }
    }
}

/// Counts the window slots by state, and the active ones.
pub fn window_slot_state_counts(manager: &ChunkManager) -> (r: SlotStateCounts)
    requires
        manager.wf(),
    ensures
        r.empty == window_state_count(manager, SlotState::Empty, WINDOW_CHUNK_COUNT as int),
        r.queued == window_state_count(manager, SlotState::Queued, WINDOW_CHUNK_COUNT as int),
        r.loading == window_state_count(manager, SlotState::Loading, WINDOW_CHUNK_COUNT as int),
        r.ready == window_state_count(manager, SlotState::Ready, WINDOW_CHUNK_COUNT as int),
        r.awaiting_save == window_state_count(manager, SlotState::AwaitingSave, WINDOW_CHUNK_COUNT as int),
        r.saving == window_state_count(manager, SlotState::Saving, WINDOW_CHUNK_COUNT as int),
        r.failed == window_state_count(manager, SlotState::Failed, WINDOW_CHUNK_COUNT as int),
        r.active == window_active_count(manager, WINDOW_CHUNK_COUNT as int),
{
    let mut c = SlotStateCounts {
        empty: 0,
        queued: 0,
        loading: 0,
        ready: 0,
        awaiting_save: 0,
        saving: 0,
        failed: 0,
        active: 0,
    };
    let mut slot: usize = 0;
    while slot < WINDOW_CHUNK_COUNT
        invariant
            0 <= slot <= WINDOW_CHUNK_COUNT,
            manager.wf(),
            c.empty == window_state_count(manager, SlotState::Empty, slot as int),
            c.queued == window_state_count(manager, SlotState::Queued, slot as int),
            c.loading == window_state_count(manager, SlotState::Loading, slot as int),
            c.ready == window_state_count(manager, SlotState::Ready, slot as int),
            c.awaiting_save == window_state_count(manager, SlotState::AwaitingSave, slot as int),
            c.saving == window_state_count(manager, SlotState::Saving, slot as int),
            c.failed == window_state_count(manager, SlotState::Failed, slot as int),
            c.active == window_active_count(manager, slot as int),
            c.empty <= slot && c.queued <= slot && c.loading <= slot && c.ready <= slot,
            c.awaiting_save <= slot && c.saving <= slot && c.failed <= slot && c.active <= slot,
        decreases WINDOW_CHUNK_COUNT - slot,
    {
        match manager.get_slot_state(slot) {
            SlotState::Empty => c.empty = c.empty + 1,
            SlotState::Queued => c.queued = c.queued + 1,
            SlotState::Loading => c.loading = c.loading + 1,
            SlotState::Ready => c.ready = c.ready + 1,
            SlotState::AwaitingSave => c.awaiting_save = c.awaiting_save + 1,
            SlotState::Saving => c.saving = c.saving + 1,
            SlotState::Failed => c.failed = c.failed + 1,
        }
        if manager.metadata[slot].is_active() {
            c.active = c.active + 1;
        }
        slot = slot + 1;
    }
    c
}

/// Number of air cells among the first `n` cells of the chunk in `slot`.
pub open spec fn chunk_air_count(pool: &ChunkPool, slot: int, n: int) -> nat
    decreases n,
{
    if n <= 0 {
        0
    } else {
        chunk_air_count(pool, slot, n - 1) + if pool.cell(slot, n - 1).material_id == ids::AIR { 1nat } else { 0nat }
    }
}

/// Counts the air and the non-air cells of the chunk in `slot`.
pub fn chunk_material_counts(pool: &ChunkPool, slot: usize) -> (r: (u32, u32))
    requires
        pool.wf(),
        slot < pool.slot_count,
    ensures
        r.0 == chunk_air_count(pool, slot as int, CELLS_PER_CHUNK as int),
        r.0 + r.1 == CELLS_PER_CHUNK,
{
    let mut air: u32 = 0;
    let mut solid: u32 = 0;
    let mut i: usize = 0;
    while i < CELLS_PER_CHUNK
        invariant
            0 <= i <= CELLS_PER_CHUNK,
            pool.wf(),
            slot < pool.slot_count,
            air == chunk_air_count(pool, slot as int, i as int),
            air + solid == i,
        decreases CELLS_PER_CHUNK - i,
    {
        if pool.get(slot, i).material_id == ids::AIR {
            air = air + 1;
        } else {
            solid = solid + 1;
        }
        i = i + 1;
    }
    (air, solid)
}

/// Number of air cells in the ready slots among the first `n` window slots.
pub open spec fn ready_window_air(m: &ChunkManager, pool: &ChunkPool, n: int) -> nat
    decreases n,
{
    if n <= 0 {
        0
    } else {
        ready_window_air(m, pool, n - 1)
            + if m.slot_state(n - 1) == SlotState::Ready { chunk_air_count(pool, n - 1, CELLS_PER_CHUNK as int) } else { 0nat }
    }
}

/// Counts the air and the non-air cells of the ready window slots of `pool`.
pub fn ready_window_content(manager: &ChunkManager, pool: &ChunkPool) -> (r: (u64, u64))
    requires
        manager.wf(),
        pool.wf(),
        pool.slot_count >= WINDOW_CHUNK_COUNT,
    ensures
        r.0 == ready_window_air(manager, pool, WINDOW_CHUNK_COUNT as int),
        r.0 + r.1 == window_state_count(manager, SlotState::Ready, WINDOW_CHUNK_COUNT as int) * CELLS_PER_CHUNK,
{
    let mut total_air: u64 = 0;
    let mut total_solid: u64 = 0;
    let mut slot: usize = 0;
    while slot < WINDOW_CHUNK_COUNT
        invariant
            0 <= slot <= WINDOW_CHUNK_COUNT,
            manager.wf(),
            pool.wf(),
            pool.slot_count >= WINDOW_CHUNK_COUNT,
            total_air == ready_window_air(manager, pool, slot as int),
            total_air + total_solid == window_state_count(manager, SlotState::Ready, slot as int) * CELLS_PER_CHUNK,
            window_state_count(manager, SlotState::Ready, slot as int) <= slot,
        decreases WINDOW_CHUNK_COUNT - slot,
    {
        if manager.get_slot_state(slot) == SlotState::Ready {
            let (air, solid) = chunk_material_counts(pool, slot);
            total_air = total_air + air as u64;
            total_solid = total_solid + solid as u64;
        }
        slot = slot + 1;
    }
    (total_air, total_solid)
}

/// Whether a face toward the cell at local coordinates `(nx, ny, nz)` of
/// the chunk in `slot` shows, judged within that chunk alone: above the
/// world it does, below it does not, a cell of the chunk lets it show when
/// its material lets light through, and a cell outside the chunk counts as
/// hiding it.
pub open spec fn spec_in_chunk_face_visible(pool: &ChunkPool, slot: int, nx: int, ny: int, nz: int) -> bool {
    if ny < 0 || ny >= CHUNK_HEIGHT as int {
        ny >= CHUNK_HEIGHT as int
    } else if 0 <= nx < CHUNK_SIDE as int && 0 <= nz < CHUNK_SIDE as int {
        transparent_material(pool.cell(slot, spec_cell_index(nx, ny, nz)).material_id)
    } else {
        false
    }
}

/// Whether a face toward the cell at local coordinates `(nx, ny, nz)` of
/// the chunk in `slot` shows, judged within that chunk alone (see
/// `spec_in_chunk_face_visible`).
pub fn in_chunk_face_visible(pool: &ChunkPool, slot: usize, nx: i64, ny: i64, nz: i64) -> (r: bool)
    requires
        pool.wf(),
        slot < pool.slot_count,
    ensures
        r == spec_in_chunk_face_visible(pool, slot as int, nx as int, ny as int, nz as int),
{
    if ny < 0 || ny >= CHUNK_HEIGHT as i64 {
        return ny >= CHUNK_HEIGHT as i64;
    }
    if 0 <= nx && nx < CHUNK_SIDE as i64 && 0 <= nz && nz < CHUNK_SIDE as i64 {
        let x = nx as usize;
        let y = ny as usize;
        let z = nz as usize;
        let idx = (z * CHUNK_SIDE + x) * CHUNK_HEIGHT + y;
        assert(idx < CELLS_PER_CHUNK) by (nonlinear_arith)
            requires idx == (z * 16 + x) * 64 + y, z < 16, x < 16, y < 64;
        return is_transparent(pool.get(slot, idx).material_id);
    }
    false
}

/// Material id reported for a neighbour whose chunk is outside the window.
pub const MISSING_NEIGHBOUR: u16 = 999;

/// The material of cell `cell_index` of chunk `(chunk_x, chunk_z)` as the
/// window holds it (`MISSING_NEIGHBOUR` when the chunk is outside the
/// window), and whether a face toward it shows: for air, or a material
/// that lets light through.
pub fn window_neighbour(manager: &ChunkManager, pool: &ChunkPool, chunk_x: usize, chunk_z: usize, cell_index: usize)
    -> (r: (u16, bool))
    requires
        manager.topology.valid(),
        i64::MIN <= (chunk_x as i64) - manager.window_min_x <= i64::MAX,
        i64::MIN <= (chunk_z as i64) - manager.window_min_z <= i64::MAX,
        pool.wf(),
        pool.slot_count >= WINDOW_CHUNK_COUNT,
        cell_index < CELLS_PER_CHUNK,
    ensures
        r.0 == match manager.window_slot(chunk_x, chunk_z) {
            Some(s) => pool.cell(s as int, cell_index as int).material_id,
            None => MISSING_NEIGHBOUR,
        },
        r.1 == (r.0 == ids::AIR || transparent_material(r.0)),
{
    let material_id = match manager.slot_for_chunk(chunk_x, chunk_z) {
        Some(slot) => pool.get(slot, cell_index).material_id,
        None => MISSING_NEIGHBOUR,
    };
    (material_id, material_id == ids::AIR || is_transparent(material_id))
}

} // verus!
