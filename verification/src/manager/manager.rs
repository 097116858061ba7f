//! Chunk manager: the active window over the torus, per-slot metadata and
//! the load / save queues.
use vstd::prelude::*;
use crate::voxel::format::{Cell, CELLS_PER_CHUNK, CHUNK_HEIGHT, CHUNK_SIDE, POOL_CHUNK_COUNT,
    WINDOW_CHUNK_COUNT, WINDOW_SIDE};
use crate::voxel::pool::{ChunkPool, chunk_start};
use crate::voxel::topology::{TorusTopology, spec_cell_index};
use crate::io::channels::{LoadRequest, SaveRequest};
use super::metadata::{SlotMetadata, SlotState};
use crate::render::render_systems::{lemma_window_slot_roundtrip, window_slot_coords};

verus! {

/// Coordinator of the chunk slots (no cell data of its own).
pub struct ChunkManager {
    pub metadata: Vec<SlotMetadata>,
    pub topology: TorusTopology,

    // Bounds of the active window, in chunks.
    pub window_min_x: i64,
    pub window_min_z: i64,
    pub window_max_x: i64,
    pub window_max_z: i64,

    // Centre of the window (the player's chunk).
    pub window_center_x: i64,
    pub window_center_z: i64,

    // Queued requests.
    pub load_queue: Vec<LoadRequest>,
    pub save_queue: Vec<SaveRequest>,
}

/// Position of block `(x, y, z)` in the active window of a manager: the
/// window slot of its chunk and its cell index there.  `None` when `y` is
/// outside the chunk height or the chunk is outside the window.
pub open spec fn spec_block_location(t: TorusTopology, window_min_x: i64, window_min_z: i64, x: int, y: int, z: int) -> Option<(int, int)> {
    if y < 0 || y >= CHUNK_HEIGHT {
        None
    } else {
        let rel_x = x - t.min_block_x;
        let rel_z = z - t.min_block_z;
        let cx = t.wrap_chunk_x(rel_x / CHUNK_SIDE as int);
        let cz = t.wrap_chunk_z(rel_z / CHUNK_SIDE as int);
        let dx = t.wrap_chunk_x(cx - window_min_x);
        let dz = t.wrap_chunk_z(cz - window_min_z);
        if dx < WINDOW_SIDE && dz < WINDOW_SIDE {
            Some((dz * WINDOW_SIDE + dx, spec_cell_index(rel_x % CHUNK_SIDE as int, y, rel_z % CHUNK_SIDE as int)))
        } else {
            None
        }
    }
}

impl ChunkManager {
    /// One metadata entry per pool slot.
    pub open spec fn wf(&self) -> bool {
        self.metadata@.len() == POOL_CHUNK_COUNT
    }

    /// The manager can place blocks in its window: its topology is valid
    /// and offsets from the window corner cannot overflow.
    pub open spec fn addressable(&self) -> bool {
        &&& self.topology.valid()
        &&& self.window_min_x >= self.topology.chunks_x - 1 - i64::MAX
        &&& self.window_min_z >= self.topology.chunks_z - 1 - i64::MAX
    }

    /// Where block `(x, y, z)` lies in the active window.
    pub open spec fn block_location(&self, x: int, y: int, z: int) -> Option<(int, int)> {
        spec_block_location(self.topology, self.window_min_x, self.window_min_z, x, y, z)
    }

    /// The life-cycle state of a slot.
    pub open spec fn slot_state(&self, slot: int) -> SlotState {
        self.metadata@[slot].spec_state()
    }

    /// The cell that a read of block `(x, y, z)` from `pool` yields: the
    /// cell at the block's window position, when its slot is ready.
    pub open spec fn spec_read_cell(&self, pool: &ChunkPool, x: int, y: int, z: int) -> Option<Cell> {
        match self.block_location(x, y, z) {
            Some(loc) => if self.slot_state(loc.0) == SlotState::Ready {
                Some(pool.cell(loc.0, loc.1))
            } else {
                None
            },
            None => None,
        }
    }

    pub fn new(topology: TorusTopology) -> (m: Self)
        ensures
            m.wf(),
            m.topology == topology,
            forall|s: int| 0 <= s < POOL_CHUNK_COUNT ==> (#[trigger] m.metadata@[s]).is_fresh(),
            m.window_min_x == 0 && m.window_min_z == 0,
            m.window_max_x == 0 && m.window_max_z == 0,
            m.window_center_x == 0 && m.window_center_z == 0,
            m.load_queue@.len() == 0,
            m.save_queue@.len() == 0,
    {
        let mut metadata: Vec<SlotMetadata> = Vec::new();
        let mut i: usize = 0;
        while i < POOL_CHUNK_COUNT
            invariant
                0 <= i <= POOL_CHUNK_COUNT,
                metadata@.len() == i,
                forall|s: int| 0 <= s < i ==> (#[trigger] metadata@[s]).is_fresh(),
            decreases POOL_CHUNK_COUNT - i,
        {
            metadata.push(SlotMetadata::new());
            i = i + 1;
        }
        Self {
            metadata,
            topology,
            window_min_x: 0,
            window_min_z: 0,
            window_max_x: 0,
            window_max_z: 0,
            window_center_x: 0,
            window_center_z: 0,
            load_queue: Vec::new(),
            save_queue: Vec::new(),
        }
    }

    /// Centres the window on chunk `(center_x, center_z)`: the window spans
    /// `WINDOW_SIDE / 2` chunks on each side of the centre.
    pub fn set_window_center(&mut self, center_x: i64, center_z: i64)
        requires
            i64::MIN + 8 <= center_x <= i64::MAX - 8,
            i64::MIN + 8 <= center_z <= i64::MAX - 8,
        ensures
            *final(self) == (ChunkManager {
                window_center_x: center_x,
                window_center_z: center_z,
                window_min_x: (center_x - 8) as i64,
                window_min_z: (center_z - 8) as i64,
                window_max_x: (center_x + 8) as i64,
                window_max_z: (center_z + 8) as i64,
                ..*old(self)
            }),
    {
        self.window_center_x = center_x;
        self.window_center_z = center_z;

        let half = (WINDOW_SIDE / 2) as i64;
        self.window_min_x = center_x - half;
        self.window_min_z = center_z - half;
        self.window_max_x = center_x + half;
        self.window_max_z = center_z + half;
    }

    /// Window slot of chunk `(chunk_x, chunk_z)`: its offsets from the
    /// window corner, wrapped around the torus, when both are below
    /// `WINDOW_SIDE`.
    pub open spec fn window_slot(&self, chunk_x: usize, chunk_z: usize) -> Option<usize> {
        let dx = self.topology.wrap_chunk_x((chunk_x as i64) - self.window_min_x);
        let dz = self.topology.wrap_chunk_z((chunk_z as i64) - self.window_min_z);
        if dx < WINDOW_SIDE && dz < WINDOW_SIDE {
            Some((dz * WINDOW_SIDE + dx) as usize)
        } else {
            None
        }
    }

    /// Whether chunk `(chunk_x, chunk_z)` lies in the active window
    /// (`WINDOW_SIDE` chunks on a side from the window corner, wrapped
    /// around the torus): exactly when it has a window slot.
    pub fn is_in_window(&self, chunk_x: usize, chunk_z: usize) -> (r: bool)
        requires
            self.topology.valid(),
            i64::MIN <= (chunk_x as i64) - self.window_min_x <= i64::MAX,
            i64::MIN <= (chunk_z as i64) - self.window_min_z <= i64::MAX,
        ensures
            r == self.window_slot(chunk_x, chunk_z) is Some,
    {
        self.slot_for_chunk(chunk_x, chunk_z).is_some()
    }

    /// Window slot of chunk `(chunk_x, chunk_z)`, if it is in the window
    /// (offsets from the window corner wrap around the torus).
    pub fn slot_for_chunk(&self, chunk_x: usize, chunk_z: usize) -> (r: Option<usize>)
        requires
            self.topology.valid(),
            i64::MIN <= (chunk_x as i64) - self.window_min_x <= i64::MAX,
            i64::MIN <= (chunk_z as i64) - self.window_min_z <= i64::MAX,
        ensures
            r == self.window_slot(chunk_x, chunk_z),
            ({
                let dx = self.topology.wrap_chunk_x((chunk_x as i64) - self.window_min_x);
                let dz = self.topology.wrap_chunk_z((chunk_z as i64) - self.window_min_z);
                &&& (dx < WINDOW_SIDE && dz < WINDOW_SIDE) <==> r is Some
                &&& r matches Some(s) ==> s == dz * WINDOW_SIDE + dx
            }),
            r matches Some(s) ==> s < WINDOW_CHUNK_COUNT,
    {
        self.topology.slot_index_in_window(chunk_x, chunk_z, self.window_min_x, self.window_min_z)
    }

    pub fn get_slot_state(&self, slot: usize) -> (r: SlotState)
        requires
            slot < self.metadata@.len(),
        ensures
            r == self.slot_state(slot as int),
    {
        self.metadata[slot].get_state()
    }

    pub fn set_slot_state(&mut self, slot: usize, state: SlotState)
        requires
            slot < old(self).metadata@.len(),
        ensures
            final(self).metadata@ == old(self).metadata@.update(slot as int,
                SlotMetadata { state: state.code(), ..old(self).metadata@[slot as int] }),
            final(self).topology == old(self).topology,
            final(self).window_min_x == old(self).window_min_x,
            final(self).window_min_z == old(self).window_min_z,
            final(self).window_max_x == old(self).window_max_x,
            final(self).window_max_z == old(self).window_max_z,
            final(self).window_center_x == old(self).window_center_x,
            final(self).window_center_z == old(self).window_center_z,
            final(self).load_queue@ == old(self).load_queue@,
            final(self).save_queue@ == old(self).save_queue@,
    {
        self.metadata[slot].set_state(state);
    }

    pub fn is_pending_b_dirty(&self, slot: usize) -> (r: bool)
        requires
            slot < self.metadata@.len(),
        ensures
            r == self.metadata@[slot as int].pending_b_dirty,
    {
        self.metadata[slot].pending_b_dirty
    }

    pub fn set_pending_b_dirty(&mut self, slot: usize, dirty: bool)
        requires
            slot < old(self).metadata@.len(),
        ensures
            final(self).metadata@ == old(self).metadata@.update(slot as int,
                SlotMetadata { pending_b_dirty: dirty, ..old(self).metadata@[slot as int] }),
            final(self).topology == old(self).topology,
            final(self).window_min_x == old(self).window_min_x,
            final(self).window_min_z == old(self).window_min_z,
            final(self).window_max_x == old(self).window_max_x,
            final(self).window_max_z == old(self).window_max_z,
            final(self).window_center_x == old(self).window_center_x,
            final(self).window_center_z == old(self).window_center_z,
            final(self).load_queue@ == old(self).load_queue@,
            final(self).save_queue@ == old(self).save_queue@,
    {
        self.metadata[slot].pending_b_dirty = dirty;
    }

    pub fn is_file_dirty(&self, slot: usize) -> (r: bool)
        requires
            slot < self.metadata@.len(),
        ensures
            r == self.metadata@[slot as int].file_dirty,
    {
        self.metadata[slot].file_dirty
    }

    pub fn set_file_dirty(&mut self, slot: usize, dirty: bool)
        requires
            slot < old(self).metadata@.len(),
        ensures
            final(self).metadata@ == old(self).metadata@.update(slot as int,
                SlotMetadata { file_dirty: dirty, ..old(self).metadata@[slot as int] }),
            final(self).topology == old(self).topology,
            final(self).window_min_x == old(self).window_min_x,
            final(self).window_min_z == old(self).window_min_z,
            final(self).window_max_x == old(self).window_max_x,
            final(self).window_max_z == old(self).window_max_z,
            final(self).window_center_x == old(self).window_center_x,
            final(self).window_center_z == old(self).window_center_z,
            final(self).load_queue@ == old(self).load_queue@,
            final(self).save_queue@ == old(self).save_queue@,
    {
        self.metadata[slot].file_dirty = dirty;
    }

    /// Whether some slot is being saved.
    pub fn has_saving_slots(&self) -> (r: bool)
        ensures
            r <==> exists|s: int| 0 <= s < self.metadata@.len() && #[trigger] self.slot_state(s) == SlotState::Saving,
    {
        let mut i: usize = 0;
        while i < self.metadata.len()
            invariant
                0 <= i <= self.metadata@.len(),
                forall|s: int| 0 <= s < i ==> #[trigger] self.slot_state(s) != SlotState::Saving,
            decreases self.metadata@.len() - i,
        {
            if self.metadata[i].get_state() == SlotState::Saving {
                assert(self.slot_state(i as int) == SlotState::Saving);
                return true;
            }
            i = i + 1;
        }
        false
    }

    /// The window slot and cell index of block `(x, y, z)`, if its chunk is
    /// in the window.
    fn locate_block(&self, x: i64, y: i64, z: i64) -> (r: Option<(usize, usize)>)
        requires
            self.addressable(),
            i64::MIN <= x - self.topology.min_block_x <= i64::MAX,
            i64::MIN <= z - self.topology.min_block_z <= i64::MAX,
        ensures
            r matches Some(loc) ==> self.block_location(x as int, y as int, z as int) == Some((loc.0 as int, loc.1 as int))
                && loc.0 < WINDOW_CHUNK_COUNT && loc.1 < CELLS_PER_CHUNK,
            r is None ==> self.block_location(x as int, y as int, z as int) is None,
    {
        let (cx, cz, lx, ly, lz) = match self.topology.normalize_block(x, y, z) {
            Some(t) => t,
            None => return None,
        };
        let slot = match self.slot_for_chunk(cx, cz) {
            Some(s) => s,
            None => return None,
        };
        proof {
            crate::voxel::topology::lemma_cell_index_roundtrip(lx as int, ly as int, lz as int);
        }
        let cell_idx = self.topology.cell_index(lx, ly, lz);
        Some((slot, cell_idx))
    }

    /// Reads block `(x, y, z)` from the read pool: the cell, if the block's
    /// chunk is in the window and its slot is ready.
    pub fn read_cell<'a>(&self, read_world: &'a ChunkPool, x: i64, y: i64, z: i64) -> (r: Option<&'a Cell>)
        requires
            self.wf(),
            self.addressable(),
            read_world.wf(),
            read_world.slot_count >= WINDOW_CHUNK_COUNT,
            i64::MIN <= x - self.topology.min_block_x <= i64::MAX,
            i64::MIN <= z - self.topology.min_block_z <= i64::MAX,
        ensures
            (match r { Some(c) => Some(*c), None => None::<Cell> }) == self.spec_read_cell(read_world, x as int, y as int, z as int),
    {
        let (slot, cell_idx) = match self.locate_block(x, y, z) {
            Some(loc) => loc,
            None => return None,
        };

        if self.get_slot_state(slot) != SlotState::Ready {
            return None;
        }

        Some(read_world.get(slot, cell_idx))
    }

    /// Writes `cell` to block `(x, y, z)` of the write pool and marks its
    /// slot as changed, if the block's chunk is in the window and its slot
    /// is ready.  Returns whether it wrote.
    pub fn write_cell(&mut self, write_world: &mut ChunkPool, x: i64, y: i64, z: i64, cell: Cell) -> (r: bool)
        requires
            old(self).wf(),
            old(self).addressable(),
            old(write_world).wf(),
            old(write_world).slot_count >= WINDOW_CHUNK_COUNT,
            i64::MIN <= x - old(self).topology.min_block_x <= i64::MAX,
            i64::MIN <= z - old(self).topology.min_block_z <= i64::MAX,
        ensures
            final(self).wf(),
            final(write_world).wf(),
            final(write_world).slot_count == old(write_world).slot_count,
            r == old(self).spec_read_cell(old(write_world), x as int, y as int, z as int) is Some,
            r ==> ({
                let loc = old(self).block_location(x as int, y as int, z as int)->0;
                &&& final(write_world).data@ == old(write_world).data@.update(chunk_start(loc.0) + loc.1, cell)
                &&& final(self).metadata@ == old(self).metadata@.update(loc.0,
                    SlotMetadata { pending_b_dirty: true, ..old(self).metadata@[loc.0] })
            }),
            !r ==> final(write_world).data@ == old(write_world).data@ && final(self).metadata@ == old(self).metadata@,
            final(self).topology == old(self).topology,
            final(self).window_min_x == old(self).window_min_x,
            final(self).window_min_z == old(self).window_min_z,
            final(self).window_max_x == old(self).window_max_x,
            final(self).window_max_z == old(self).window_max_z,
            final(self).window_center_x == old(self).window_center_x,
            final(self).window_center_z == old(self).window_center_z,
            final(self).load_queue@ == old(self).load_queue@,
            final(self).save_queue@ == old(self).save_queue@,
            r ==> final(self).spec_read_cell(final(write_world), x as int, y as int, z as int) == Some(cell),
    {
        let (slot, cell_idx) = match self.locate_block(x, y, z) {
            Some(loc) => loc,
            None => return false,
        };

        if self.get_slot_state(slot) != SlotState::Ready {
            return false;
        }

        *write_world.get_mut(slot, cell_idx) = cell;
        self.set_pending_b_dirty(slot, true);
        proof {
            crate::voxel::pool::lemma_cell_in_bounds(slot as int, cell_idx as int, write_world.slot_count as int);
            assert(self.slot_state(slot as int) == SlotState::Ready);
        }

        true
    }

    /// The slots of the active window.
    pub fn active_window_slots(&self) -> (r: std::ops::Range<usize>)
        ensures
            r.start == 0,
            r.end == WINDOW_CHUNK_COUNT,
    {
        0..WINDOW_CHUNK_COUNT
    }

    /// Chunk coordinates, wrapped onto the torus, of a window slot; `None`
    /// for a slot outside the window.
    pub fn slot_to_chunk_coords(&self, slot: usize) -> (r: Option<(i64, i64)>)
        requires
            self.topology.valid(),
            self.window_min_x <= i64::MAX - WINDOW_SIDE,
            self.window_min_z <= i64::MAX - WINDOW_SIDE,
        ensures
            slot >= WINDOW_CHUNK_COUNT <==> r is None,
            r matches Some(c) ==> {
                &&& c.0 == self.topology.wrap_chunk_x(self.window_min_x + (slot % WINDOW_SIDE) as int)
                &&& c.1 == self.topology.wrap_chunk_z(self.window_min_z + (slot / WINDOW_SIDE) as int)
            },
    {
        if slot >= WINDOW_SIDE * WINDOW_SIDE {
            return None;
        }

        let dx = slot % WINDOW_SIDE;
        let dz = slot / WINDOW_SIDE;

        let chunk_x = self.window_min_x + dx as i64;
        let chunk_z = self.window_min_z + dz as i64;

        let (norm_x, norm_z) = self.topology.normalize_chunk(chunk_x, chunk_z);
        Some((norm_x as i64, norm_z as i64))
    }
}

/// In a torus at least as large as the window, the chunk that
/// `slot_to_chunk_coords` gives for a window slot is found by
/// `slot_for_chunk` in that same slot.
pub proof fn lemma_slot_coords_find_their_slot(manager: &ChunkManager, slot: int)
    requires
        manager.topology.valid(),
        manager.topology.chunks_x >= WINDOW_SIDE,
        manager.topology.chunks_z >= WINDOW_SIDE,
        0 <= slot < WINDOW_CHUNK_COUNT,
    ensures
        ({
            let cx = manager.topology.wrap_chunk_x(manager.window_min_x + (slot % WINDOW_SIDE as int));
            let cz = manager.topology.wrap_chunk_z(manager.window_min_z + (slot / WINDOW_SIDE as int));
            manager.window_slot(cx as usize, cz as usize) == Some(slot as usize)
        }),
{
    let t = manager.topology;
    let cx = t.wrap_chunk_x(manager.window_min_x + (slot % WINDOW_SIDE as int));
    let cz = t.wrap_chunk_z(manager.window_min_z + (slot / WINDOW_SIDE as int));
    assert(0 <= cx < t.chunks_x);
    assert(0 <= cz < t.chunks_z);
    assert(((cx as usize) as i64) == cx);
    assert(((cz as usize) as i64) == cz);
    lemma_window_slot_roundtrip(manager, slot);
    assert(window_slot_coords(manager, slot) == (cx as i64, cz as i64));
}

} // verus!
