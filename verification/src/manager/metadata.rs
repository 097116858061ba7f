//! Per-slot metadata of the chunk pool.
use vstd::prelude::*;
use crate::voxel::format::CHUNK_HEIGHT;

verus! {

/// Life-cycle state of a pool slot.
#[derive(Clone, Copy, PartialEq, Eq, Debug, Structural)]
pub enum SlotState {
    Empty,
    Queued,
    Loading,
    Ready,
    AwaitingSave,
    Saving,
    Failed,
}

impl SlotState {
    /// The byte a state is stored as (`Empty` = 0 … `Failed` = 6).
    pub open spec fn code(self) -> u8 {
        match self {
            SlotState::Empty => 0,
            SlotState::Queued => 1,
            SlotState::Loading => 2,
            SlotState::Ready => 3,
            SlotState::AwaitingSave => 4,
            SlotState::Saving => 5,
            SlotState::Failed => 6,
        }
    }

    /// The state a stored byte stands for; any byte above 5 reads as `Failed`.
    pub open spec fn from_code(c: u8) -> SlotState {
        if c == 0 {
            SlotState::Empty
        } else if c == 1 {
            SlotState::Queued
        } else if c == 2 {
            SlotState::Loading
        } else if c == 3 {
            SlotState::Ready
        } else if c == 4 {
            SlotState::AwaitingSave
        } else if c == 5 {
            SlotState::Saving
        } else {
            SlotState::Failed
        }
    }

    /// The byte this state is stored as.
    pub fn to_u8(self) -> (r: u8)
        ensures
            r == self.code(),
    {
        match self {
            SlotState::Empty => 0,
            SlotState::Queued => 1,
            SlotState::Loading => 2,
            SlotState::Ready => 3,
            SlotState::AwaitingSave => 4,
            SlotState::Saving => 5,
            SlotState::Failed => 6,
        }
    }
}

/// Reading back the stored byte of a state gives the state.
pub proof fn lemma_state_code_roundtrip(s: SlotState)
    ensures
        SlotState::from_code(s.code()) == s,
{
}

/// Metadata of one pool slot.
pub struct SlotMetadata {
    pub state: u8,
    pub grid_x: i64,
    pub grid_z: i64,
    pub file_dirty: bool,
    pub pending_b_dirty: bool,
    pub is_active: bool,
    pub is_shadow: bool,
    /// The renderer has been told that this slot's chunk is loaded.
    pub render_notified: bool,
    pub unload_timer: u32,
    /// One bit per render subchunk that changed.
    pub dirty_subchunks: u64,
    pub min_solid_y: u16,
    pub max_solid_y: u16,
    pub min_liquid_y: u16,
    pub max_liquid_y: u16,
}

impl SlotMetadata {
    /// Metadata of a slot that holds nothing yet.
    pub open spec fn is_fresh(self) -> bool {
        &&& self.state == SlotState::Empty.code()
        &&& self.grid_x == 0 && self.grid_z == 0
        &&& !self.file_dirty && !self.pending_b_dirty
        &&& !self.is_active && !self.is_shadow && !self.render_notified
        &&& self.unload_timer == 0
        &&& self.dirty_subchunks == 0
        &&& self.min_solid_y == CHUNK_HEIGHT && self.max_solid_y == 0
        &&& self.min_liquid_y == CHUNK_HEIGHT && self.max_liquid_y == 0
    }

    pub fn new() -> (m: Self)
        ensures
            m.is_fresh(),
    {
        Self {
            state: SlotState::Empty.to_u8(),
            grid_x: 0,
            grid_z: 0,
            file_dirty: false,
            pending_b_dirty: false,
            is_active: false,
            is_shadow: false,
            render_notified: false,
            unload_timer: 0,
            dirty_subchunks: 0,
            min_solid_y: CHUNK_HEIGHT as u16,
            max_solid_y: 0,
            min_liquid_y: CHUNK_HEIGHT as u16,
            max_liquid_y: 0,
        }
    }

    /// The life-cycle state of the slot.
    pub open spec fn spec_state(self) -> SlotState {
        SlotState::from_code(self.state)
    }

    pub fn get_state(&self) -> (r: SlotState)
        ensures
            r == self.spec_state(),
    {
        match self.state {
            0 => SlotState::Empty,
            1 => SlotState::Queued,
            2 => SlotState::Loading,
            3 => SlotState::Ready,
            4 => SlotState::AwaitingSave,
            5 => SlotState::Saving,
            _ => SlotState::Failed,
        }
    }

    pub fn set_state(&mut self, state: SlotState)
        ensures
            *final(self) == (SlotMetadata { state: state.code(), ..*old(self) }),
    {
        self.state = state.to_u8();
    }

    pub fn is_active(&self) -> (r: bool)
        ensures
            r == self.is_active,
    {
        self.is_active
    }

    pub fn set_active(&mut self, active: bool)
        ensures
            *final(self) == (SlotMetadata { is_active: active, ..*old(self) }),
    {
        self.is_active = active;
    }

    pub fn is_shadow(&self) -> (r: bool)
        ensures
            r == self.is_shadow,
    {
        self.is_shadow
    }

    pub fn set_shadow(&mut self, shadow: bool)
        ensures
            *final(self) == (SlotMetadata { is_shadow: shadow, ..*old(self) }),
    {
        self.is_shadow = shadow;
    }

    pub fn is_render_notified(&self) -> (r: bool)
        ensures
            r == self.render_notified,
    {
        self.render_notified
    }

    pub fn set_render_notified(&mut self, notified: bool)
        ensures
            *final(self) == (SlotMetadata { render_notified: notified, ..*old(self) }),
    {
        self.render_notified = notified;
    }

    pub fn get_unload_timer(&self) -> (r: u32)
        ensures
            r == self.unload_timer,
    {
        self.unload_timer
    }

    pub fn set_unload_timer(&mut self, value: u32)
        ensures
            *final(self) == (SlotMetadata { unload_timer: value, ..*old(self) }),
    {
        self.unload_timer = value;
    }

    /// Counts the unload timer down by one, stopping at zero.
    pub fn decrement_unload_timer(&mut self)
        ensures
            *final(self) == (SlotMetadata {
                unload_timer: if old(self).unload_timer > 0 { (old(self).unload_timer - 1) as u32 } else { 0 },
                ..*old(self)
            }),
    {
        let current = self.unload_timer;
        if current > 0 {
            self.unload_timer = current - 1;
        }
    }

    /// Marks render subchunk `subchunk_idx` as changed.
    pub fn mark_subchunk_dirty(&mut self, subchunk_idx: usize)
        requires
            subchunk_idx < 64,
        ensures
            *final(self) == (SlotMetadata {
                dirty_subchunks: old(self).dirty_subchunks | (1u64 << subchunk_idx),
                ..*old(self)
            }),
    {
        self.dirty_subchunks = self.dirty_subchunks | (1u64 << subchunk_idx);
    }

    pub fn get_dirty_subchunks(&self) -> (r: u64)
        ensures
            r == self.dirty_subchunks,
    {
        self.dirty_subchunks
    }

    /// Returns the changed-subchunk mask and resets it.
    pub fn take_dirty_subchunks(&mut self) -> (r: u64)
        ensures
            r == old(self).dirty_subchunks,
            *final(self) == (SlotMetadata { dirty_subchunks: 0, ..*old(self) }),
    {
        let r = self.dirty_subchunks;
        self.dirty_subchunks = 0;
        r
    }

    pub fn clear_dirty_subchunks(&mut self)
        ensures
            *final(self) == (SlotMetadata { dirty_subchunks: 0, ..*old(self) }),
    {
        self.dirty_subchunks = 0;
    }
}

impl Default for SlotMetadata {
    fn default() -> (m: Self)
        ensures
            m.is_fresh(),
    {
        Self::new()
    }
}

/// A marked subchunk reads back as marked, and the other marks stay as they were.
pub proof fn lemma_mark_subchunk_dirty(mask: u64, idx: u64, other: u64)
    requires
        idx < 64,
        other < 64,
    ensures
        ((mask | (1u64 << idx)) >> idx) & 1u64 == 1u64,
        other != idx ==> (((mask | (1u64 << idx)) >> other) & 1u64 == (mask >> other) & 1u64),
{
    assert(((mask | (1u64 << idx)) >> idx) & 1u64 == 1u64) by (bit_vector)
        requires idx < 64u64;
    assert(other != idx ==> (((mask | (1u64 << idx)) >> other) & 1u64 == (mask >> other) & 1u64))
        by (bit_vector)
        requires idx < 64u64, other < 64u64;
}

} // verus!
