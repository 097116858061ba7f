//! Copying a whole window of chunks from the shadow pool into the active
//! pool: a caller requests a copy, then the copy system validates that every
//! chunk of the target window is ready in the shadow pool and copies them.
use vstd::prelude::*;
use crate::voxel::format::{Cell, CELLS_PER_CHUNK, WINDOW_CHUNK_COUNT, WINDOW_SIDE};
use crate::voxel::pool::{chunk_start, copy_cells, lemma_chunk_in_bounds};
use crate::voxel::shadow_pool::{ShadowPool, ShadowSlotState, SHADOW_SLOT_COUNT, key_of};

verus! {

/// State of the copy process.
#[derive(Clone, Copy, PartialEq, Eq, Debug, Structural)]
pub enum ShadowCopyState {
    Idle,
    Validating,
    Copying,
    Complete,
    Failed,
}

/// Outcome of a validation.
#[derive(Clone, Copy, PartialEq, Eq, Debug, Structural)]
pub enum ShadowCopyValidation {
    Ready,
    Loading,
    Missing,
    GeometryMismatch,
}

/// What a validation finds for one chunk of the target window.
#[derive(Clone, Copy, PartialEq, Eq, Debug, Structural)]
pub enum WindowChunkStatus {
    /// Mapped to a slot that records other coordinates.
    Mismatch,
    /// Mapped, and its slot is ready.
    Ready,
    /// Mapped, and its slot is loading.
    Loading,
    /// Not mapped, or mapped to an empty slot.
    Missing,
}

/// The shadow-pool key of chunk `i` of the window whose corner is
/// `(min_x, min_z)` (chunks in row order, `x` fastest).
pub open spec fn window_chunk_key(pool: &ShadowPool, min_x: i64, min_z: i64, i: int) -> (i64, i64) {
    pool.chunk_key(min_x + i % WINDOW_SIDE as int, min_z + i / WINDOW_SIDE as int)
}

/// What a validation finds for chunk `i` of the window.
pub open spec fn window_chunk_status(pool: &ShadowPool, min_x: i64, min_z: i64, i: int) -> WindowChunkStatus {
    let key = window_chunk_key(pool, min_x, min_z, i);
    if pool.slot_map@.contains_key(key) {
        let m = pool.meta@[pool.slot_map@[key] as int];
        if key_of(m) != key {
            WindowChunkStatus::Mismatch
        } else if m.state == ShadowSlotState::Ready {
            WindowChunkStatus::Ready
        } else if m.state == ShadowSlotState::Loading {
            WindowChunkStatus::Loading
        } else {
            WindowChunkStatus::Missing
        }
    } else {
        WindowChunkStatus::Missing
    }
}

/// How many of the first `n` window chunks have status `st`.
pub open spec fn count_status(pool: &ShadowPool, min_x: i64, min_z: i64, n: int, st: WindowChunkStatus) -> nat
    decreases n,
{
    if n <= 0 {
        0
    } else {
        count_status(pool, min_x, min_z, n - 1, st)
            + if window_chunk_status(pool, min_x, min_z, n - 1) == st { 1nat } else { 0nat }
    }
}

/// The shadow slot that window chunk `i` is copied from: its mapped slot,
/// when that slot is ready.
pub open spec fn copy_source(pool: &ShadowPool, min_x: i64, min_z: i64, i: int) -> Option<int> {
    let key = window_chunk_key(pool, min_x, min_z, i);
    if pool.slot_map@.contains_key(key) && pool.meta@[pool.slot_map@[key] as int].state == ShadowSlotState::Ready {
        Some(pool.slot_map@[key] as int)
    } else {
        None
    }
}

/// `new` is `old` with the first `n` window chunks copied from their source slots.
pub open spec fn copied_prefix(old: Seq<Cell>, new: Seq<Cell>, pool: &ShadowPool, min_x: i64, min_z: i64, n: int) -> bool {
    &&& new.len() == old.len()
    &&& forall|c: int| #![trigger new[c]] 0 <= c < new.len() ==>
        if c / CELLS_PER_CHUNK as int >= n {
            new[c] == old[c]
        } else {
            new[c] == pool.data@[chunk_start(copy_source(pool, min_x, min_z, c / CELLS_PER_CHUNK as int)->0)
                + c % CELLS_PER_CHUNK as int]
        }
}

/// Some chunk of the window is mapped to a slot that records other coordinates.
pub open spec fn has_mismatch(pool: &ShadowPool, min_x: i64, min_z: i64) -> bool {
    exists|i: int| 0 <= i < WINDOW_CHUNK_COUNT && window_chunk_status(pool, min_x, min_z, i) == WindowChunkStatus::Mismatch
}

/// Chunks of the window that are loading or missing.
pub open spec fn spec_pending_count(pool: &ShadowPool, min_x: i64, min_z: i64) -> nat {
    count_status(pool, min_x, min_z, WINDOW_CHUNK_COUNT as int, WindowChunkStatus::Loading)
        + count_status(pool, min_x, min_z, WINDOW_CHUNK_COUNT as int, WindowChunkStatus::Missing)
}

/// The answer of a validation of the window.
pub open spec fn spec_validation(pool: &ShadowPool, min_x: i64, min_z: i64) -> ShadowCopyValidation {
    if has_mismatch(pool, min_x, min_z) {
        ShadowCopyValidation::GeometryMismatch
    } else if count_status(pool, min_x, min_z, WINDOW_CHUNK_COUNT as int, WindowChunkStatus::Missing) > 0 {
        ShadowCopyValidation::Missing
    } else if count_status(pool, min_x, min_z, WINDOW_CHUNK_COUNT as int, WindowChunkStatus::Loading) > 0 {
        ShadowCopyValidation::Loading
    } else {
        ShadowCopyValidation::Ready
    }
}

/// Window chunk `i` is mapped to a slot that records other coordinates.
pub open spec fn window_chunk_mismatched(pool: &ShadowPool, min_x: i64, min_z: i64, i: int) -> bool {
    let key = window_chunk_key(pool, min_x, min_z, i);
    pool.slot_map@.contains_key(key) && key_of(pool.meta@[pool.slot_map@[key] as int]) != key
}

/// Window chunk `i` is not in the pool: unmapped, or mapped to an empty slot.
pub open spec fn window_chunk_absent(pool: &ShadowPool, min_x: i64, min_z: i64, i: int) -> bool {
    let key = window_chunk_key(pool, min_x, min_z, i);
    !pool.slot_map@.contains_key(key) || pool.meta@[pool.slot_map@[key] as int].state == ShadowSlotState::Empty
}

/// Window chunk `i` is mapped to a slot in state `st`.
pub open spec fn window_chunk_in_state(pool: &ShadowPool, min_x: i64, min_z: i64, i: int, st: ShadowSlotState) -> bool {
    let key = window_chunk_key(pool, min_x, min_z, i);
    pool.slot_map@.contains_key(key) && pool.meta@[pool.slot_map@[key] as int].state == st
}

/// Some of the first `n` window chunks have status `st` exactly when the
/// count of that status is positive.
proof fn lemma_count_status_positive(pool: &ShadowPool, min_x: i64, min_z: i64, n: int, st: WindowChunkStatus)
    ensures
        count_status(pool, min_x, min_z, n, st) > 0
            <==> exists|i: int| 0 <= i < n && #[trigger] window_chunk_status(pool, min_x, min_z, i) == st,
    decreases n,
{
    if n > 0 {
        lemma_count_status_positive(pool, min_x, min_z, n - 1, st);
        if window_chunk_status(pool, min_x, min_z, n - 1) == st {
            assert(0 <= n - 1 < n && window_chunk_status(pool, min_x, min_z, n - 1) == st);
        }
        if exists|i: int| 0 <= i < n && #[trigger] window_chunk_status(pool, min_x, min_z, i) == st {
            let i = choose|i: int| 0 <= i < n && #[trigger] window_chunk_status(pool, min_x, min_z, i) == st;
            if i < n - 1 {
                assert(0 <= i < n - 1 && window_chunk_status(pool, min_x, min_z, i) == st);
            }
        }
    }
}

/// What a validation answers: a geometry mismatch when some window chunk
/// is mapped to a slot recording other coordinates; otherwise `Missing`
/// when any window chunk is absent from the pool, however many others are
/// loading; otherwise `Loading` when any is loading; and `Ready` when every
/// window chunk is mapped to a ready slot that records its coordinates.
pub proof fn lemma_validation_answers(pool: &ShadowPool, min_x: i64, min_z: i64)
    ensures
        (exists|i: int| 0 <= i < WINDOW_CHUNK_COUNT && #[trigger] window_chunk_mismatched(pool, min_x, min_z, i))
            ==> spec_validation(pool, min_x, min_z) == ShadowCopyValidation::GeometryMismatch,
        (forall|i: int| 0 <= i < WINDOW_CHUNK_COUNT ==> !#[trigger] window_chunk_mismatched(pool, min_x, min_z, i))
            && (exists|i: int| 0 <= i < WINDOW_CHUNK_COUNT && #[trigger] window_chunk_absent(pool, min_x, min_z, i))
            ==> spec_validation(pool, min_x, min_z) == ShadowCopyValidation::Missing,
        (forall|i: int| 0 <= i < WINDOW_CHUNK_COUNT ==> !#[trigger] window_chunk_mismatched(pool, min_x, min_z, i))
            && (forall|i: int| 0 <= i < WINDOW_CHUNK_COUNT ==> !#[trigger] window_chunk_absent(pool, min_x, min_z, i))
            && (exists|i: int| 0 <= i < WINDOW_CHUNK_COUNT
                && #[trigger] window_chunk_in_state(pool, min_x, min_z, i, ShadowSlotState::Loading))
            ==> spec_validation(pool, min_x, min_z) == ShadowCopyValidation::Loading,
        (forall|i: int| 0 <= i < WINDOW_CHUNK_COUNT ==> #[trigger] window_chunk_in_state(pool, min_x, min_z, i, ShadowSlotState::Ready)
            && !window_chunk_mismatched(pool, min_x, min_z, i))
            ==> spec_validation(pool, min_x, min_z) == ShadowCopyValidation::Ready,
{
    let n = WINDOW_CHUNK_COUNT as int;
    lemma_count_status_positive(pool, min_x, min_z, n, WindowChunkStatus::Missing);
    lemma_count_status_positive(pool, min_x, min_z, n, WindowChunkStatus::Loading);
    if exists|i: int| 0 <= i < n && #[trigger] window_chunk_mismatched(pool, min_x, min_z, i) {
        let i = choose|i: int| 0 <= i < n && #[trigger] window_chunk_mismatched(pool, min_x, min_z, i);
        assert(window_chunk_status(pool, min_x, min_z, i) == WindowChunkStatus::Mismatch);
    }
    if forall|i: int| 0 <= i < n ==> !#[trigger] window_chunk_mismatched(pool, min_x, min_z, i) {
        assert(!has_mismatch(pool, min_x, min_z)) by {
            assert forall|i: int| 0 <= i < n implies window_chunk_status(pool, min_x, min_z, i) != WindowChunkStatus::Mismatch by {
                assert(!window_chunk_mismatched(pool, min_x, min_z, i));
            }
        }
        if exists|i: int| 0 <= i < n && #[trigger] window_chunk_absent(pool, min_x, min_z, i) {
            let i = choose|i: int| 0 <= i < n && #[trigger] window_chunk_absent(pool, min_x, min_z, i);
            assert(!window_chunk_mismatched(pool, min_x, min_z, i));
            assert(window_chunk_status(pool, min_x, min_z, i) == WindowChunkStatus::Missing);
        }
        if forall|i: int| 0 <= i < n ==> !#[trigger] window_chunk_absent(pool, min_x, min_z, i) {
            assert forall|i: int| 0 <= i < n implies window_chunk_status(pool, min_x, min_z, i) != WindowChunkStatus::Missing by {
                assert(!window_chunk_absent(pool, min_x, min_z, i));
                assert(!window_chunk_mismatched(pool, min_x, min_z, i));
            }
            if exists|i: int| 0 <= i < n && #[trigger] window_chunk_in_state(pool, min_x, min_z, i, ShadowSlotState::Loading) {
                let i = choose|i: int| 0 <= i < n && #[trigger] window_chunk_in_state(pool, min_x, min_z, i, ShadowSlotState::Loading);
                assert(!window_chunk_mismatched(pool, min_x, min_z, i));
                assert(window_chunk_status(pool, min_x, min_z, i) == WindowChunkStatus::Loading);
            }
        }
    }
    if forall|i: int| 0 <= i < WINDOW_CHUNK_COUNT ==> #[trigger] window_chunk_in_state(pool, min_x, min_z, i, ShadowSlotState::Ready)
        && !window_chunk_mismatched(pool, min_x, min_z, i) {
        assert forall|i: int| 0 <= i < n implies #[trigger] window_chunk_status(pool, min_x, min_z, i) == WindowChunkStatus::Ready by {
            assert(window_chunk_in_state(pool, min_x, min_z, i, ShadowSlotState::Ready));
            assert(!window_chunk_mismatched(pool, min_x, min_z, i));
        }
        assert(!has_mismatch(pool, min_x, min_z));
        assert(!exists|i: int| 0 <= i < n && #[trigger] window_chunk_status(pool, min_x, min_z, i) == WindowChunkStatus::Missing);
        assert(!exists|i: int| 0 <= i < n && #[trigger] window_chunk_status(pool, min_x, min_z, i) == WindowChunkStatus::Loading);
        assert(count_status(pool, min_x, min_z, n, WindowChunkStatus::Missing) == 0);
        assert(count_status(pool, min_x, min_z, n, WindowChunkStatus::Loading) == 0);
        assert(spec_validation(pool, min_x, min_z) == ShadowCopyValidation::Ready);
    }
}

/// A window chunk is copied from the slot its key maps to, and only when
/// that slot is ready; a whole copy is made exactly when every window
/// chunk is mapped to a ready slot.
pub proof fn lemma_copy_sources(pool: &ShadowPool, min_x: i64, min_z: i64, i: int)
    ensures
        copy_source(pool, min_x, min_z, i) is Some
            <==> window_chunk_in_state(pool, min_x, min_z, i, ShadowSlotState::Ready),
        copy_source(pool, min_x, min_z, i) matches Some(s)
            ==> s == pool.slot_map@[window_chunk_key(pool, min_x, min_z, i)] as int,
        all_sources_ready(pool, min_x, min_z) <==> forall|j: int| 0 <= j < WINDOW_CHUNK_COUNT
            ==> #[trigger] window_chunk_in_state(pool, min_x, min_z, j, ShadowSlotState::Ready),
{
    assert(all_sources_ready(pool, min_x, min_z) <==> forall|j: int| 0 <= j < WINDOW_CHUNK_COUNT
        ==> #[trigger] window_chunk_in_state(pool, min_x, min_z, j, ShadowSlotState::Ready)) by {
        if all_sources_ready(pool, min_x, min_z) {
            assert forall|j: int| 0 <= j < WINDOW_CHUNK_COUNT
                implies #[trigger] window_chunk_in_state(pool, min_x, min_z, j, ShadowSlotState::Ready) by {
                assert(copy_source(pool, min_x, min_z, j) is Some);
            }
        }
        if forall|j: int| 0 <= j < WINDOW_CHUNK_COUNT
            ==> #[trigger] window_chunk_in_state(pool, min_x, min_z, j, ShadowSlotState::Ready) {
            assert forall|j: int| 0 <= j < WINDOW_CHUNK_COUNT
                implies (#[trigger] copy_source(pool, min_x, min_z, j)) is Some by {
                assert(window_chunk_in_state(pool, min_x, min_z, j, ShadowSlotState::Ready));
            }
        }
    }
}

/// Every one of the first `n` window chunks has exactly one status.
proof fn lemma_count_status_total(pool: &ShadowPool, min_x: i64, min_z: i64, n: int)
    requires
        n >= 0,
    ensures
        count_status(pool, min_x, min_z, n, WindowChunkStatus::Ready)
            + count_status(pool, min_x, min_z, n, WindowChunkStatus::Loading)
            + count_status(pool, min_x, min_z, n, WindowChunkStatus::Missing)
            + count_status(pool, min_x, min_z, n, WindowChunkStatus::Mismatch) == n,
    decreases n,
{
    if n > 0 {
        lemma_count_status_total(pool, min_x, min_z, n - 1);
    }
}

/// The pending count of a validation is at most the window's size, and,
/// with no chunk mapped to a slot recording other coordinates, it is zero
/// exactly when every window chunk is mapped to a ready slot.
pub proof fn lemma_pending_count(pool: &ShadowPool, min_x: i64, min_z: i64)
    ensures
        spec_pending_count(pool, min_x, min_z) <= WINDOW_CHUNK_COUNT,
        (forall|i: int| 0 <= i < WINDOW_CHUNK_COUNT ==> !#[trigger] window_chunk_mismatched(pool, min_x, min_z, i))
            ==> (spec_pending_count(pool, min_x, min_z) == 0 <==>
                forall|i: int| 0 <= i < WINDOW_CHUNK_COUNT ==>
                    #[trigger] window_chunk_in_state(pool, min_x, min_z, i, ShadowSlotState::Ready)),
{
    let n = WINDOW_CHUNK_COUNT as int;
    lemma_count_status_total(pool, min_x, min_z, n);
    lemma_count_status_positive(pool, min_x, min_z, n, WindowChunkStatus::Missing);
    lemma_count_status_positive(pool, min_x, min_z, n, WindowChunkStatus::Loading);
    if forall|i: int| 0 <= i < WINDOW_CHUNK_COUNT ==> !#[trigger] window_chunk_mismatched(pool, min_x, min_z, i) {
        if spec_pending_count(pool, min_x, min_z) == 0 {
            assert forall|i: int| 0 <= i < WINDOW_CHUNK_COUNT implies
                #[trigger] window_chunk_in_state(pool, min_x, min_z, i, ShadowSlotState::Ready) by {
                assert(!window_chunk_mismatched(pool, min_x, min_z, i));
                let st = window_chunk_status(pool, min_x, min_z, i);
                assert(st != WindowChunkStatus::Missing);
                assert(st != WindowChunkStatus::Loading);
            }
        }
        if forall|i: int| 0 <= i < WINDOW_CHUNK_COUNT ==>
            #[trigger] window_chunk_in_state(pool, min_x, min_z, i, ShadowSlotState::Ready) {
            assert forall|i: int| 0 <= i < n implies #[trigger] window_chunk_status(pool, min_x, min_z, i) == WindowChunkStatus::Ready by {
                assert(window_chunk_in_state(pool, min_x, min_z, i, ShadowSlotState::Ready));
                assert(!window_chunk_mismatched(pool, min_x, min_z, i));
            }
            assert(!exists|i: int| 0 <= i < n && #[trigger] window_chunk_status(pool, min_x, min_z, i) == WindowChunkStatus::Missing);
            assert(!exists|i: int| 0 <= i < n && #[trigger] window_chunk_status(pool, min_x, min_z, i) == WindowChunkStatus::Loading);
        }
    }
}

/// Every chunk of the window has a ready source slot.
pub open spec fn all_sources_ready(pool: &ShadowPool, min_x: i64, min_z: i64) -> bool {
    forall|i: int| 0 <= i < WINDOW_CHUNK_COUNT ==> (#[trigger] copy_source(pool, min_x, min_z, i)) is Some
}

/// What a copy of the window leaves in the active cells: all window chunks
/// copied when every source is ready (`copied`), else the chunks before the
/// first one without a ready source.
pub open spec fn copy_outcome(old: Seq<Cell>, new: Seq<Cell>, pool: &ShadowPool, min_x: i64, min_z: i64, copied: bool) -> bool {
    &&& copied <==> all_sources_ready(pool, min_x, min_z)
    &&& copied ==> copied_prefix(old, new, pool, min_x, min_z, WINDOW_CHUNK_COUNT as int)
    &&& !copied ==> exists|b: int| {
        &&& 0 <= b < WINDOW_CHUNK_COUNT
        &&& copy_source(pool, min_x, min_z, b) is None
        &&& forall|i: int| 0 <= i < b ==> (#[trigger] copy_source(pool, min_x, min_z, i)) is Some
        &&& copied_prefix(old, new, pool, min_x, min_z, b)
    }
}

/// Copies the chunks of the shadow pool into the active pool.
pub struct ShadowCopyManager {
    pub state: ShadowCopyState,
    pub target_center_x: i64,
    pub target_center_z: i64,
    pub target_min_x: i64,
    pub target_min_z: i64,
    pub target_max_x: i64,
    pub target_max_z: i64,
    pub pending_count: usize,
}

impl ShadowCopyManager {
    pub fn new() -> (m: Self)
        ensures
            m == (ShadowCopyManager {
                state: ShadowCopyState::Idle,
                target_center_x: 0,
                target_center_z: 0,
                target_min_x: 0,
                target_min_z: 0,
                target_max_x: 0,
                target_max_z: 0,
                pending_count: 0,
            }),
    {
        Self {
            state: ShadowCopyState::Idle,
            target_center_x: 0,
            target_center_z: 0,
            target_min_x: 0,
            target_min_z: 0,
            target_max_x: 0,
            target_max_z: 0,
            pending_count: 0,
        }
    }

    /// Requests a copy of the window centred on `(target_center_x,
    /// target_center_z)`; ignored while a copy is being validated or made.
    pub fn request_copy(&mut self, target_center_x: i64, target_center_z: i64)
        requires
            i64::MIN + 8 <= target_center_x <= i64::MAX - 8,
            i64::MIN + 8 <= target_center_z <= i64::MAX - 8,
        ensures
            if old(self).state == ShadowCopyState::Validating || old(self).state == ShadowCopyState::Copying {
                *final(self) == *old(self)
            } else {
                *final(self) == (ShadowCopyManager {
                    state: ShadowCopyState::Validating,
                    target_center_x,
                    target_center_z,
                    target_min_x: (target_center_x - 8) as i64,
                    target_min_z: (target_center_z - 8) as i64,
                    target_max_x: (target_center_x + 8) as i64,
                    target_max_z: (target_center_z + 8) as i64,
                    pending_count: 0,
                })
            },
    {
        if self.state == ShadowCopyState::Validating || self.state == ShadowCopyState::Copying {
            return;
        }

        self.target_center_x = target_center_x;
        self.target_center_z = target_center_z;

        let half = (WINDOW_SIDE / 2) as i64;
        self.target_min_x = target_center_x - half;
        self.target_min_z = target_center_z - half;
        self.target_max_x = target_center_x + half;
        self.target_max_z = target_center_z + half;

        self.state = ShadowCopyState::Validating;
        self.pending_count = 0;
    }

    /// Whether a copy is being validated or made.
    pub fn has_pending_request(&self) -> (r: bool)
        ensures
            r <==> (self.state == ShadowCopyState::Validating || self.state == ShadowCopyState::Copying),
    {
        self.state == ShadowCopyState::Validating || self.state == ShadowCopyState::Copying
    }

    /// Key of window chunk `(dx, dz)` of the target window.
    fn target_key(&self, shadow_pool: &ShadowPool, dx: usize, dz: usize) -> (r: (i64, i64))
        requires
            shadow_pool.topology.valid(),
            dx < WINDOW_SIDE,
            dz < WINDOW_SIDE,
            self.target_min_x <= i64::MAX - WINDOW_SIDE,
            self.target_min_z <= i64::MAX - WINDOW_SIDE,
        ensures
            r == window_chunk_key(shadow_pool, self.target_min_x, self.target_min_z, (dz * WINDOW_SIDE + dx) as int),
    {
        assert(((dz * 16 + dx) as int) % 16 == dx && ((dz * 16 + dx) as int) / 16 == dz) by (nonlinear_arith)
            requires dx < 16;
        let expected_chunk_x = self.target_min_x + dx as i64;
        let expected_chunk_z = self.target_min_z + dz as i64;
        let (norm_x, norm_z) = shadow_pool.topology.normalize_chunk(expected_chunk_x, expected_chunk_z);
        (norm_x as i64, norm_z as i64)
    }

    /// Checks that every chunk of the target window is mapped in the shadow
    /// pool to a slot that records its coordinates and is ready.  Stops at
    /// the first chunk whose slot records other coordinates
    /// (`GeometryMismatch`, nothing changed).  Otherwise records how many
    /// chunks are loading or missing and answers `Missing` if any is
    /// missing, else `Loading` if any is loading, else `Ready`.
    pub fn validate(&mut self, shadow_pool: &ShadowPool) -> (r: ShadowCopyValidation)
        requires
            shadow_pool.wf(),
            shadow_pool.topology.valid(),
            old(self).target_min_x <= i64::MAX - WINDOW_SIDE,
            old(self).target_min_z <= i64::MAX - WINDOW_SIDE,
        ensures
            ({
                let mx = old(self).target_min_x;
                let mz = old(self).target_min_z;
                &&& r == spec_validation(shadow_pool, mx, mz)
                &&& has_mismatch(shadow_pool, mx, mz) ==> *final(self) == *old(self)
                &&& !has_mismatch(shadow_pool, mx, mz) ==> *final(self)
                    == (ShadowCopyManager { pending_count: spec_pending_count(shadow_pool, mx, mz) as usize, ..*old(self) })
            }),
    {
        let ghost mx = self.target_min_x;
        let ghost mz = self.target_min_z;
        let mut loading_count: usize = 0;
        let mut missing_count: usize = 0;

        let mut dz: usize = 0;
        while dz < WINDOW_SIDE
            invariant
                0 <= dz <= WINDOW_SIDE,
                *self == *old(self),
                mx == self.target_min_x,
                mz == self.target_min_z,
                shadow_pool.wf(),
                shadow_pool.topology.valid(),
                self.target_min_x <= i64::MAX - WINDOW_SIDE,
                self.target_min_z <= i64::MAX - WINDOW_SIDE,
                loading_count == count_status(shadow_pool, mx, mz, (dz * WINDOW_SIDE) as int, WindowChunkStatus::Loading),
                missing_count == count_status(shadow_pool, mx, mz, (dz * WINDOW_SIDE) as int, WindowChunkStatus::Missing),
                loading_count + missing_count <= dz * WINDOW_SIDE,
                forall|i: int| 0 <= i < dz * WINDOW_SIDE ==> window_chunk_status(shadow_pool, mx, mz, i) != WindowChunkStatus::Mismatch,
            decreases WINDOW_SIDE - dz,
        {
            let mut dx: usize = 0;
            while dx < WINDOW_SIDE
                invariant
                    0 <= dx <= WINDOW_SIDE,
                    0 <= dz < WINDOW_SIDE,
                    *self == *old(self),
                    mx == self.target_min_x,
                    mz == self.target_min_z,
                    shadow_pool.wf(),
                    shadow_pool.topology.valid(),
                    self.target_min_x <= i64::MAX - WINDOW_SIDE,
                    self.target_min_z <= i64::MAX - WINDOW_SIDE,
                    loading_count == count_status(shadow_pool, mx, mz, (dz * WINDOW_SIDE + dx) as int, WindowChunkStatus::Loading),
                    missing_count == count_status(shadow_pool, mx, mz, (dz * WINDOW_SIDE + dx) as int, WindowChunkStatus::Missing),
                    loading_count + missing_count <= dz * WINDOW_SIDE + dx,
                    forall|i: int| 0 <= i < dz * WINDOW_SIDE + dx ==> window_chunk_status(shadow_pool, mx, mz, i) != WindowChunkStatus::Mismatch,
                decreases WINDOW_SIDE - dx,
            {
                let ghost i = (dz * WINDOW_SIDE + dx) as int;
                let key = self.target_key(shadow_pool, dx, dz);
                match shadow_pool.slot_map.get(key) {
                    Some(slot) => {
                        let meta = &shadow_pool.meta[slot];
                        if meta.chunk_x != key.0 || meta.chunk_z != key.1 {
                            assert(window_chunk_status(shadow_pool, mx, mz, i) == WindowChunkStatus::Mismatch);
                            return ShadowCopyValidation::GeometryMismatch;
                        }
                        match meta.state {
                            ShadowSlotState::Ready => {}
                            ShadowSlotState::Loading => {
                                loading_count = loading_count + 1;
                            }
                            ShadowSlotState::Empty => {
                                missing_count = missing_count + 1;
                            }
                        }
                    }
                    None => {
                        missing_count = missing_count + 1;
                    }
                }
                dx = dx + 1;
            }
            dz = dz + 1;
        }

        self.pending_count = loading_count + missing_count;

        if missing_count > 0 {
            ShadowCopyValidation::Missing
        } else if loading_count > 0 {
            ShadowCopyValidation::Loading
        } else {
            ShadowCopyValidation::Ready
        }
    }

    /// Copies every chunk of the target window from its ready slot in the
    /// shadow pool into the active pool, window chunk `i` going to active
    /// slot `i`.  Stops at the first chunk that is not mapped to a ready
    /// slot and returns `false`, with the chunks before it copied.
    pub fn execute_copy(&self, shadow_pool: &ShadowPool, active_pool_data: &mut Vec<Cell>) -> (r: bool)
        requires
            shadow_pool.wf(),
            shadow_pool.topology.valid(),
            self.target_min_x <= i64::MAX - WINDOW_SIDE,
            self.target_min_z <= i64::MAX - WINDOW_SIDE,
            old(active_pool_data)@.len() >= WINDOW_CHUNK_COUNT * CELLS_PER_CHUNK,
        ensures
            copy_outcome(old(active_pool_data)@, final(active_pool_data)@, shadow_pool,
                self.target_min_x, self.target_min_z, r),
    {
        let ghost mx = self.target_min_x;
        let ghost mz = self.target_min_z;
        let ghost d0 = active_pool_data@;
        let mut dz: usize = 0;
        while dz < WINDOW_SIDE
            invariant
                0 <= dz <= WINDOW_SIDE,
                mx == self.target_min_x,
                mz == self.target_min_z,
                shadow_pool.wf(),
                shadow_pool.topology.valid(),
                self.target_min_x <= i64::MAX - WINDOW_SIDE,
                self.target_min_z <= i64::MAX - WINDOW_SIDE,
                d0 == old(active_pool_data)@,
                d0.len() >= WINDOW_CHUNK_COUNT * CELLS_PER_CHUNK,
                forall|i: int| 0 <= i < dz * WINDOW_SIDE ==> (#[trigger] copy_source(shadow_pool, mx, mz, i)) is Some,
                copied_prefix(d0, active_pool_data@, shadow_pool, mx, mz, (dz * WINDOW_SIDE) as int),
            decreases WINDOW_SIDE - dz,
        {
            let mut dx: usize = 0;
            while dx < WINDOW_SIDE
                invariant
                    0 <= dx <= WINDOW_SIDE,
                    0 <= dz < WINDOW_SIDE,
                    mx == self.target_min_x,
                    mz == self.target_min_z,
                    shadow_pool.wf(),
                    shadow_pool.topology.valid(),
                    self.target_min_x <= i64::MAX - WINDOW_SIDE,
                    self.target_min_z <= i64::MAX - WINDOW_SIDE,
                    d0 == old(active_pool_data)@,
                    d0.len() >= WINDOW_CHUNK_COUNT * CELLS_PER_CHUNK,
                    forall|i: int| 0 <= i < dz * WINDOW_SIDE + dx ==> (#[trigger] copy_source(shadow_pool, mx, mz, i)) is Some,
                    copied_prefix(d0, active_pool_data@, shadow_pool, mx, mz, (dz * WINDOW_SIDE + dx) as int),
                decreases WINDOW_SIDE - dx,
            {
                let active_slot = dz * WINDOW_SIDE + dx;
                let ghost i = active_slot as int;
                let key = self.target_key(shadow_pool, dx, dz);

                let shadow_slot = match shadow_pool.slot_map.get(key) {
                    Some(s) => s,
                    None => {
                        assert(copy_source(shadow_pool, mx, mz, i) is None);
                        return false;
                    }
                };

                if shadow_pool.meta[shadow_slot].state != ShadowSlotState::Ready {
                    assert(copy_source(shadow_pool, mx, mz, i) is None);
                    return false;
                }
                assert(copy_source(shadow_pool, mx, mz, i) == Some(shadow_slot as int));

                proof {
                    lemma_chunk_in_bounds(shadow_slot as int, SHADOW_SLOT_COUNT as int);
                    lemma_chunk_in_bounds(i, WINDOW_CHUNK_COUNT as int);
                }
                let src_start = shadow_slot * CELLS_PER_CHUNK;
                let dst_start = active_slot * CELLS_PER_CHUNK;
                let ghost before = active_pool_data@;
                copy_cells(active_pool_data, dst_start, shadow_pool.data.as_slice(), src_start);
                proof {
                    let after = active_pool_data@;
                    assert forall|c: int| #![trigger after[c]] 0 <= c < after.len() implies
                        if c / CELLS_PER_CHUNK as int >= i + 1 {
                            after[c] == d0[c]
                        } else {
                            after[c] == shadow_pool.data@[chunk_start(copy_source(shadow_pool, mx, mz, c / CELLS_PER_CHUNK as int)->0)
                                + c % CELLS_PER_CHUNK as int]
                        } by {
                        assert(before[c] == before[c]);
                        let q = c / CELLS_PER_CHUNK as int;
                        let in_chunk = dst_start <= c < dst_start + CELLS_PER_CHUNK;
                        assert(in_chunk <==> q == i) by (nonlinear_arith)
                            requires 0 <= c, dst_start == i * 16384, q == c / 16384,
                                in_chunk == (dst_start <= c < dst_start + 16384);
                        if in_chunk {
                            assert(c % CELLS_PER_CHUNK as int == c - dst_start) by (nonlinear_arith)
                                requires dst_start == i * 16384, dst_start <= c < dst_start + 16384;
                            assert(after[c] == shadow_pool.data@[src_start + (c - dst_start)]);
                        }
                    }
                }
                dx = dx + 1;
            }
            dz = dz + 1;
        }
        true
    }

    /// Resets the process to idle.
    pub fn reset(&mut self)
        ensures
            *final(self) == (ShadowCopyManager { state: ShadowCopyState::Idle, pending_count: 0, ..*old(self) }),
    {
        self.state = ShadowCopyState::Idle;
        self.pending_count = 0;
    }
}

impl Default for ShadowCopyManager {
    fn default() -> (m: Self)
        ensures
            m == (ShadowCopyManager {
                state: ShadowCopyState::Idle,
                target_center_x: 0,
                target_center_z: 0,
                target_min_x: 0,
                target_min_z: 0,
                target_max_x: 0,
                target_max_z: 0,
                pending_count: 0,
            }),
    {
        Self::new()
    }
}

} // verus!
