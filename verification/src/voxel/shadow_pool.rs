//! Shadow pool: read-only copies of far chunks requested by the simulation,
//! with a dynamic mapping from chunk coordinates to slots and least-recently
//! used eviction.
use vstd::prelude::*;
use super::format::{Cell, CELLS_PER_CHUNK, CHUNK_HEIGHT, CHUNK_SIDE};
use super::topology::{TorusTopology, spec_cell_index};
use super::pool::{chunk_start, chunk_of, with_chunk, chunk_zeroed, copy_cells, zero_cells,
    lemma_chunk_in_bounds, lemma_cell_in_bounds};
use super::slot_map::ChunkSlotMap;
use crate::arith::{div_euclid_i64, rem_euclid_i64};

verus! {

/// Side of the shadow pool, in chunks.
pub const SHADOW_POOL_SIDE: usize = 6;

/// Slots of the shadow pool.
pub const SHADOW_SLOT_COUNT: usize = 36;

/// Frames a shadow chunk stays after its last access before it is unloaded.
pub const SHADOW_UNLOAD_DELAY: u64 = 300;

/// State of a shadow slot.
#[derive(Clone, Copy, PartialEq, Eq, Debug, Structural)]
pub enum ShadowSlotState {
    Empty,
    Loading,
    Ready,
}

/// Outcome of a request for a shadow chunk.
#[derive(Clone, Copy, PartialEq, Eq, Debug, Structural)]
pub enum ShadowRequestResult {
    /// The chunk is ready in the given slot.
    Ready(usize),
    /// The chunk is queued for loading into the given slot.
    Queued(usize),
    /// The chunk is in the active window; the shadow pool is not needed.
    InActiveWindow,
    /// No free slot and nothing to evict.
    NotAvailable,
}

/// Metadata of one shadow slot.
pub struct ShadowSlotMeta {
    pub state: ShadowSlotState,
    pub chunk_x: i64,
    pub chunk_z: i64,
    pub last_access: u64,
    pub ref_count: u32,
}

impl ShadowSlotMeta {
    pub fn new() -> (m: Self)
        ensures
            m == (ShadowSlotMeta { state: ShadowSlotState::Empty, chunk_x: 0, chunk_z: 0, last_access: 0, ref_count: 0 }),
    {
        Self { state: ShadowSlotState::Empty, chunk_x: 0, chunk_z: 0, last_access: 0, ref_count: 0 }
    }
}

/// The coordinates a slot's metadata records.
pub open spec fn key_of(m: ShadowSlotMeta) -> (i64, i64) {
    (m.chunk_x, m.chunk_z)
}

/// Metadata of a slot that was just given to chunk `key` for loading.
pub open spec fn loading_meta(key: (i64, i64), frame: u64) -> ShadowSlotMeta {
    ShadowSlotMeta { state: ShadowSlotState::Loading, chunk_x: key.0, chunk_z: key.1, last_access: frame, ref_count: 1 }
}

/// Metadata of a slot after it was emptied (its last access is kept).
pub open spec fn emptied_meta(m: ShadowSlotMeta) -> ShadowSlotMeta {
    ShadowSlotMeta { state: ShadowSlotState::Empty, chunk_x: 0, chunk_z: 0, last_access: m.last_access, ref_count: 0 }
}

/// A slot that eviction may take: it holds a chunk and nobody references it.
pub open spec fn evictable(m: ShadowSlotMeta) -> bool {
    m.state != ShadowSlotState::Empty && m.ref_count == 0
}

/// `s` is the least recently used evictable slot, the lowest such index on ties.
pub open spec fn is_lru(meta: Seq<ShadowSlotMeta>, s: int) -> bool {
    &&& 0 <= s < SHADOW_SLOT_COUNT
    &&& evictable(meta[s])
    &&& forall|j: int| 0 <= j < SHADOW_SLOT_COUNT && evictable(#[trigger] meta[j]) ==> meta[s].last_access <= meta[j].last_access
    &&& forall|j: int| 0 <= j < s && evictable(#[trigger] meta[j]) ==> meta[s].last_access < meta[j].last_access
}

/// Some slot is evictable.
pub open spec fn has_evictable(meta: Seq<ShadowSlotMeta>) -> bool {
    exists|j: int| 0 <= j < SHADOW_SLOT_COUNT && evictable(#[trigger] meta[j])
}

/// The slot that eviction takes.
pub open spec fn lru_slot(meta: Seq<ShadowSlotMeta>) -> int {
    choose|s: int| is_lru(meta, s)
}

/// At most one slot is the least recently used one.
pub proof fn lemma_lru_unique(meta: Seq<ShadowSlotMeta>, s: int, t: int)
    requires
        is_lru(meta, s),
        is_lru(meta, t),
    ensures
        s == t,
{
    if s < t {
        assert(meta[t].last_access < meta[s].last_access);
    } else if t < s {
        assert(meta[s].last_access < meta[t].last_access);
    }
}

/// Slot `s` is due for unloading at frame `frame`.
pub open spec fn due_for_unload(m: ShadowSlotMeta, frame: u64) -> bool {
    &&& m.state == ShadowSlotState::Ready
    &&& m.ref_count == 0
    &&& frame - m.last_access > SHADOW_UNLOAD_DELAY
}

/// What a request for chunk `(chunk_x, chunk_z)` does to the pool `pre`,
/// giving the pool `post` and the answer `r` (see `request_chunk`).
pub open spec fn request_outcome(pre: ShadowPool, post: ShadowPool, chunk_x: int, chunk_z: int, r: ShadowRequestResult) -> bool {
    let key = pre.chunk_key(chunk_x, chunk_z);
    let frame = pre.frame_counter;
    let meta = pre.meta@;
    if pre.slot_map@.contains_key(key) {
        let s = pre.slot_map@[key];
        &&& post.meta@ == meta.update(s as int, ShadowSlotMeta {
            last_access: frame,
            ref_count: (meta[s as int].ref_count + 1) as u32,
            ..meta[s as int]
        })
        &&& post.slot_map@ == pre.slot_map@
        &&& post.free_slots@ == pre.free_slots@
        &&& post.data@ == pre.data@
        &&& r == match meta[s as int].state {
            ShadowSlotState::Ready => ShadowRequestResult::Ready(s),
            ShadowSlotState::Loading => ShadowRequestResult::Queued(s),
            ShadowSlotState::Empty => ShadowRequestResult::NotAvailable,
        }
    } else if pre.free_slots@.len() > 0 {
        let s = pre.free_slots@.last();
        &&& post.meta@ == meta.update(s as int, loading_meta(key, frame))
        &&& post.slot_map@ == pre.slot_map@.insert(key, s)
        &&& post.free_slots@ == pre.free_slots@.drop_last()
        &&& post.data@ == pre.data@
        &&& r == ShadowRequestResult::Queued(s)
    } else if has_evictable(meta) {
        let s = lru_slot(meta);
        &&& is_lru(meta, s)
        &&& post.meta@ == meta.update(s, loading_meta(key, frame))
        &&& post.slot_map@ == pre.slot_map@.remove(key_of(meta[s])).insert(key, s as usize)
        &&& post.free_slots@ == pre.free_slots@
        &&& chunk_zeroed(pre.data@, post.data@, s)
        &&& r == ShadowRequestResult::Queued(s as usize)
    } else {
        &&& post.meta@ == meta
        &&& post.slot_map@ == pre.slot_map@
        &&& post.free_slots@ == pre.free_slots@
        &&& post.data@ == pre.data@
        &&& r == ShadowRequestResult::NotAvailable
    }
}

/// What a release of chunk `(chunk_x, chunk_z)` does to the pool `pre`,
/// giving the pool `post` (see `release_chunk`).
pub open spec fn release_outcome(pre: ShadowPool, post: ShadowPool, chunk_x: int, chunk_z: int) -> bool {
    let key = pre.chunk_key(chunk_x, chunk_z);
    let meta = pre.meta@;
    &&& post.same_bookkeeping(&pre)
    &&& post.data@ == pre.data@
    &&& if pre.slot_map@.contains_key(key) && meta[pre.slot_map@[key] as int].ref_count > 0 {
        let s = pre.slot_map@[key] as int;
        post.meta@ == meta.update(s, ShadowSlotMeta {
            ref_count: (meta[s].ref_count - 1) as u32,
            ..meta[s]
        })
    } else {
        post.meta@ == meta
    }
}

/// A chunk's cells, once loaded into the slot its key maps to, are what a
/// read of that chunk gives back, and the chunk reads as ready.
pub proof fn lemma_loaded_chunk_reads_back(pre: ShadowPool, post: ShadowPool, key: (i64, i64), cells: Seq<Cell>)
    requires
        pre.wf(),
        pre.slot_map@.contains_key(key),
        cells.len() == CELLS_PER_CHUNK,
        post.same_bookkeeping(&pre),
        post.data@ == with_chunk(pre.data@, pre.slot_map@[key] as int, cells),
        post.meta@ == pre.meta@.update(pre.slot_map@[key] as int, ShadowSlotMeta {
            state: ShadowSlotState::Ready,
            ..pre.meta@[pre.slot_map@[key] as int]
        }),
    ensures
        post.spec_is_ready(key),
        chunk_of(post.data@, post.slot_map@[key] as int) == cells,
{
    let s = pre.slot_map@[key] as int;
    assert(pre.slot_map.values_below(SHADOW_SLOT_COUNT as int));
    assert(s < SHADOW_SLOT_COUNT);
    lemma_chunk_in_bounds(s, SHADOW_SLOT_COUNT as int);
    assert(chunk_of(post.data@, s) =~= cells);
}

/// Requesting a chunk and then releasing it leaves every slot's reference
/// count as it was before the request, when the request found room (a
/// chunk that had to be loaded ends unreferenced in its new slot).
pub proof fn lemma_request_then_release(
    p0: ShadowPool,
    p1: ShadowPool,
    p2: ShadowPool,
    chunk_x: int,
    chunk_z: int,
    r: ShadowRequestResult,
)
    requires
        p0.wf(),
        p1.wf(),
        p0.meta@.len() == SHADOW_SLOT_COUNT,
        request_outcome(p0, p1, chunk_x, chunk_z, r),
        p1.topology == p0.topology,
        release_outcome(p1, p2, chunk_x, chunk_z),
        r != ShadowRequestResult::NotAvailable,
        ({
            let key = p0.chunk_key(chunk_x, chunk_z);
            p0.slot_map@.contains_key(key) ==> p0.meta@[p0.slot_map@[key] as int].ref_count < u32::MAX
        }),
    ensures
        ({
            let key = p0.chunk_key(chunk_x, chunk_z);
            let s = p2.slot_map@[key] as int;
            &&& p2.slot_map@.contains_key(key)
            &&& forall|t: int| 0 <= t < SHADOW_SLOT_COUNT && t != s ==>
                #[trigger] p2.meta@[t].ref_count == p0.meta@[t].ref_count
            &&& p2.meta@[s].ref_count == if p0.slot_map@.contains_key(key) { p0.meta@[s].ref_count } else { 0 }
        }),
{
    let key = p0.chunk_key(chunk_x, chunk_z);
    assert(p1.chunk_key(chunk_x, chunk_z) == key);
    if p0.slot_map@.contains_key(key) {
        let s = p0.slot_map@[key] as int;
        assert(p0.slot_map.values_below(SHADOW_SLOT_COUNT as int));
        assert(p1.meta@[s].ref_count == p0.meta@[s].ref_count + 1);
    } else if p0.free_slots@.len() > 0 {
        let s = p0.free_slots@.last() as int;
        assert(p0.free_slots@[p0.free_slots@.len() - 1] < SHADOW_SLOT_COUNT);
        assert(p1.slot_map@[key] == s);
        assert(p1.meta@[s].ref_count == 1);
    } else {
        let s = lru_slot(p0.meta@);
        assert(p1.slot_map@[key] == s);
        assert(p1.meta@[s].ref_count == 1);
    }
}

/// In a well-formed pool a slot is on the free list exactly when it is empty
/// and no chunk maps to it, and no slot is listed twice. Every operation of
/// the pool keeps it well-formed, so this holds after any of them.
pub proof fn lemma_free_slots_are_empty_and_unmapped(pool: ShadowPool)
    requires
        pool.wf(),
    ensures
        pool.free_slots@.no_duplicates(),
        forall|s: int| 0 <= s < SHADOW_SLOT_COUNT ==>
            (#[trigger] pool.free_slots@.contains(s as usize) <==> {
                &&& pool.meta@[s].state == ShadowSlotState::Empty
                &&& forall|k: (i64, i64)| pool.slot_map@.contains_key(k) ==> pool.slot_map@[k] != s as usize
            }),
{
    assert forall|s: int| 0 <= s < SHADOW_SLOT_COUNT implies
        (#[trigger] pool.free_slots@.contains(s as usize) <==> {
            &&& pool.meta@[s].state == ShadowSlotState::Empty
            &&& forall|k: (i64, i64)| pool.slot_map@.contains_key(k) ==> pool.slot_map@[k] != s as usize
        }) by {
        if pool.meta@[s].state == ShadowSlotState::Empty {
            assert forall|k: (i64, i64)| pool.slot_map@.contains_key(k) implies pool.slot_map@[k] != s as usize by {
                if pool.slot_map@[k] == s as usize {
                    assert(pool.meta@[pool.slot_map@[k] as int].state != ShadowSlotState::Empty);
                }
            }
        }
    }
}

/// Emptying a slot that holds a chunk (dropping its mapping and putting it
/// on the free list) keeps the map, the metadata and the free list in
/// agreement.
proof fn lemma_emptied_consistent(pre: ShadowPool, post: ShadowPool, slot: int)
    requires
        pre.wf(),
        0 <= slot < SHADOW_SLOT_COUNT,
        pre.meta@[slot].state != ShadowSlotState::Empty,
        post.meta@ == pre.meta@.update(slot, emptied_meta(pre.meta@[slot])),
        post.slot_map@ == pre.slot_map@.remove(key_of(pre.meta@[slot])),
        post.free_slots@ == pre.free_slots@.push(slot as usize),
    ensures
        post.slots_consistent(),
{
    let k0 = key_of(pre.meta@[slot]);
    assert(pre.slot_map@[k0] == slot);
    assert forall|k: (i64, i64)| #[trigger] post.slot_map@.contains_key(k) implies {
        let s = post.slot_map@[k] as int;
        &&& post.meta@[s].state != ShadowSlotState::Empty
        &&& key_of(post.meta@[s]) == k
    } by {
        let s = pre.slot_map@[k] as int;
        assert(pre.slot_map.values_below(SHADOW_SLOT_COUNT as int));
        if s == slot {
            assert(key_of(pre.meta@[s]) == k);
        }
    }
    assert forall|s: int| 0 <= s < SHADOW_SLOT_COUNT && (#[trigger] post.meta@[s]).state != ShadowSlotState::Empty implies {
        &&& post.slot_map@.contains_key(key_of(post.meta@[s]))
        &&& post.slot_map@[key_of(post.meta@[s])] == s
    } by {
        assert(s != slot);
        assert(pre.meta@[s] == post.meta@[s]);
        assert(pre.slot_map@[key_of(pre.meta@[s])] == s);
    }
    assert(!pre.free_slots@.contains(slot as usize));
    assert(post.free_slots@.no_duplicates()) by {
        let f = post.free_slots@;
        assert forall|a: int, b: int| 0 <= a < f.len() && 0 <= b < f.len() && a != b implies f[a] != f[b] by {
            if a == f.len() - 1 {
                assert(pre.free_slots@[b] == f[b]);
            } else if b == f.len() - 1 {
                assert(pre.free_slots@[a] == f[a]);
            }
        }
    }
    assert forall|s: int| 0 <= s < SHADOW_SLOT_COUNT implies
        (#[trigger] post.free_slots@.contains(s as usize) <==> post.meta@[s].state == ShadowSlotState::Empty) by {
        if post.free_slots@.contains(s as usize) && s != slot {
            let i = choose|i: int| 0 <= i < post.free_slots@.len() && post.free_slots@[i] == s as usize;
            assert(i < pre.free_slots@.len());
            assert(pre.free_slots@.contains(s as usize));
        }
        if s == slot {
            assert(post.free_slots@[post.free_slots@.len() - 1] == s as usize);
        } else if pre.free_slots@.contains(s as usize) {
            let i = choose|i: int| 0 <= i < pre.free_slots@.len() && pre.free_slots@[i] == s as usize;
            assert(post.free_slots@[i] == s as usize);
        }
    }
}

/// Changing one slot's metadata without emptying it or filling it, and
/// without moving it to other coordinates, keeps the map, the metadata and
/// the free list in agreement.
proof fn lemma_touched_consistent(pre: ShadowPool, post: ShadowPool, slot: int, m: ShadowSlotMeta)
    requires
        pre.wf(),
        0 <= slot < SHADOW_SLOT_COUNT,
        (m.state == ShadowSlotState::Empty) == (pre.meta@[slot].state == ShadowSlotState::Empty),
        key_of(m) == key_of(pre.meta@[slot]),
        post.meta@ == pre.meta@.update(slot, m),
        post.slot_map@ == pre.slot_map@,
        post.free_slots@ == pre.free_slots@,
    ensures
        post.slots_consistent(),
{
    assert forall|k: (i64, i64)| #[trigger] post.slot_map@.contains_key(k) implies {
        let s = post.slot_map@[k] as int;
        &&& post.meta@[s].state != ShadowSlotState::Empty
        &&& key_of(post.meta@[s]) == k
    } by {
        assert(pre.slot_map.values_below(SHADOW_SLOT_COUNT as int));
    }
    assert forall|s: int| 0 <= s < SHADOW_SLOT_COUNT && (#[trigger] post.meta@[s]).state != ShadowSlotState::Empty implies {
        &&& post.slot_map@.contains_key(key_of(post.meta@[s]))
        &&& post.slot_map@[key_of(post.meta@[s])] == s
    } by {
        assert(pre.meta@[s].state != ShadowSlotState::Empty);
    }
    assert forall|s: int| 0 <= s < SHADOW_SLOT_COUNT implies
        (#[trigger] post.free_slots@.contains(s as usize) <==> post.meta@[s].state == ShadowSlotState::Empty) by {
        assert(pre.free_slots@.contains(s as usize) <==> pre.meta@[s].state == ShadowSlotState::Empty);
    }
}

/// Handing the last free slot to a chunk that is not in the pool (the slot
/// becomes loading and the chunk maps to it) keeps the map, the metadata
/// and the free list in agreement.
proof fn lemma_assigned_consistent(pre: ShadowPool, post: ShadowPool, key: (i64, i64), frame: u64)
    requires
        pre.wf(),
        pre.free_slots@.len() > 0,
        !pre.slot_map@.contains_key(key),
        post.meta@ == pre.meta@.update(pre.free_slots@.last() as int, loading_meta(key, frame)),
        post.slot_map@ == pre.slot_map@.insert(key, pre.free_slots@.last()),
        post.free_slots@ == pre.free_slots@.drop_last(),
    ensures
        post.slots_consistent(),
{
    let f = pre.free_slots@;
    let slot = f.last() as int;
    assert(f[f.len() - 1] < SHADOW_SLOT_COUNT);
    assert(f.contains(slot as usize));
    assert(pre.meta@[slot].state == ShadowSlotState::Empty);
    assert forall|k: (i64, i64)| #[trigger] post.slot_map@.contains_key(k) implies {
        let s = post.slot_map@[k] as int;
        &&& post.meta@[s].state != ShadowSlotState::Empty
        &&& key_of(post.meta@[s]) == k
    } by {
        if k != key {
            let s = pre.slot_map@[k] as int;
            assert(pre.slot_map.values_below(SHADOW_SLOT_COUNT as int));
            assert(pre.meta@[s].state != ShadowSlotState::Empty);
            assert(s != slot);
        }
    }
    assert forall|s: int| 0 <= s < SHADOW_SLOT_COUNT && (#[trigger] post.meta@[s]).state != ShadowSlotState::Empty implies {
        &&& post.slot_map@.contains_key(key_of(post.meta@[s]))
        &&& post.slot_map@[key_of(post.meta@[s])] == s
    } by {
        if s != slot {
            assert(pre.meta@[s] == post.meta@[s]);
            assert(pre.slot_map@.contains_key(key_of(pre.meta@[s])));
            assert(key_of(pre.meta@[s]) != key);
        }
    }
    assert(post.free_slots@.no_duplicates()) by {
        let g = post.free_slots@;
        assert forall|a: int, b: int| 0 <= a < g.len() && 0 <= b < g.len() && a != b implies g[a] != g[b] by {
            assert(g[a] == f[a] && g[b] == f[b]);
        }
    }
    assert forall|s: int| 0 <= s < SHADOW_SLOT_COUNT implies
        (#[trigger] post.free_slots@.contains(s as usize) <==> post.meta@[s].state == ShadowSlotState::Empty) by {
        if post.free_slots@.contains(s as usize) {
            let i = choose|i: int| 0 <= i < post.free_slots@.len() && post.free_slots@[i] == s as usize;
            assert(f[i] == s as usize);
            assert(f.contains(s as usize));
            if s == slot {
                assert(f[f.len() - 1] == f[i]);
            }
        }
        if s != slot && pre.meta@[s].state == ShadowSlotState::Empty {
            assert(f.contains(s as usize));
            let i = choose|i: int| 0 <= i < f.len() && f[i] == s as usize;
            assert(i != f.len() - 1);
            assert(post.free_slots@[i] == s as usize);
        }
    }
}

/// The shadow pool.
pub struct ShadowPool {
    /// Cells of every slot, one chunk after the other.
    pub data: Vec<Cell>,
    /// Metadata of every slot.
    pub meta: Vec<ShadowSlotMeta>,
    /// Chunk coordinates to slot.
    pub slot_map: ChunkSlotMap,
    /// Slots to hand out next (the last one first).
    pub free_slots: Vec<usize>,
    /// Topology used to wrap chunk coordinates.
    pub topology: TorusTopology,
    /// Frame counter, for least-recently-used eviction.
    pub frame_counter: u64,
}

impl ShadowPool {
    /// Sizes agree with the slot count, every slot index in the map and the
    /// free list is a slot, no slot was accessed after the current frame,
    /// and the map, the slots' metadata and the free list agree (see
    /// `slots_consistent`).
    pub open spec fn wf(&self) -> bool {
        &&& self.data@.len() == SHADOW_SLOT_COUNT * CELLS_PER_CHUNK
        &&& self.meta@.len() == SHADOW_SLOT_COUNT
        &&& self.slot_map.wf()
        &&& self.slot_map.values_below(SHADOW_SLOT_COUNT as int)
        &&& forall|i: int| 0 <= i < self.free_slots@.len() ==> #[trigger] self.free_slots@[i] < SHADOW_SLOT_COUNT
        &&& forall|s: int| 0 <= s < SHADOW_SLOT_COUNT ==> #[trigger] self.meta@[s].last_access <= self.frame_counter
        &&& self.slots_consistent()
    }

    /// Every mapped chunk sits in a slot that holds it (not empty, recording
    /// its coordinates); every slot that holds a chunk is the one its
    /// coordinates map to; and the free list holds each empty slot once and
    /// nothing else.
    pub open spec fn slots_consistent(&self) -> bool {
        &&& forall|k: (i64, i64)| #[trigger] self.slot_map@.contains_key(k) ==> {
            let s = self.slot_map@[k] as int;
            &&& self.meta@[s].state != ShadowSlotState::Empty
            &&& key_of(self.meta@[s]) == k
        }
        &&& forall|s: int| 0 <= s < SHADOW_SLOT_COUNT && (#[trigger] self.meta@[s]).state != ShadowSlotState::Empty ==> {
            &&& self.slot_map@.contains_key(key_of(self.meta@[s]))
            &&& self.slot_map@[key_of(self.meta@[s])] == s
        }
        &&& self.free_slots@.no_duplicates()
        &&& forall|s: int| 0 <= s < SHADOW_SLOT_COUNT ==>
            (#[trigger] self.free_slots@.contains(s as usize) <==> self.meta@[s].state == ShadowSlotState::Empty)
    }

    /// The key a chunk coordinate is stored under: the coordinate wrapped onto the torus.
    pub open spec fn chunk_key(&self, chunk_x: int, chunk_z: int) -> (i64, i64) {
        (self.topology.wrap_chunk_x(chunk_x) as i64, self.topology.wrap_chunk_z(chunk_z) as i64)
    }

    /// The chunk `key` is in the pool and ready.
    pub open spec fn spec_is_ready(&self, key: (i64, i64)) -> bool {
        self.slot_map@.contains_key(key) && self.meta@[self.slot_map@[key] as int].state == ShadowSlotState::Ready
    }

    /// Everything but the cells and the metadata is as in `old`.
    pub open spec fn same_bookkeeping(&self, old: &Self) -> bool {
        &&& self.slot_map@ == old.slot_map@
        &&& self.free_slots@ == old.free_slots@
        &&& self.topology == old.topology
        &&& self.frame_counter == old.frame_counter
    }

    pub fn new(topology: TorusTopology) -> (p: Self)
        ensures
            p.wf(),
            p.topology == topology,
            p.frame_counter == 0,
            p.slot_map@ == Map::<(i64, i64), usize>::empty(),
            p.free_slots@.len() == SHADOW_SLOT_COUNT,
            forall|i: int| 0 <= i < SHADOW_SLOT_COUNT ==> #[trigger] p.free_slots@[i] == SHADOW_SLOT_COUNT - 1 - i,
            forall|s: int| 0 <= s < SHADOW_SLOT_COUNT ==> #[trigger] p.meta@[s] == (ShadowSlotMeta {
                state: ShadowSlotState::Empty, chunk_x: 0, chunk_z: 0, last_access: 0, ref_count: 0 }),
            forall|i: int| 0 <= i < p.data@.len() ==> #[trigger] p.data@[i].is_zero(),
    {
        let data = vec![Cell::zeroed(); SHADOW_SLOT_COUNT * CELLS_PER_CHUNK];
        let mut meta: Vec<ShadowSlotMeta> = Vec::new();
        let mut i: usize = 0;
        while i < SHADOW_SLOT_COUNT
            invariant
                0 <= i <= SHADOW_SLOT_COUNT,
                meta@.len() == i,
                forall|s: int| 0 <= s < i ==> #[trigger] meta@[s] == (ShadowSlotMeta {
                    state: ShadowSlotState::Empty, chunk_x: 0, chunk_z: 0, last_access: 0, ref_count: 0 }),
            decreases SHADOW_SLOT_COUNT - i,
        {
            meta.push(ShadowSlotMeta::new());
            i = i + 1;
        }
        let mut free_slots: Vec<usize> = Vec::new();
        let mut j: usize = SHADOW_SLOT_COUNT;
        while j > 0
            invariant
                0 <= j <= SHADOW_SLOT_COUNT,
                free_slots@.len() == SHADOW_SLOT_COUNT - j,
                forall|k: int| 0 <= k < free_slots@.len() ==> #[trigger] free_slots@[k] == SHADOW_SLOT_COUNT - 1 - k,
            decreases j,
        {
            j = j - 1;
            free_slots.push(j);
        }
        let p = Self { data, meta, slot_map: ChunkSlotMap::new(), free_slots, topology, frame_counter: 0 };
        proof {
            let f = p.free_slots@;
            assert forall|s: int| 0 <= s < SHADOW_SLOT_COUNT implies #[trigger] f.contains(s as usize) by {
                assert(f[SHADOW_SLOT_COUNT - 1 - s] == s);
            }
            assert(f.no_duplicates()) by {
                assert forall|a: int, b: int| 0 <= a < f.len() && 0 <= b < f.len() && a != b implies f[a] != f[b] by {
                    assert(f[a] == SHADOW_SLOT_COUNT - 1 - a);
                    assert(f[b] == SHADOW_SLOT_COUNT - 1 - b);
                }
            }
        }
        p
    }

    /// Advances the frame counter by one.
    pub fn tick_frame(&mut self)
        requires
            old(self).wf(),
            old(self).frame_counter < u64::MAX,
        ensures
            final(self).wf(),
            final(self).frame_counter == old(self).frame_counter + 1,
            final(self).data@ == old(self).data@,
            final(self).meta@ == old(self).meta@,
            final(self).slot_map@ == old(self).slot_map@,
            final(self).free_slots@ == old(self).free_slots@,
            final(self).topology == old(self).topology,
    {
        self.frame_counter = self.frame_counter + 1;
    }

    fn normalize_chunk(&self, chunk_x: i64, chunk_z: i64) -> (r: (i64, i64))
        requires
            self.topology.valid(),
        ensures
            r == self.chunk_key(chunk_x as int, chunk_z as int),
            0 <= r.0 < self.topology.chunks_x,
            0 <= r.1 < self.topology.chunks_z,
    {
        let (cx, cz) = self.topology.normalize_chunk(chunk_x, chunk_z);
        (cx as i64, cz as i64)
    }

    /// The cell at block `(x, y, z)`, if its chunk is ready in the pool.
    pub fn read_cell(&self, x: i64, y: i64, z: i64) -> (r: Option<&Cell>)
        requires
            self.wf(),
            self.topology.valid(),
        ensures
            ({
                let key = self.chunk_key(x as int / CHUNK_SIDE as int, z as int / CHUNK_SIDE as int);
                &&& (0 <= y < CHUNK_HEIGHT && self.spec_is_ready(key)) <==> r is Some
                &&& r matches Some(c) ==> *c == self.data@[chunk_start(self.slot_map@[key] as int)
                    + spec_cell_index(x as int % CHUNK_SIDE as int, y as int, z as int % CHUNK_SIDE as int)]
            }),
    {
        if y < 0 || y >= CHUNK_HEIGHT as i64 {
            return None;
        }

        let chunk_x = div_euclid_i64(x, CHUNK_SIDE as i64);
        let chunk_z = div_euclid_i64(z, CHUNK_SIDE as i64);

        let local_x = rem_euclid_i64(x, CHUNK_SIDE as i64) as usize;
        let local_y = y as usize;
        let local_z = rem_euclid_i64(z, CHUNK_SIDE as i64) as usize;

        let (norm_x, norm_z) = self.normalize_chunk(chunk_x, chunk_z);

        let slot = match self.slot_map.get((norm_x, norm_z)) {
            Some(s) => s,
            None => return None,
        };

        if self.meta[slot].state != ShadowSlotState::Ready {
            return None;
        }

        let cell_idx = (local_z * CHUNK_SIDE + local_x) * CHUNK_HEIGHT + local_y;
        assert(cell_idx < CELLS_PER_CHUNK) by (nonlinear_arith)
            requires cell_idx == (local_z * 16 + local_x) * 64 + local_y, local_z < 16, local_x < 16, local_y < 64;
        Some(self.get(slot, cell_idx))
    }

    /// The cells of chunk `(chunk_x, chunk_z)`, if it is ready in the pool.
    pub fn read_chunk(&self, chunk_x: i64, chunk_z: i64) -> (r: Option<&[Cell]>)
        requires
            self.wf(),
            self.topology.valid(),
        ensures
            ({
                let key = self.chunk_key(chunk_x as int, chunk_z as int);
                &&& self.spec_is_ready(key) <==> r is Some
                &&& r matches Some(cells) ==> cells@ == chunk_of(self.data@, self.slot_map@[key] as int)
            }),
    {
        let (norm_x, norm_z) = self.normalize_chunk(chunk_x, chunk_z);
        let slot = match self.slot_map.get((norm_x, norm_z)) {
            Some(s) => s,
            None => return None,
        };

        if self.meta[slot].state != ShadowSlotState::Ready {
            return None;
        }

        Some(self.chunk_slice(slot))
    }

    /// Empties `slot`: drops the mapping of the coordinates it records,
    /// resets its metadata, returns it to the free list and zeroes its cells.
    fn evict_slot(&mut self, slot: usize)
        requires
            old(self).wf(),
            slot < SHADOW_SLOT_COUNT,
            old(self).meta@[slot as int].state != ShadowSlotState::Empty,
        ensures
            final(self).wf(),
            final(self).meta@ == old(self).meta@.update(slot as int, emptied_meta(old(self).meta@[slot as int])),
            final(self).slot_map@ == old(self).slot_map@.remove(key_of(old(self).meta@[slot as int])),
            final(self).free_slots@ == old(self).free_slots@.push(slot),
            chunk_zeroed(old(self).data@, final(self).data@, slot as int),
            final(self).topology == old(self).topology,
            final(self).frame_counter == old(self).frame_counter,
    {
        let key = (self.meta[slot].chunk_x, self.meta[slot].chunk_z);
        self.slot_map.remove(key);
        let ghost m0 = self.meta@[slot as int];
        self.meta.set(slot, ShadowSlotMeta {
            state: ShadowSlotState::Empty,
            chunk_x: 0,
            chunk_z: 0,
            last_access: self.meta[slot].last_access,
            ref_count: 0,
        });
        self.free_slots.push(slot);
        proof {
            lemma_chunk_in_bounds(slot as int, SHADOW_SLOT_COUNT as int);
        }
        zero_cells(&mut self.data, slot);
        proof {
            assert(self.slot_map.values_below(SHADOW_SLOT_COUNT as int));
            lemma_emptied_consistent(*old(self), *self, slot as int);
        }
    }

    /// The least recently used slot that holds a chunk and is not
    /// referenced (the lowest index on ties), if any.
    fn find_lru(&self) -> (r: Option<usize>)
        requires
            self.wf(),
        ensures
            r is Some <==> has_evictable(self.meta@),
            r matches Some(s) ==> is_lru(self.meta@, s as int),
    {
        let mut best_slot: Option<usize> = None;
        let mut best_access: u64 = u64::MAX;
        let mut best_refs: u32 = u32::MAX;

        let mut slot: usize = 0;
        while slot < SHADOW_SLOT_COUNT
            invariant
                0 <= slot <= SHADOW_SLOT_COUNT,
                self.meta@.len() == SHADOW_SLOT_COUNT,
                best_slot is None ==> best_access == u64::MAX && best_refs == u32::MAX
                    && forall|j: int| 0 <= j < slot ==> !evictable(#[trigger] self.meta@[j]),
                best_slot matches Some(b) ==> {
                    &&& b < slot
                    &&& evictable(self.meta@[b as int])
                    &&& best_access == self.meta@[b as int].last_access
                    &&& best_refs == 0
                    &&& forall|j: int| 0 <= j < slot && evictable(#[trigger] self.meta@[j]) ==> best_access <= self.meta@[j].last_access
                    &&& forall|j: int| 0 <= j < b && evictable(#[trigger] self.meta@[j]) ==> best_access < self.meta@[j].last_access
                },
            decreases SHADOW_SLOT_COUNT - slot,
        {
            let meta = &self.meta[slot];
            if meta.state == ShadowSlotState::Empty {
                slot = slot + 1;
                continue;
            }
            if meta.ref_count > 0 {
                slot = slot + 1;
                continue;
            }
            if meta.last_access < best_access
                || (meta.last_access == best_access && meta.ref_count < best_refs)
            {
                best_access = meta.last_access;
                best_refs = meta.ref_count;
                best_slot = Some(slot);
            }
            slot = slot + 1;
        }
        proof {
            if best_slot is None {
                assert(!has_evictable(self.meta@));
            }
        }
        best_slot
    }

    /// Requests chunk `(chunk_x, chunk_z)` for the shadow pool.
    ///
    /// A chunk already in the pool gets its access time and reference count
    /// bumped; the answer follows its slot's state.  Otherwise the chunk gets
    /// the last free slot, or, with no free slot, the least recently used
    /// evictable slot, which is emptied first and handed to the chunk (it
    /// does not stay on the free list); the slot is marked loading and the
    /// chunk is queued.  With
    /// nothing to evict the pool is unchanged and the chunk is not available.
    pub fn request_chunk(&mut self, chunk_x: i64, chunk_z: i64) -> (r: ShadowRequestResult)
        requires
            old(self).wf(),
            old(self).topology.valid(),
            ({
                let key = old(self).chunk_key(chunk_x as int, chunk_z as int);
                old(self).slot_map@.contains_key(key)
                    ==> old(self).meta@[old(self).slot_map@[key] as int].ref_count < u32::MAX
            }),
        ensures
            final(self).wf(),
            final(self).topology == old(self).topology,
            final(self).frame_counter == old(self).frame_counter,
            request_outcome(*old(self), *final(self), chunk_x as int, chunk_z as int, r),
    {
        let (norm_x, norm_z) = self.normalize_chunk(chunk_x, chunk_z);
        let frame = self.frame_counter;

        if let Some(slot) = self.slot_map.get((norm_x, norm_z)) {
            let old_meta = &self.meta[slot];
            let state = old_meta.state;
            let updated = ShadowSlotMeta {
                state,
                chunk_x: old_meta.chunk_x,
                chunk_z: old_meta.chunk_z,
                last_access: frame,
                ref_count: old_meta.ref_count + 1,
            };
            self.meta.set(slot, updated);
            proof {
                lemma_touched_consistent(*old(self), *self, slot as int, updated);
            }
            return match state {
                ShadowSlotState::Ready => ShadowRequestResult::Ready(slot),
                ShadowSlotState::Loading => ShadowRequestResult::Queued(slot),
                ShadowSlotState::Empty => ShadowRequestResult::NotAvailable,
            };
        }

        let ghost meta0 = self.meta@;
        if self.free_slots.len() == 0 {
            match self.find_lru() {
                Some(lru_slot) => {
                    proof {
                        let c = choose|s: int| is_lru(meta0, s);
                        lemma_lru_unique(meta0, c, lru_slot as int);
                    }
                    // The emptied slot goes on the free list and is handed out below.
                    self.evict_slot(lru_slot);
                }
                None => return ShadowRequestResult::NotAvailable,
            }
        }

        let ghost mid = *self;
        let key = (norm_x, norm_z);
        let slot = self.free_slots.pop().unwrap();
        let m = ShadowSlotMeta {
            state: ShadowSlotState::Loading,
            chunk_x: norm_x,
            chunk_z: norm_z,
            last_access: frame,
            ref_count: 1,
        };
        self.meta.set(slot, m);
        self.slot_map.insert(key, slot);
        proof {
            assert(mid.free_slots@[mid.free_slots@.len() - 1] < SHADOW_SLOT_COUNT);
            assert(!mid.slot_map@.contains_key(key));
            assert(self.free_slots@ =~= mid.free_slots@.drop_last());
            lemma_assigned_consistent(mid, *self, key, frame);
            if old(self).free_slots@.len() > 0 {
                assert(self.meta@ =~= meta0.update(slot as int, m));
                assert(self.slot_map@ =~= old(self).slot_map@.insert(key, slot));
            } else {
                assert(self.meta@ =~= meta0.update(slot as int, m));
                assert(self.slot_map@ =~= old(self).slot_map@.remove(key_of(meta0[slot as int])).insert(key, slot));
                assert(self.free_slots@ =~= old(self).free_slots@);
            }
        }

        ShadowRequestResult::Queued(slot)
    }

    /// Drops one reference to chunk `(chunk_x, chunk_z)`, if it is in the
    /// pool and referenced.
    pub fn release_chunk(&mut self, chunk_x: i64, chunk_z: i64)
        requires
            old(self).wf(),
            old(self).topology.valid(),
        ensures
            final(self).wf(),
            release_outcome(*old(self), *final(self), chunk_x as int, chunk_z as int),
    {
        let (norm_x, norm_z) = self.normalize_chunk(chunk_x, chunk_z);

        if let Some(slot) = self.slot_map.get((norm_x, norm_z)) {
            if self.meta[slot].ref_count > 0 {
                let m = &self.meta[slot];
                let updated = ShadowSlotMeta {
                    state: m.state,
                    chunk_x: m.chunk_x,
                    chunk_z: m.chunk_z,
                    last_access: m.last_access,
                    ref_count: m.ref_count - 1,
                };
                self.meta.set(slot, updated);
            }
        }
    }

    /// Copies loaded cells into `slot` and marks it ready.  A slot that
    /// holds no chunk (it was emptied while its load was under way) is left
    /// as it is: it stays free.
    pub fn apply_loaded_chunk(&mut self, slot: usize, data: &[Cell])
        requires
            old(self).wf(),
            slot < SHADOW_SLOT_COUNT,
            data@.len() == CELLS_PER_CHUNK,
        ensures
            final(self).wf(),
            old(self).meta@[slot as int].state == ShadowSlotState::Empty ==> *final(self) == *old(self),
            old(self).meta@[slot as int].state != ShadowSlotState::Empty ==> {
                &&& final(self).same_bookkeeping(old(self))
                &&& final(self).data@ == with_chunk(old(self).data@, slot as int, data@)
                &&& final(self).meta@ == old(self).meta@.update(slot as int, ShadowSlotMeta {
                    state: ShadowSlotState::Ready,
                    ..old(self).meta@[slot as int]
                })
            },
    {
        if self.meta[slot].state == ShadowSlotState::Empty {
            return;
        }
        proof {
            lemma_chunk_in_bounds(slot as int, SHADOW_SLOT_COUNT as int);
        }
        let start = slot * CELLS_PER_CHUNK;
        copy_cells(&mut self.data, start, data, 0);
        proof {
            assert(data@.subrange(0, CELLS_PER_CHUNK as int) =~= data@);
        }
        let m = &self.meta[slot];
        let updated = ShadowSlotMeta {
            state: ShadowSlotState::Ready,
            chunk_x: m.chunk_x,
            chunk_z: m.chunk_z,
            last_access: m.last_access,
            ref_count: m.ref_count,
        };
        self.meta.set(slot, updated);
        proof {
            lemma_touched_consistent(*old(self), *self, slot as int, updated);
        }
    }

    /// Marks a slot whose load failed as empty: drops the mapping of the
    /// coordinates it records, resets its coordinates and references, and
    /// returns it to the free list (its cells are left as they are).  A
    /// slot that is already empty is left as it is (it is on the free list
    /// already).
    pub fn mark_failed(&mut self, slot: usize)
        requires
            old(self).wf(),
            slot < SHADOW_SLOT_COUNT,
        ensures
            final(self).wf(),
            old(self).meta@[slot as int].state == ShadowSlotState::Empty ==> *final(self) == *old(self),
            old(self).meta@[slot as int].state != ShadowSlotState::Empty ==> {
                &&& final(self).meta@ == old(self).meta@.update(slot as int, emptied_meta(old(self).meta@[slot as int]))
                &&& final(self).slot_map@ == old(self).slot_map@.remove(key_of(old(self).meta@[slot as int]))
                &&& final(self).free_slots@ == old(self).free_slots@.push(slot)
                &&& final(self).data@ == old(self).data@
                &&& final(self).topology == old(self).topology
                &&& final(self).frame_counter == old(self).frame_counter
            },
    {
        if self.meta[slot].state == ShadowSlotState::Empty {
            return;
        }
        let key = (self.meta[slot].chunk_x, self.meta[slot].chunk_z);
        let last_access = self.meta[slot].last_access;
        self.meta.set(slot, ShadowSlotMeta {
            state: ShadowSlotState::Empty,
            chunk_x: 0,
            chunk_z: 0,
            last_access,
            ref_count: 0,
        });
        self.slot_map.remove(key);
        self.free_slots.push(slot);
        proof {
            lemma_emptied_consistent(*old(self), *self, slot as int);
        }
    }

    /// Whether chunk `(chunk_x, chunk_z)` is ready in the pool.
    pub fn is_ready(&self, chunk_x: i64, chunk_z: i64) -> (r: bool)
        requires
            self.wf(),
            self.topology.valid(),
        ensures
            r == self.spec_is_ready(self.chunk_key(chunk_x as int, chunk_z as int)),
    {
        let (norm_x, norm_z) = self.normalize_chunk(chunk_x, chunk_z);
        match self.slot_map.get((norm_x, norm_z)) {
            Some(slot) => self.meta[slot].state == ShadowSlotState::Ready,
            None => false,
        }
    }

    /// The slots due for unloading at the current frame, in increasing order.
    pub open spec fn due_slots(&self) -> Set<int> {
        Set::new(|s: int| 0 <= s < SHADOW_SLOT_COUNT && due_for_unload(self.meta@[s], self.frame_counter))
    }

    /// Unloads every ready slot that nobody references and that was last
    /// accessed more than `SHADOW_UNLOAD_DELAY` frames ago: each such slot
    /// is emptied as by eviction, in increasing slot order.
    pub fn tick_unload(&mut self)
        requires
            old(self).wf(),
        ensures
            final(self).wf(),
            final(self).topology == old(self).topology,
            final(self).frame_counter == old(self).frame_counter,
            ({
                let due = old(self).due_slots();
                let meta = old(self).meta@;
                &&& final(self).meta@.len() == meta.len()
                &&& forall|s: int| 0 <= s < SHADOW_SLOT_COUNT ==> #[trigger] final(self).meta@[s]
                    == if due.contains(s) { emptied_meta(meta[s]) } else { meta[s] }
                &&& final(self).slot_map@ == old(self).slot_map@.remove_keys(
                    Set::new(|k: (i64, i64)| exists|s: int| due.contains(s) && key_of(meta[s]) == k))
                &&& exists|added: Seq<usize>| {
                    &&& final(self).free_slots@ == old(self).free_slots@ + added
                    &&& forall|a: int, b: int| 0 <= a < b < added.len() ==> added[a] < added[b]
                    &&& forall|a: int| 0 <= a < added.len() ==> due.contains(#[trigger] added[a] as int)
                    &&& forall|s: int| due.contains(s) ==> exists|a: int| 0 <= a < added.len() && added[a] == s
                }
                &&& final(self).data@.len() == old(self).data@.len()
                &&& forall|i: int| #![trigger final(self).data@[i]] 0 <= i < final(self).data@.len() ==>
                    if due.contains(i / CELLS_PER_CHUNK as int) {
                        final(self).data@[i].is_zero()
                    } else {
                        final(self).data@[i] == old(self).data@[i]
                    }
            }),
    {
        let current_frame = self.frame_counter;
        let ghost due = self.due_slots();
        let mut to_evict: Vec<usize> = Vec::new();

        let mut slot: usize = 0;
        while slot < SHADOW_SLOT_COUNT
            invariant
                0 <= slot <= SHADOW_SLOT_COUNT,
                self.wf(),
                current_frame == self.frame_counter,
                due == self.due_slots(),
                forall|a: int, b: int| 0 <= a < b < to_evict@.len() ==> to_evict@[a] < to_evict@[b],
                forall|a: int| 0 <= a < to_evict@.len() ==> #[trigger] to_evict@[a] < slot && due.contains(to_evict@[a] as int),
                forall|s: int| 0 <= s < slot && due.contains(s) ==> exists|a: int| 0 <= a < to_evict@.len() && to_evict@[a] == s,
            decreases SHADOW_SLOT_COUNT - slot,
        {
            let meta = &self.meta[slot];
            if meta.state != ShadowSlotState::Ready {
                slot = slot + 1;
                continue;
            }
            if meta.ref_count > 0 {
                slot = slot + 1;
                continue;
            }
            if current_frame - meta.last_access > SHADOW_UNLOAD_DELAY {
                let ghost before = to_evict@;
                to_evict.push(slot);
                proof {
                    assert forall|s: int| 0 <= s < slot + 1 && due.contains(s)
                        implies exists|a: int| 0 <= a < to_evict@.len() && to_evict@[a] == s by {
                        if s == slot {
                            assert(to_evict@[before.len() as int] == s);
                        } else {
                            let a = choose|a: int| 0 <= a < before.len() && before[a] == s;
                            assert(to_evict@[a] == s);
                        }
                    }
                }
            }
            slot = slot + 1;
        }

        let ghost meta0 = self.meta@;
        let ghost map0 = self.slot_map@;
        let ghost free0 = self.free_slots@;
        let ghost data0 = self.data@;
        let mut i: usize = 0;
        while i < to_evict.len()
            invariant
                0 <= i <= to_evict@.len(),
                self.wf(),
                self.topology == old(self).topology,
                self.frame_counter == old(self).frame_counter,
                meta0 == old(self).meta@,
                map0 == old(self).slot_map@,
                free0 == old(self).free_slots@,
                data0 == old(self).data@,
                forall|a: int, b: int| 0 <= a < b < to_evict@.len() ==> to_evict@[a] < to_evict@[b],
                forall|a: int| 0 <= a < to_evict@.len() ==> #[trigger] to_evict@[a] < SHADOW_SLOT_COUNT,
                forall|a: int| 0 <= a < to_evict@.len() ==> due.contains(#[trigger] to_evict@[a] as int),
                due == old(self).due_slots(),
                forall|s: int| 0 <= s < SHADOW_SLOT_COUNT ==> #[trigger] self.meta@[s]
                    == if (exists|a: int| 0 <= a < i && to_evict@[a] == s) { emptied_meta(meta0[s]) } else { meta0[s] },
                self.slot_map@ == map0.remove_keys(
                    Set::new(|k: (i64, i64)| exists|a: int| 0 <= a < i && key_of(meta0[to_evict@[a] as int]) == k)),
                self.free_slots@ == free0 + to_evict@.subrange(0, i as int),
                self.data@.len() == data0.len(),
                forall|c: int| #![trigger self.data@[c]] 0 <= c < self.data@.len() ==>
                    if (exists|a: int| 0 <= a < i && to_evict@[a] == c / CELLS_PER_CHUNK as int) {
                        self.data@[c].is_zero()
                    } else {
                        self.data@[c] == data0[c]
                    },
            decreases to_evict@.len() - i,
        {
            let s = to_evict[i];
            let ghost map_before = self.slot_map@;
            let ghost data_before = self.data@;
            let ghost meta_before = self.meta@;
            proof {
                // `s` has not been evicted yet: the list is strictly increasing.
                assert forall|a: int| 0 <= a < i implies to_evict@[a] != s by {
                    assert(to_evict@[a] < to_evict@[i as int]);
                }
                assert(meta_before[s as int] == meta0[s as int]);
                assert(due.contains(to_evict@[i as int] as int));
            }
            self.evict_slot(s);
            proof {
                assert forall|t: int| 0 <= t < SHADOW_SLOT_COUNT implies #[trigger] self.meta@[t]
                    == if (exists|a: int| 0 <= a < i + 1 && to_evict@[a] == t) { emptied_meta(meta0[t]) } else { meta0[t] } by {
                    if t == s {
                        assert(to_evict@[i as int] == t);
                    } else {
                        if exists|a: int| 0 <= a < i + 1 && to_evict@[a] == t {
                            let a = choose|a: int| 0 <= a < i + 1 && to_evict@[a] == t;
                            assert(a != i);
                        }
                    }
                }
                let keys_i = Set::new(|k: (i64, i64)| exists|a: int| 0 <= a < i && key_of(meta0[to_evict@[a] as int]) == k);
                let keys_n = Set::new(|k: (i64, i64)| exists|a: int| 0 <= a < i + 1 && key_of(meta0[to_evict@[a] as int]) == k);
                assert(keys_n =~= keys_i.insert(key_of(meta0[s as int]))) by {
                    assert forall|k: (i64, i64)| keys_n.contains(k) implies keys_i.insert(key_of(meta0[s as int])).contains(k) by {
                        let a = choose|a: int| 0 <= a < i + 1 && key_of(meta0[to_evict@[a] as int]) == k;
                        if a < i {
                            assert(keys_i.contains(k));
                        }
                    }
                    assert forall|k: (i64, i64)| keys_i.insert(key_of(meta0[s as int])).contains(k) implies keys_n.contains(k) by {
                        if k == key_of(meta0[s as int]) {
                            assert(key_of(meta0[to_evict@[i as int] as int]) == k);
                        } else {
                            let a = choose|a: int| 0 <= a < i && key_of(meta0[to_evict@[a] as int]) == k;
                            assert(0 <= a < i + 1 && key_of(meta0[to_evict@[a] as int]) == k);
                        }
                    }
                }
                assert(self.slot_map@ =~= map0.remove_keys(keys_n));
                assert(self.free_slots@ =~= free0 + to_evict@.subrange(0, i + 1));
                assert forall|c: int| #![trigger self.data@[c]] 0 <= c < self.data@.len() implies
                    if (exists|a: int| 0 <= a < i + 1 && to_evict@[a] == c / CELLS_PER_CHUNK as int) {
                        self.data@[c].is_zero()
                    } else {
                        self.data@[c] == data0[c]
                    } by {
                    assert(data_before[c] == data_before[c]);
                    let in_s = s * CELLS_PER_CHUNK <= c < s * CELLS_PER_CHUNK + CELLS_PER_CHUNK;
                    assert(in_s <==> c / CELLS_PER_CHUNK as int == s) by (nonlinear_arith)
                        requires 0 <= c, in_s == (s * 16384 <= c < s * 16384 + 16384);
                    if c / CELLS_PER_CHUNK as int == s {
                        assert(to_evict@[i as int] == c / CELLS_PER_CHUNK as int);
                    } else {
                        if exists|a: int| 0 <= a < i + 1 && to_evict@[a] == c / CELLS_PER_CHUNK as int {
                            let a = choose|a: int| 0 <= a < i + 1 && to_evict@[a] == c / CELLS_PER_CHUNK as int;
                            assert(a != i);
                        }
                    }
                }
            }
            i = i + 1;
        }
        proof {
            assert forall|s: int| 0 <= s < SHADOW_SLOT_COUNT implies
                ((exists|a: int| 0 <= a < to_evict@.len() && to_evict@[a] == s) <==> due.contains(s)) by {
                if due.contains(s) {
                }
            }
            let keys_a = Set::new(|k: (i64, i64)| exists|a: int| 0 <= a < to_evict@.len() && key_of(meta0[to_evict@[a] as int]) == k);
            let keys_d = Set::new(|k: (i64, i64)| exists|s: int| due.contains(s) && key_of(meta0[s]) == k);
            assert(keys_a =~= keys_d) by {
                assert forall|k: (i64, i64)| keys_d.contains(k) implies keys_a.contains(k) by {
                    let s = choose|s: int| due.contains(s) && key_of(meta0[s]) == k;
                    let a = choose|a: int| 0 <= a < to_evict@.len() && to_evict@[a] == s;
                    assert(key_of(meta0[to_evict@[a] as int]) == k);
                }
                assert forall|k: (i64, i64)| keys_a.contains(k) implies keys_d.contains(k) by {
                    let a = choose|a: int| 0 <= a < to_evict@.len() && key_of(meta0[to_evict@[a] as int]) == k;
                    assert(due.contains(to_evict@[a] as int));
                }
            }
            assert(to_evict@.subrange(0, to_evict@.len() as int) =~= to_evict@);
            assert forall|c: int| #![trigger self.data@[c]] 0 <= c < self.data@.len() implies
                if due.contains(c / CELLS_PER_CHUNK as int) {
                    self.data@[c].is_zero()
                } else {
                    self.data@[c] == data0[c]
                } by {
                assert(0 <= (c / (CELLS_PER_CHUNK as int)) < SHADOW_SLOT_COUNT) by (nonlinear_arith)
                    requires 0 <= c < 36 * 16384;
            }
        }
    }

    /// The cell at `cell_index` of the chunk in `slot`.
    pub fn get(&self, slot: usize, cell_index: usize) -> (r: &Cell)
        requires
            self.wf(),
            slot < SHADOW_SLOT_COUNT,
            cell_index < CELLS_PER_CHUNK,
        ensures
            *r == self.data@[chunk_start(slot as int) + cell_index],
    {
        proof {
            lemma_cell_in_bounds(slot as int, cell_index as int, SHADOW_SLOT_COUNT as int);
        }
        &self.data[slot * CELLS_PER_CHUNK + cell_index]
    }

    /// The cells of the chunk in `slot`.
    pub fn chunk_slice(&self, slot: usize) -> (r: &[Cell])
        requires
            self.wf(),
            slot < SHADOW_SLOT_COUNT,
        ensures
            r@ == chunk_of(self.data@, slot as int),
    {
        proof {
            lemma_chunk_in_bounds(slot as int, SHADOW_SLOT_COUNT as int);
        }
        let start = slot * CELLS_PER_CHUNK;
        let end = start + CELLS_PER_CHUNK;
        &self.data.as_slice()[start..end]
    }
}

} // verus!
