//! Taking in what the background worker finished for the active pool:
//! loaded chunks go to the write pool, save results update the slots.
use vstd::prelude::*;
use crate::voxel::format::{Cell, CELLS_PER_CHUNK, POOL_CHUNK_COUNT};
use crate::voxel::pool::{ChunkPool, with_chunk, chunk_of, chunk_start, copy_cells, lemma_chunk_in_bounds};
use crate::io::channels::{LoadResponse, SaveResponse};
use crate::io::staging::{ActiveStagingBuffer, StagedChunk};
use crate::manager::manager::ChunkManager;
use crate::manager::metadata::{SlotMetadata, SlotState};

verus! {

/// Takes in one load response: a successful load is staged with the grid
/// coordinates its slot records; a failed one marks the slot failed.
pub fn handle_load_response(staging: &mut ActiveStagingBuffer, manager: &mut ChunkManager, response: LoadResponse)
    requires
        old(manager).wf(),
        response.slot < POOL_CHUNK_COUNT,
    ensures
        final(manager).wf(),
        final(manager).topology == old(manager).topology,
        final(manager).load_queue@ == old(manager).load_queue@,
        final(manager).save_queue@ == old(manager).save_queue@,
        final(staging).saved_chunks@ == old(staging).saved_chunks@,
        response.success ==> ({
            let m = old(manager).metadata@[response.slot as int];
            let staged = final(staging).loaded_chunks@.last();
            &&& final(manager).metadata@ == old(manager).metadata@
            &&& final(staging).loaded_chunks@.len() == old(staging).loaded_chunks@.len() + 1
            &&& final(staging).loaded_chunks@.drop_last() == old(staging).loaded_chunks@
            &&& staged.slot == response.slot
            &&& staged.grid_x == m.grid_x
            &&& staged.grid_z == m.grid_z
            &&& staged.data@ == response.data@
            &&& staged.min_solid_y == response.min_solid_y
            &&& staged.max_solid_y == response.max_solid_y
            &&& staged.min_liquid_y == response.min_liquid_y
            &&& staged.max_liquid_y == response.max_liquid_y
        }),
        !response.success ==> {
            &&& final(staging).loaded_chunks@ == old(staging).loaded_chunks@
            &&& final(manager).metadata@ == old(manager).metadata@.update(response.slot as int,
                SlotMetadata { state: SlotState::Failed.code(), ..old(manager).metadata@[response.slot as int] })
        },
{
    if response.success {
        let grid_x = manager.metadata[response.slot].grid_x;
        let grid_z = manager.metadata[response.slot].grid_z;
        staging.push_loaded(StagedChunk {
            slot: response.slot,
            grid_x,
            grid_z,
            data: response.data,
            min_solid_y: response.min_solid_y,
            max_solid_y: response.max_solid_y,
            min_liquid_y: response.min_liquid_y,
            max_liquid_y: response.max_liquid_y,
        });
        assert(staging.loaded_chunks@.drop_last() =~= old(staging).loaded_chunks@);
    } else {
        manager.set_slot_state(response.slot, SlotState::Failed);
    }
}

/// Takes in one save response: it is staged.
pub fn handle_save_response(staging: &mut ActiveStagingBuffer, response: SaveResponse)
    ensures
        final(staging).saved_chunks@ == old(staging).saved_chunks@.push(response),
        final(staging).loaded_chunks@ == old(staging).loaded_chunks@,
{
    staging.push_saved(response);
}

/// The write pool's cells after each staged chunk, in order, is copied into its slot.
pub open spec fn apply_loaded_cells(cells: Seq<Cell>, staged: Seq<StagedChunk>) -> Seq<Cell>
    decreases staged.len(),
{
    if staged.len() == 0 {
        cells
    } else {
        with_chunk(apply_loaded_cells(cells, staged.drop_last()), staged.last().slot as int, staged.last().data@)
    }
}

/// The slot metadata after each staged chunk, in order, sets its slot's
/// height bounds and makes it ready.
pub open spec fn apply_loaded_meta(meta: Seq<SlotMetadata>, staged: Seq<StagedChunk>) -> Seq<SlotMetadata>
    decreases staged.len(),
{
    if staged.len() == 0 {
        meta
    } else {
        let m = apply_loaded_meta(meta, staged.drop_last());
        let c = staged.last();
        m.update(c.slot as int, SlotMetadata {
            state: SlotState::Ready.code(),
            min_solid_y: c.min_solid_y,
            max_solid_y: c.max_solid_y,
            min_liquid_y: c.min_liquid_y,
            max_liquid_y: c.max_liquid_y,
            ..m[c.slot as int]
        })
    }
}

/// The slot metadata after each save result, in order: a successful save
/// makes its slot ready and clean, a failed one marks it failed.
pub open spec fn apply_saved_meta(meta: Seq<SlotMetadata>, saved: Seq<SaveResponse>) -> Seq<SlotMetadata>
    decreases saved.len(),
{
    if saved.len() == 0 {
        meta
    } else {
        let m = apply_saved_meta(meta, saved.drop_last());
        let r = saved.last();
        if r.success {
            m.update(r.slot as int, SlotMetadata { state: SlotState::Ready.code(), file_dirty: false, ..m[r.slot as int] })
        } else {
            m.update(r.slot as int, SlotMetadata { state: SlotState::Failed.code(), ..m[r.slot as int] })
        }
    }
}

/// Every staged chunk fits a pool slot, and every save result names one.
pub open spec fn staging_fits_pool(staging: &ActiveStagingBuffer) -> bool {
    &&& forall|i: int| 0 <= i < staging.loaded_chunks@.len() ==> (#[trigger] staging.loaded_chunks@[i]).slot < POOL_CHUNK_COUNT
        && staging.loaded_chunks@[i].data@.len() == CELLS_PER_CHUNK
    &&& forall|i: int| 0 <= i < staging.saved_chunks@.len() ==> (#[trigger] staging.saved_chunks@[i]).slot < POOL_CHUNK_COUNT
}

proof fn lemma_apply_loaded_meta_len(meta: Seq<SlotMetadata>, staged: Seq<StagedChunk>)
    requires
        forall|i: int| 0 <= i < staged.len() ==> (#[trigger] staged[i]).slot < meta.len(),
    ensures
        apply_loaded_meta(meta, staged).len() == meta.len(),
    decreases staged.len(),
{
    if staged.len() > 0 {
        lemma_apply_loaded_meta_len(meta, staged.drop_last());
    }
}

proof fn lemma_apply_saved_meta_len(meta: Seq<SlotMetadata>, saved: Seq<SaveResponse>)
    requires
        forall|i: int| 0 <= i < saved.len() ==> (#[trigger] saved[i]).slot < meta.len(),
    ensures
        apply_saved_meta(meta, saved).len() == meta.len(),
    decreases saved.len(),
{
    if saved.len() > 0 {
        lemma_apply_saved_meta_len(meta, saved.drop_last());
    }
}

/// Staged chunks after the `j`-th that fill other slots leave its slot as
/// the `j`-th chunk left it.
proof fn lemma_loaded_meta_after(meta: Seq<SlotMetadata>, staged: Seq<StagedChunk>, j: int)
    requires
        0 <= j < staged.len(),
        forall|i: int| 0 <= i < staged.len() ==> (#[trigger] staged[i]).slot < meta.len(),
        forall|k: int| j < k < staged.len() ==> (#[trigger] staged[k]).slot != staged[j].slot,
    ensures
        apply_loaded_meta(meta, staged)[staged[j].slot as int]
            == apply_loaded_meta(meta, staged.subrange(0, j + 1))[staged[j].slot as int],
    decreases staged.len(),
{
    if staged.len() == j + 1 {
        assert(staged.subrange(0, j + 1) =~= staged);
    } else {
        let pre = staged.drop_last();
        assert(pre.subrange(0, j + 1) =~= staged.subrange(0, j + 1));
        lemma_loaded_meta_after(meta, pre, j);
        assert forall|i: int| 0 <= i < pre.len() implies (#[trigger] pre[i]).slot < meta.len() by {
            assert(pre[i] == staged[i]);
        }
        lemma_apply_loaded_meta_len(meta, pre);
        assert(staged.last().slot != staged[j].slot);
    }
}

/// Loaded chunks make their slots ready: the last staged chunk for a slot
/// leaves it ready with that chunk's solid and liquid height bounds and
/// the rest of its metadata as before that chunk.
pub proof fn lemma_loaded_chunks_make_slots_ready(meta: Seq<SlotMetadata>, staged: Seq<StagedChunk>, j: int)
    requires
        0 <= j < staged.len(),
        forall|i: int| 0 <= i < staged.len() ==> (#[trigger] staged[i]).slot < meta.len(),
        forall|k: int| j < k < staged.len() ==> (#[trigger] staged[k]).slot != staged[j].slot,
    ensures
        ({
            let c = staged[j];
            let before = apply_loaded_meta(meta, staged.subrange(0, j))[c.slot as int];
            let after = apply_loaded_meta(meta, staged)[c.slot as int];
            &&& after.spec_state() == SlotState::Ready
            &&& after.min_solid_y == c.min_solid_y
            &&& after.max_solid_y == c.max_solid_y
            &&& after.min_liquid_y == c.min_liquid_y
            &&& after.max_liquid_y == c.max_liquid_y
            &&& after == SlotMetadata {
                state: after.state,
                min_solid_y: after.min_solid_y,
                max_solid_y: after.max_solid_y,
                min_liquid_y: after.min_liquid_y,
                max_liquid_y: after.max_liquid_y,
                ..before
            }
        }),
{
    lemma_loaded_meta_after(meta, staged, j);
    let pre = staged.subrange(0, j + 1);
    assert(pre.drop_last() =~= staged.subrange(0, j));
    assert(pre.last() == staged[j]);
    assert forall|i: int| 0 <= i < j implies (#[trigger] staged.subrange(0, j)[i]).slot < meta.len() by {
        assert(staged.subrange(0, j)[i] == staged[i]);
    }
    lemma_apply_loaded_meta_len(meta, staged.subrange(0, j));
}

/// A slot that no staged chunk fills keeps its metadata.
pub proof fn lemma_loaded_meta_untouched(meta: Seq<SlotMetadata>, staged: Seq<StagedChunk>, t: int)
    requires
        0 <= t < meta.len(),
        forall|i: int| 0 <= i < staged.len() ==> (#[trigger] staged[i]).slot < meta.len(),
        forall|i: int| 0 <= i < staged.len() ==> (#[trigger] staged[i]).slot != t,
    ensures
        apply_loaded_meta(meta, staged)[t] == meta[t],
    decreases staged.len(),
{
    if staged.len() > 0 {
        let pre = staged.drop_last();
        assert forall|i: int| 0 <= i < pre.len() implies (#[trigger] pre[i]).slot < meta.len() && pre[i].slot != t by {
            assert(pre[i] == staged[i]);
        }
        lemma_loaded_meta_untouched(meta, pre, t);
        lemma_apply_loaded_meta_len(meta, pre);
        assert(staged.last().slot != t);
    }
}

/// Replacing the chunk of slot `a` puts `chunk` there and leaves every
/// other slot's chunk and the length as they were.
proof fn lemma_with_chunk_slots(cells: Seq<Cell>, count: int, a: int, chunk: Seq<Cell>, b: int)
    requires
        cells.len() == count * CELLS_PER_CHUNK,
        0 <= a < count,
        0 <= b < count,
        chunk.len() == CELLS_PER_CHUNK,
    ensures
        with_chunk(cells, a, chunk).len() == cells.len(),
        chunk_of(with_chunk(cells, a, chunk), a) == chunk,
        b != a ==> chunk_of(with_chunk(cells, a, chunk), b) == chunk_of(cells, b),
{
    lemma_chunk_in_bounds(a, count);
    lemma_chunk_in_bounds(b, count);
    let w = with_chunk(cells, a, chunk);
    assert(chunk_of(w, a) =~= chunk);
    if b < a {
        assert(chunk_start(b) + CELLS_PER_CHUNK <= chunk_start(a)) by (nonlinear_arith)
            requires b < a, chunk_start(b) == b * 16384, chunk_start(a) == a * 16384;
        assert(chunk_of(w, b) =~= chunk_of(cells, b));
    } else if b > a {
        assert(chunk_start(a) + CELLS_PER_CHUNK <= chunk_start(b)) by (nonlinear_arith)
            requires a < b, chunk_start(b) == b * 16384, chunk_start(a) == a * 16384;
        assert(chunk_of(w, b) =~= chunk_of(cells, b));
    }
}

/// Every staged chunk fits a slot of a pool of `count` slots.
pub open spec fn staged_fit(staged: Seq<StagedChunk>, count: int) -> bool {
    forall|i: int| 0 <= i < staged.len() ==> (#[trigger] staged[i]).slot < count
        && staged[i].data@.len() == CELLS_PER_CHUNK
}

/// Loading staged chunks leaves the cells' length as it was, and the chunk
/// of slot `t` as it was when no staged chunk fills it.
proof fn lemma_loaded_cells_untouched(cells: Seq<Cell>, count: int, staged: Seq<StagedChunk>, t: int)
    requires
        cells.len() == count * CELLS_PER_CHUNK,
        0 <= t < count,
        staged_fit(staged, count),
    ensures
        apply_loaded_cells(cells, staged).len() == cells.len(),
        (forall|i: int| 0 <= i < staged.len() ==> (#[trigger] staged[i]).slot != t)
            ==> chunk_of(apply_loaded_cells(cells, staged), t) == chunk_of(cells, t),
    decreases staged.len(),
{
    if staged.len() > 0 {
        let pre = staged.drop_last();
        assert forall|i: int| 0 <= i < pre.len() implies (#[trigger] pre[i]).slot < count
            && pre[i].data@.len() == CELLS_PER_CHUNK by {
            assert(pre[i] == staged[i]);
        }
        lemma_loaded_cells_untouched(cells, count, pre, t);
        let c = staged.last();
        assert(c == staged[staged.len() - 1]);
        lemma_with_chunk_slots(apply_loaded_cells(cells, pre), count, c.slot as int, c.data@, t);
        if forall|i: int| 0 <= i < staged.len() ==> (#[trigger] staged[i]).slot != t {
            assert forall|i: int| 0 <= i < pre.len() implies (#[trigger] pre[i]).slot != t by {
                assert(pre[i] == staged[i]);
            }
        }
    }
}

/// Staged chunks after the `j`-th that fill other slots leave its slot's
/// chunk as the `j`-th chunk left it.
proof fn lemma_loaded_cells_after(cells: Seq<Cell>, count: int, staged: Seq<StagedChunk>, j: int)
    requires
        cells.len() == count * CELLS_PER_CHUNK,
        0 <= j < staged.len(),
        staged_fit(staged, count),
        forall|k: int| j < k < staged.len() ==> (#[trigger] staged[k]).slot != staged[j].slot,
    ensures
        chunk_of(apply_loaded_cells(cells, staged), staged[j].slot as int)
            == chunk_of(apply_loaded_cells(cells, staged.subrange(0, j + 1)), staged[j].slot as int),
    decreases staged.len(),
{
    if staged.len() == j + 1 {
        assert(staged.subrange(0, j + 1) =~= staged);
    } else {
        let pre = staged.drop_last();
        assert(pre.subrange(0, j + 1) =~= staged.subrange(0, j + 1));
        assert forall|i: int| 0 <= i < pre.len() implies (#[trigger] pre[i]).slot < count
            && pre[i].data@.len() == CELLS_PER_CHUNK by {
            assert(pre[i] == staged[i]);
        }
        lemma_loaded_cells_after(cells, count, pre, j);
        lemma_loaded_cells_untouched(cells, count, pre, 0);
        let c = staged.last();
        assert(c == staged[staged.len() - 1]);
        assert(c.slot != staged[j].slot);
        lemma_with_chunk_slots(apply_loaded_cells(cells, pre), count, c.slot as int, c.data@, staged[j].slot as int);
    }
}

/// Loaded chunks fill their slots: after loading, the chunk of a slot is
/// the data of the last staged chunk for it, and a slot that no staged
/// chunk fills keeps its cells.
pub proof fn lemma_loaded_chunks_fill_slots(cells: Seq<Cell>, count: int, staged: Seq<StagedChunk>, j: int, t: int)
    requires
        cells.len() == count * CELLS_PER_CHUNK,
        staged_fit(staged, count),
        0 <= j < staged.len(),
        forall|k: int| j < k < staged.len() ==> (#[trigger] staged[k]).slot != staged[j].slot,
        0 <= t < count,
    ensures
        chunk_of(apply_loaded_cells(cells, staged), staged[j].slot as int) == staged[j].data@,
        (forall|i: int| 0 <= i < staged.len() ==> (#[trigger] staged[i]).slot != t)
            ==> chunk_of(apply_loaded_cells(cells, staged), t) == chunk_of(cells, t),
{
    lemma_loaded_cells_after(cells, count, staged, j);
    lemma_loaded_cells_untouched(cells, count, staged, t);
    let pre = staged.subrange(0, j);
    assert(staged.subrange(0, j + 1).drop_last() =~= pre);
    assert(staged.subrange(0, j + 1).last() == staged[j]);
    assert forall|i: int| 0 <= i < pre.len() implies (#[trigger] pre[i]).slot < count
        && pre[i].data@.len() == CELLS_PER_CHUNK by {
        assert(pre[i] == staged[i]);
    }
    lemma_loaded_cells_untouched(cells, count, pre, 0);
    lemma_with_chunk_slots(apply_loaded_cells(cells, pre), count, staged[j].slot as int, staged[j].data@, 0);
}

/// Save results after the `j`-th that name other slots leave its slot as
/// the `j`-th result left it.
proof fn lemma_saved_meta_after(meta: Seq<SlotMetadata>, saved: Seq<SaveResponse>, j: int)
    requires
        0 <= j < saved.len(),
        forall|i: int| 0 <= i < saved.len() ==> (#[trigger] saved[i]).slot < meta.len(),
        forall|k: int| j < k < saved.len() ==> (#[trigger] saved[k]).slot != saved[j].slot,
    ensures
        apply_saved_meta(meta, saved)[saved[j].slot as int]
            == apply_saved_meta(meta, saved.subrange(0, j + 1))[saved[j].slot as int],
    decreases saved.len(),
{
    if saved.len() == j + 1 {
        assert(saved.subrange(0, j + 1) =~= saved);
    } else {
        let pre = saved.drop_last();
        assert(pre.subrange(0, j + 1) =~= saved.subrange(0, j + 1));
        lemma_saved_meta_after(meta, pre, j);
        assert forall|i: int| 0 <= i < pre.len() implies (#[trigger] pre[i]).slot < meta.len() by {
            assert(pre[i] == saved[i]);
        }
        lemma_apply_saved_meta_len(meta, pre);
        assert(saved.last().slot != saved[j].slot);
    }
}

/// Save results settle their slots: the last result that names a slot
/// decides it.  A successful save leaves the slot ready and clean with
/// the rest of its metadata as before that result; a failed one leaves it
/// failed with everything else, the changed-on-disk flag included, as
/// before.
pub proof fn lemma_save_results_settle_slots(meta: Seq<SlotMetadata>, saved: Seq<SaveResponse>, j: int)
    requires
        0 <= j < saved.len(),
        forall|i: int| 0 <= i < saved.len() ==> (#[trigger] saved[i]).slot < meta.len(),
        forall|k: int| j < k < saved.len() ==> (#[trigger] saved[k]).slot != saved[j].slot,
    ensures
        ({
            let s = saved[j].slot as int;
            let before = apply_saved_meta(meta, saved.subrange(0, j))[s];
            let after = apply_saved_meta(meta, saved)[s];
            &&& saved[j].success ==> {
                &&& after.spec_state() == SlotState::Ready
                &&& !after.file_dirty
                &&& after == SlotMetadata { state: after.state, file_dirty: false, ..before }
            }
            &&& !saved[j].success ==> {
                &&& after.spec_state() == SlotState::Failed
                &&& after.file_dirty == before.file_dirty
                &&& after == SlotMetadata { state: after.state, ..before }
            }
        }),
{
    lemma_saved_meta_after(meta, saved, j);
    let pre = saved.subrange(0, j + 1);
    assert(pre.drop_last() =~= saved.subrange(0, j));
    assert(pre.last() == saved[j]);
    assert forall|i: int| 0 <= i < j implies (#[trigger] saved.subrange(0, j)[i]).slot < meta.len() by {
        assert(saved.subrange(0, j)[i] == saved[i]);
    }
    lemma_apply_saved_meta_len(meta, saved.subrange(0, j));
}

/// A slot that no save result names keeps its metadata.
pub proof fn lemma_saved_meta_untouched(meta: Seq<SlotMetadata>, saved: Seq<SaveResponse>, t: int)
    requires
        0 <= t < meta.len(),
        forall|i: int| 0 <= i < saved.len() ==> (#[trigger] saved[i]).slot < meta.len(),
        forall|i: int| 0 <= i < saved.len() ==> (#[trigger] saved[i]).slot != t,
    ensures
        apply_saved_meta(meta, saved)[t] == meta[t],
    decreases saved.len(),
{
    if saved.len() > 0 {
        let pre = saved.drop_last();
        assert forall|i: int| 0 <= i < pre.len() implies (#[trigger] pre[i]).slot < meta.len() && pre[i].slot != t by {
            assert(pre[i] == saved[i]);
        }
        lemma_saved_meta_untouched(meta, pre, t);
        lemma_apply_saved_meta_len(meta, pre);
        assert(saved.last().slot != t);
    }
}

/// Applies what was staged: each loaded chunk is copied into its slot of
/// the write pool, its height bounds recorded and its slot made ready; then
/// each save result updates its slot.  Returns, for each loaded chunk, its
/// grid coordinates and slot.
pub fn apply_active_staged(
    staging: &mut ActiveStagingBuffer,
    write_world: &mut ChunkPool,
    manager: &mut ChunkManager,
) -> (applied: Vec<(i64, i64, usize)>)
    requires
        old(manager).wf(),
        old(write_world).wf(),
        old(write_world).slot_count >= POOL_CHUNK_COUNT,
        staging_fits_pool(old(staging)),
    ensures
        final(manager).wf(),
        final(manager).topology == old(manager).topology,
        final(manager).load_queue@ == old(manager).load_queue@,
        final(manager).save_queue@ == old(manager).save_queue@,
        final(write_world).wf(),
        final(write_world).slot_count == old(write_world).slot_count,
        final(staging).loaded_chunks@.len() == 0,
        final(staging).saved_chunks@.len() == 0,
        final(write_world).data@ == apply_loaded_cells(old(write_world).data@, old(staging).loaded_chunks@),
        final(manager).metadata@ == apply_saved_meta(
            apply_loaded_meta(old(manager).metadata@, old(staging).loaded_chunks@), old(staging).saved_chunks@),
        applied@.len() == old(staging).loaded_chunks@.len(),
        forall|i: int| 0 <= i < applied@.len() ==> #[trigger] applied@[i] == (
            old(staging).loaded_chunks@[i].grid_x, old(staging).loaded_chunks@[i].grid_z, old(staging).loaded_chunks@[i].slot),
{
    let ghost saved0 = staging.saved_chunks@;
    let loaded = staging.take_loaded();
    let ghost d0 = write_world.data@;
    let ghost meta0 = manager.metadata@;
    let mut applied: Vec<(i64, i64, usize)> = Vec::new();
    let mut i: usize = 0;
    while i < loaded.len()
        invariant
            0 <= i <= loaded@.len(),
            loaded@ == old(staging).loaded_chunks@,
            staging_fits_pool(old(staging)),
            manager.wf(),
            manager.topology == old(manager).topology,
            manager.load_queue@ == old(manager).load_queue@,
            manager.save_queue@ == old(manager).save_queue@,
            write_world.wf(),
            write_world.slot_count == old(write_world).slot_count,
            write_world.slot_count >= POOL_CHUNK_COUNT,
            d0 == old(write_world).data@,
            meta0 == old(manager).metadata@,
            meta0.len() == POOL_CHUNK_COUNT,
            write_world.data@ == apply_loaded_cells(d0, loaded@.subrange(0, i as int)),
            manager.metadata@ == apply_loaded_meta(meta0, loaded@.subrange(0, i as int)),
            applied@.len() == i,
            forall|k: int| 0 <= k < i ==> #[trigger] applied@[k] == (loaded@[k].grid_x, loaded@[k].grid_z, loaded@[k].slot),
        decreases loaded@.len() - i,
    {
        let slot = loaded[i].slot;
        assert(loaded@[i as int].slot < POOL_CHUNK_COUNT && loaded@[i as int].data@.len() == CELLS_PER_CHUNK);
        proof {
            lemma_chunk_in_bounds(slot as int, write_world.slot_count as int);
        }
        copy_cells(&mut write_world.data, slot * CELLS_PER_CHUNK, loaded[i].data.as_slice(), 0);
        let min_solid_y = loaded[i].min_solid_y;
        let max_solid_y = loaded[i].max_solid_y;
        let min_liquid_y = loaded[i].min_liquid_y;
        let max_liquid_y = loaded[i].max_liquid_y;
        manager.metadata[slot].min_solid_y = min_solid_y;
        manager.metadata[slot].max_solid_y = max_solid_y;
        manager.metadata[slot].min_liquid_y = min_liquid_y;
        manager.metadata[slot].max_liquid_y = max_liquid_y;
        manager.set_slot_state(slot, SlotState::Ready);
        applied.push((loaded[i].grid_x, loaded[i].grid_z, slot));
        proof {
            let pre = loaded@.subrange(0, i as int);
            let next = loaded@.subrange(0, i + 1);
            assert(next.drop_last() =~= pre);
            assert(loaded@[i as int].data@.subrange(0, CELLS_PER_CHUNK as int) =~= loaded@[i as int].data@);
            assert forall|k: int| 0 <= k < pre.len() implies (#[trigger] pre[k]).slot < meta0.len() by {
                assert(pre[k] == loaded@[k]);
            }
            lemma_apply_loaded_meta_len(meta0, pre);
            assert(manager.metadata@ =~= apply_loaded_meta(meta0, next));
        }
        i = i + 1;
    }
    assert(loaded@.subrange(0, loaded@.len() as int) =~= loaded@);

    let saved = staging.take_saved();
    let ghost meta1 = manager.metadata@;
    let mut j: usize = 0;
    while j < saved.len()
        invariant
            0 <= j <= saved@.len(),
            saved@ == saved0,
            saved0 == old(staging).saved_chunks@,
            staging_fits_pool(old(staging)),
            manager.wf(),
            manager.topology == old(manager).topology,
            manager.load_queue@ == old(manager).load_queue@,
            manager.save_queue@ == old(manager).save_queue@,
            meta1.len() == POOL_CHUNK_COUNT,
            manager.metadata@ == apply_saved_meta(meta1, saved@.subrange(0, j as int)),
        decreases saved@.len() - j,
    {
        let slot = saved[j].slot;
        assert(saved@[j as int].slot < POOL_CHUNK_COUNT);
        if saved[j].success {
            manager.set_slot_state(slot, SlotState::Ready);
            manager.set_file_dirty(slot, false);
        } else {
            manager.set_slot_state(slot, SlotState::Failed);
        }
        proof {
            let pre = saved@.subrange(0, j as int);
            let next = saved@.subrange(0, j + 1);
            assert(next.drop_last() =~= pre);
            assert forall|k: int| 0 <= k < pre.len() implies (#[trigger] pre[k]).slot < meta1.len() by {
                assert(pre[k] == saved@[k]);
            }
            lemma_apply_saved_meta_len(meta1, pre);
            assert(manager.metadata@ =~= apply_saved_meta(meta1, next));
        }
        j = j + 1;
    }
    assert(saved@.subrange(0, saved@.len() as int) =~= saved@);
    applied
}

} // verus!
