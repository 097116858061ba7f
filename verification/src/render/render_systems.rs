//! The render systems' bookkeeping: what mesh updates do to the mesh
//! storage, which meshes to build, swap and drop.  Building meshes and
//! spawning entities is the renderer's part.
use vstd::prelude::*;
use vstd::arithmetic::div_mod::{lemma_fundamental_div_mod, lemma_mod_multiples_vanish, lemma_small_mod};
use crate::manager::manager::ChunkManager;
use crate::queues::mesh_queue::{MeshUpdateEvent, MeshUpdateKind, MeshUpdateQueue};
use crate::voxel::format::{SUBCHUNKS_PER_CHUNK, WINDOW_CHUNK_COUNT, WINDOW_SIDE};
use super::mesh_storage::{MeshStorage, SubchunkKey, SubchunkRenderData, SubchunkRenderState,
    fresh_render_data, keys_where, lists_each_once};

verus! {

/// Key of subchunk `idx` of chunk `(gx, gz)`.
pub open spec fn key_of_subchunk(gx: i64, gz: i64, idx: int) -> SubchunkKey {
    SubchunkKey { chunk_x: gx, chunk_z: gz, subchunk_index: idx as usize }
}

/// `k` is one of the first `n` subchunks of chunk `(gx, gz)`.
pub open spec fn in_chunk_below(k: SubchunkKey, gx: i64, gz: i64, n: int) -> bool {
    k.chunk_x == gx && k.chunk_z == gz && k.subchunk_index < n
}

/// Bit `idx` of a dirty mask is set.
pub open spec fn subchunk_bit(mask: u64, idx: usize) -> bool {
    mask & (1u64 << idx) != 0
}

/// The storage after the first `n` subchunks of a loaded chunk got fresh
/// data where they had none.
pub open spec fn loaded_upto<M, E>(m: Map<SubchunkKey, SubchunkRenderData<M, E>>, gx: i64, gz: i64, n: int)
    -> Map<SubchunkKey, SubchunkRenderData<M, E>>
{
    Map::new(
        |k: SubchunkKey| m.contains_key(k) || in_chunk_below(k, gx, gz, n),
        |k: SubchunkKey| if m.contains_key(k) { m[k] } else { fresh_render_data(k.chunk_x, k.chunk_z, k.subchunk_index) },
    )
}

/// The storage after the ready ones among the first `n` subchunks of a
/// chunk whose bits are set in `mask` were marked dirty.
pub open spec fn dirtied_upto<M, E>(m: Map<SubchunkKey, SubchunkRenderData<M, E>>, gx: i64, gz: i64, mask: u64, n: int)
    -> Map<SubchunkKey, SubchunkRenderData<M, E>>
{
    Map::new(
        |k: SubchunkKey| m.contains_key(k),
        |k: SubchunkKey|
            if in_chunk_below(k, gx, gz, n) && subchunk_bit(mask, k.subchunk_index) && m[k].state == SubchunkRenderState::Ready {
                SubchunkRenderData { state: SubchunkRenderState::Dirty, ..m[k] }
            } else {
                m[k]
            },
    )
}

/// The storage after the first `n` subchunks of an unloaded chunk were dropped.
pub open spec fn unloaded_upto<M, E>(m: Map<SubchunkKey, SubchunkRenderData<M, E>>, gx: i64, gz: i64, n: int)
    -> Map<SubchunkKey, SubchunkRenderData<M, E>>
{
    m.remove_keys(Set::new(|k: SubchunkKey| in_chunk_below(k, gx, gz, n)))
}

/// The entities of the first `n` subchunks of chunk `(gx, gz)` that have
/// one, in subchunk order.
pub open spec fn entities_upto<M, E>(m: Map<SubchunkKey, SubchunkRenderData<M, E>>, gx: i64, gz: i64, n: int) -> Seq<E>
    decreases n,
{
    if n <= 0 {
        Seq::empty()
    } else {
        let k = key_of_subchunk(gx, gz, n - 1);
        let before = entities_upto(m, gx, gz, n - 1);
        if m.contains_key(k) && m[k].entity is Some {
            before.push(m[k].entity.unwrap())
        } else {
            before
        }
    }
}

/// What one mesh update does: the new storage and the entities to despawn.
pub open spec fn mesh_event_effect<M, E>(m: Map<SubchunkKey, SubchunkRenderData<M, E>>, ev: MeshUpdateEvent)
    -> (Map<SubchunkKey, SubchunkRenderData<M, E>>, Seq<E>)
{
    let n = SUBCHUNKS_PER_CHUNK as int;
    match ev.kind {
        MeshUpdateKind::ChunkLoaded | MeshUpdateKind::ShadowChunkLoaded => (loaded_upto(m, ev.grid_x, ev.grid_z, n), Seq::empty()),
        MeshUpdateKind::ChunkDirty => (dirtied_upto(m, ev.grid_x, ev.grid_z, ev.dirty_subchunks, n), Seq::empty()),
        MeshUpdateKind::ChunkUnloaded | MeshUpdateKind::ShadowChunkUnloaded =>
            (unloaded_upto(m, ev.grid_x, ev.grid_z, n), entities_upto(m, ev.grid_x, ev.grid_z, n)),
    }
}

/// A dirty-chunk update marks dirty exactly the stored subchunks of its
/// chunk that are ready and whose bit is set in its mask, for every
/// subchunk index of a chunk; every other stored subchunk keeps its data,
/// none is added or dropped, and no entity is despawned.
pub proof fn lemma_dirty_event_marks_ready_subchunks<M, E>(m: Map<SubchunkKey, SubchunkRenderData<M, E>>, ev: MeshUpdateEvent)
    requires
        ev.kind == MeshUpdateKind::ChunkDirty,
    ensures
        ({
            let (after, despawn) = mesh_event_effect(m, ev);
            &&& after.dom() == m.dom()
            &&& despawn.len() == 0
            &&& forall|k: SubchunkKey| #[trigger] m.contains_key(k) ==> after[k] == if {
                    &&& k.chunk_x == ev.grid_x
                    &&& k.chunk_z == ev.grid_z
                    &&& k.subchunk_index < SUBCHUNKS_PER_CHUNK
                    &&& ev.dirty_subchunks & (1u64 << k.subchunk_index) != 0
                    &&& m[k].state == SubchunkRenderState::Ready
                } {
                    SubchunkRenderData { state: SubchunkRenderState::Dirty, ..m[k] }
                } else {
                    m[k]
                }
        }),
{
    let after = mesh_event_effect(m, ev).0;
    assert(after.dom() =~= m.dom());
}

/// A loaded-chunk update adds every subchunk of its chunk that was not
/// stored, with no mesh, no entity and the empty state, keeps every stored
/// subchunk's data as it was, adds nothing else and despawns nothing.
pub proof fn lemma_loaded_event_adds_missing_subchunks<M, E>(m: Map<SubchunkKey, SubchunkRenderData<M, E>>, ev: MeshUpdateEvent)
    requires
        ev.kind == MeshUpdateKind::ChunkLoaded || ev.kind == MeshUpdateKind::ShadowChunkLoaded,
    ensures
        ({
            let (after, despawn) = mesh_event_effect(m, ev);
            &&& despawn.len() == 0
            &&& forall|k: SubchunkKey| #[trigger] after.contains_key(k) <==> (m.contains_key(k) || (
                k.chunk_x == ev.grid_x && k.chunk_z == ev.grid_z && k.subchunk_index < SUBCHUNKS_PER_CHUNK))
            &&& forall|k: SubchunkKey| #[trigger] m.contains_key(k) ==> after[k] == m[k]
            &&& forall|k: SubchunkKey| !m.contains_key(k) && k.chunk_x == ev.grid_x && k.chunk_z == ev.grid_z
                && k.subchunk_index < SUBCHUNKS_PER_CHUNK ==> #[trigger] after[k] == (SubchunkRenderData::<M, E> {
                    current_mesh: None,
                    pending_mesh: None,
                    state: SubchunkRenderState::Empty,
                    entity: None,
                    chunk_x: k.chunk_x,
                    chunk_z: k.chunk_z,
                    subchunk_index: k.subchunk_index,
                })
        }),
{
}

/// The entity of subchunk `idx` of chunk `(gx, gz)` in `m`, as a sequence
/// of at most one entity.
pub open spec fn subchunk_entity<M, E>(m: Map<SubchunkKey, SubchunkRenderData<M, E>>, gx: i64, gz: i64, idx: int) -> Seq<E> {
    let k = SubchunkKey { chunk_x: gx, chunk_z: gz, subchunk_index: idx as usize };
    if m.contains_key(k) && m[k].entity is Some { seq![m[k].entity.unwrap()] } else { Seq::empty() }
}

/// An unloaded-chunk update drops every stored subchunk of its chunk and
/// keeps every other one as it was; it despawns the entities of the
/// dropped subchunks, in subchunk order.
pub proof fn lemma_unloaded_event_drops_chunk<M, E>(m: Map<SubchunkKey, SubchunkRenderData<M, E>>, ev: MeshUpdateEvent)
    requires
        ev.kind == MeshUpdateKind::ChunkUnloaded || ev.kind == MeshUpdateKind::ShadowChunkUnloaded,
    ensures
        ({
            let (after, despawn) = mesh_event_effect(m, ev);
            let (gx, gz) = (ev.grid_x, ev.grid_z);
            &&& forall|k: SubchunkKey| #[trigger] after.contains_key(k) <==> (m.contains_key(k) && !(
                k.chunk_x == gx && k.chunk_z == gz && k.subchunk_index < SUBCHUNKS_PER_CHUNK))
            &&& forall|k: SubchunkKey| #[trigger] after.contains_key(k) ==> after[k] == m[k]
            &&& despawn == subchunk_entity(m, gx, gz, 0) + subchunk_entity(m, gx, gz, 1)
                + subchunk_entity(m, gx, gz, 2) + subchunk_entity(m, gx, gz, 3)
        }),
{
    let (gx, gz) = (ev.grid_x, ev.grid_z);
    reveal_with_fuel(entities_upto, 5);
    assert(entities_upto(m, gx, gz, 4) =~= subchunk_entity(m, gx, gz, 0) + subchunk_entity(m, gx, gz, 1)
        + subchunk_entity(m, gx, gz, 2) + subchunk_entity(m, gx, gz, 3));
}

/// What the updates `evs`, applied in order, do: the final storage and
/// the entities to despawn, in order.
pub open spec fn mesh_events_effect<M, E>(m: Map<SubchunkKey, SubchunkRenderData<M, E>>, evs: Seq<MeshUpdateEvent>)
    -> (Map<SubchunkKey, SubchunkRenderData<M, E>>, Seq<E>)
    decreases evs.len(),
{
    if evs.len() == 0 {
        (m, Seq::empty())
    } else {
        let before = mesh_events_effect(m, evs.drop_last());
        let last = mesh_event_effect(before.0, evs.last());
        (last.0, before.1 + last.1)
    }
}

/// Processing no update changes nothing; processing one update does what
/// that update does; and processing a queue in two parts, one after the
/// other, does what processing it at once does, the despawned entities of
/// the first part coming first.
pub proof fn lemma_mesh_events_compose<M, E>(
    m: Map<SubchunkKey, SubchunkRenderData<M, E>>,
    a: Seq<MeshUpdateEvent>,
    b: Seq<MeshUpdateEvent>,
    ev: MeshUpdateEvent,
)
    ensures
        mesh_events_effect(m, Seq::<MeshUpdateEvent>::empty()) == (m, Seq::<E>::empty()),
        mesh_events_effect(m, seq![ev]) == mesh_event_effect(m, ev),
        ({
            let first = mesh_events_effect(m, a);
            let second = mesh_events_effect(first.0, b);
            mesh_events_effect(m, a + b) == (second.0, first.1 + second.1)
        }),
    decreases b.len(),
{
    assert(seq![ev].drop_last() =~= Seq::<MeshUpdateEvent>::empty());
    assert(Seq::<E>::empty() + mesh_event_effect(m, ev).1 =~= mesh_event_effect(m, ev).1);
    if b.len() == 0 {
        assert(a + b =~= a);
        assert(mesh_events_effect(m, a).1 + Seq::<E>::empty() =~= mesh_events_effect(m, a).1);
    } else {
        lemma_mesh_events_compose(m, a, b.drop_last(), ev);
        assert((a + b).drop_last() =~= a + b.drop_last());
        assert((a + b).last() == b.last());
        let first = mesh_events_effect(m, a);
        let mid = mesh_events_effect(first.0, b.drop_last());
        let last = mesh_event_effect(mid.0, b.last());
        assert(first.1 + (mid.1 + last.1) =~= (first.1 + mid.1) + last.1);
    }
}

/// Applies one mesh update to the storage, appending to `despawn` the
/// entities of the subchunks it drops.
fn apply_mesh_event<M, E>(storage: &mut MeshStorage<M, E>, event: &MeshUpdateEvent, despawn: &mut Vec<E>)
    requires
        old(storage).wf(),
    ensures
        final(storage).wf(),
        final(storage).spec_entity_count() == old(storage).spec_entity_count(),
        final(storage)@ == mesh_event_effect(old(storage)@, *event).0,
        final(despawn)@ == old(despawn)@ + mesh_event_effect(old(storage)@, *event).1,
{
    let ghost m0 = storage@;
    let gx = event.grid_x;
    let gz = event.grid_z;
    match event.kind {
        MeshUpdateKind::ChunkLoaded | MeshUpdateKind::ShadowChunkLoaded => {
            let mut sub_idx: usize = 0;
            assert(loaded_upto(m0, gx, gz, 0) =~= m0);
            while sub_idx < SUBCHUNKS_PER_CHUNK
                invariant
                    0 <= sub_idx <= SUBCHUNKS_PER_CHUNK,
                    storage.wf(),
                    storage.spec_entity_count() == old(storage).spec_entity_count(),
                    storage@ == loaded_upto(m0, gx, gz, sub_idx as int),
                    despawn@ == old(despawn)@,
                decreases SUBCHUNKS_PER_CHUNK - sub_idx,
            {
                let key = SubchunkKey { chunk_x: gx, chunk_z: gz, subchunk_index: sub_idx };
                if !storage.contains(&key) {
                    let data = SubchunkRenderData::new(gx, gz, sub_idx);
                    storage.insert(key, data);
                }
                proof {
                    assert(storage@ =~= loaded_upto(m0, gx, gz, sub_idx + 1));
                }
                sub_idx = sub_idx + 1;
            }
            assert(despawn@ =~= old(despawn)@ + Seq::<E>::empty());
        },
        MeshUpdateKind::ChunkDirty => {
            let dirty_mask = event.dirty_subchunks;
            let mut sub_idx: usize = 0;
            assert(dirtied_upto(m0, gx, gz, dirty_mask, 0) =~= m0);
            while sub_idx < SUBCHUNKS_PER_CHUNK
                invariant
                    0 <= sub_idx <= SUBCHUNKS_PER_CHUNK,
                    storage.wf(),
                    storage.spec_entity_count() == old(storage).spec_entity_count(),
                    storage@ == dirtied_upto(m0, gx, gz, dirty_mask, sub_idx as int),
                    despawn@ == old(despawn)@,
                decreases SUBCHUNKS_PER_CHUNK - sub_idx,
            {
                if dirty_mask & (1u64 << sub_idx) != 0 {
                    let key = SubchunkKey { chunk_x: gx, chunk_z: gz, subchunk_index: sub_idx };
                    if let Some(data) = storage.get_mut(&key) {
                        if data.state == SubchunkRenderState::Ready {
                            data.state = SubchunkRenderState::Dirty;
                        }
                    }
                }
                proof {
                    assert(storage@ =~= dirtied_upto(m0, gx, gz, dirty_mask, sub_idx + 1));
                }
                sub_idx = sub_idx + 1;
            }
            assert(despawn@ =~= old(despawn)@ + Seq::<E>::empty());
        },
        MeshUpdateKind::ChunkUnloaded | MeshUpdateKind::ShadowChunkUnloaded => {
            let mut sub_idx: usize = 0;
            assert(unloaded_upto(m0, gx, gz, 0) =~= m0);
            assert(old(despawn)@ + entities_upto(m0, gx, gz, 0) =~= old(despawn)@);
            while sub_idx < SUBCHUNKS_PER_CHUNK
                invariant
                    0 <= sub_idx <= SUBCHUNKS_PER_CHUNK,
                    storage.wf(),
                    storage.spec_entity_count() == old(storage).spec_entity_count(),
                    storage@ == unloaded_upto(m0, gx, gz, sub_idx as int),
                    despawn@ == old(despawn)@ + entities_upto(m0, gx, gz, sub_idx as int),
                decreases SUBCHUNKS_PER_CHUNK - sub_idx,
            {
                let key = SubchunkKey { chunk_x: gx, chunk_z: gz, subchunk_index: sub_idx };
                let ghost k = key_of_subchunk(gx, gz, sub_idx as int);
                assert(key == k);
                assert(storage@.contains_key(k) == m0.contains_key(k));
                if let Some(data) = storage.remove(&key) {
                    if let Some(entity) = data.entity {
                        despawn.push(entity);
                    }
                }
                proof {
                    assert(storage@ =~= unloaded_upto(m0, gx, gz, sub_idx + 1));
                    assert(despawn@ =~= old(despawn)@ + entities_upto(m0, gx, gz, sub_idx + 1));
                }
                sub_idx = sub_idx + 1;
            }
        },
    }
}

/// Applies every queued mesh update to the storage, in order, and empties
/// the queue.  A loaded chunk gives each of its subchunks fresh data where
/// it had none; a dirty chunk marks its ready subchunks whose bits are set
/// dirty; an unloaded chunk drops its subchunks.  Returns the entities of
/// the dropped subchunks, for the renderer to despawn.
pub fn process_mesh_events<M, E>(queue: &mut MeshUpdateQueue, storage: &mut MeshStorage<M, E>) -> (r: Vec<E>)
    requires
        old(storage).wf(),
    ensures
        final(queue)@ == Seq::<MeshUpdateEvent>::empty(),
        final(storage).wf(),
        final(storage).spec_entity_count() == old(storage).spec_entity_count(),
        (final(storage)@, r@) == mesh_events_effect(old(storage)@, old(queue)@),
{
    let events = queue.iter();
    let mut despawn: Vec<E> = Vec::new();
    let mut i: usize = 0;
    while i < events.len()
        invariant
            0 <= i <= events@.len(),
            events@ == old(queue)@,
            storage.wf(),
            storage.spec_entity_count() == old(storage).spec_entity_count(),
            (storage@, despawn@) == mesh_events_effect(old(storage)@, events@.subrange(0, i as int)),
        decreases events@.len() - i,
    {
        proof {
            assert(events@.subrange(0, i + 1).drop_last() =~= events@.subrange(0, i as int));
        }
        apply_mesh_event(storage, &events[i], &mut despawn);
        i = i + 1;
    }
    proof {
        assert(events@.subrange(0, events@.len() as int) =~= events@);
    }
    queue.clear();
    despawn
}

/// The data of a subchunk after a freshly built mesh was handed to it: a
/// subchunk without a mesh shows it at once; one whose mesh was out of
/// date keeps it pending until the swap.
pub open spec fn with_built_mesh<M, E>(d: SubchunkRenderData<M, E>, mesh: M) -> SubchunkRenderData<M, E> {
    match d.state {
        SubchunkRenderState::Empty => SubchunkRenderData { current_mesh: Some(mesh), state: SubchunkRenderState::Ready, ..d },
        SubchunkRenderState::Dirty => SubchunkRenderData { pending_mesh: Some(mesh), state: SubchunkRenderState::Rebuilding, ..d },
        _ => d,
    }
}

/// Hands the mesh built for `key` to its subchunk (see `with_built_mesh`);
/// nothing happens to a key that is not stored.
pub fn install_built_mesh<M, E>(storage: &mut MeshStorage<M, E>, key: &SubchunkKey, mesh: M)
    requires
        old(storage).wf(),
    ensures
        final(storage).wf(),
        final(storage).spec_entity_count() == old(storage).spec_entity_count(),
        final(storage)@ == if old(storage)@.contains_key(*key) {
            old(storage)@.insert(*key, with_built_mesh(old(storage)@[*key], mesh))
        } else {
            old(storage)@
        },
{
    if let Some(data) = storage.get_mut(key) {
        match data.state {
            SubchunkRenderState::Empty => {
                data.current_mesh = Some(mesh);
                data.state = SubchunkRenderState::Ready;
            },
            SubchunkRenderState::Dirty => {
                data.pending_mesh = Some(mesh);
                data.state = SubchunkRenderState::Rebuilding;
            },
            _ => {},
        }
    }
}

/// A built mesh is shown at once by a subchunk that had none (it becomes
/// ready), is kept pending by a subchunk whose mesh was out of date (it
/// becomes rebuilding, still showing its old mesh), and is dropped by a
/// subchunk in any other state; nothing else about the subchunk changes.
pub proof fn lemma_built_mesh_placement<M, E>(d: SubchunkRenderData<M, E>, mesh: M)
    ensures
        d.state == SubchunkRenderState::Empty ==> ({
            let r = with_built_mesh(d, mesh);
            &&& r.state == SubchunkRenderState::Ready
            &&& r.current_mesh == Some(mesh)
            &&& r == SubchunkRenderData { state: r.state, current_mesh: r.current_mesh, ..d }
        }),
        d.state == SubchunkRenderState::Dirty ==> ({
            let r = with_built_mesh(d, mesh);
            &&& r.state == SubchunkRenderState::Rebuilding
            &&& r.pending_mesh == Some(mesh)
            &&& r == SubchunkRenderData { state: r.state, pending_mesh: r.pending_mesh, ..d }
        }),
        d.state != SubchunkRenderState::Empty && d.state != SubchunkRenderState::Dirty ==> with_built_mesh(d, mesh) == d,
{
}

/// A subchunk whose rebuilt mesh waits to be shown.
pub open spec fn swap_due<M, E>(d: SubchunkRenderData<M, E>) -> bool {
    d.state == SubchunkRenderState::Rebuilding && d.pending_mesh is Some
}

/// The data of a subchunk after the swap: a pending rebuilt mesh replaces
/// the shown one and the subchunk is ready again.
pub open spec fn swapped<M, E>(d: SubchunkRenderData<M, E>) -> SubchunkRenderData<M, E> {
    if swap_due(d) {
        SubchunkRenderData { current_mesh: d.pending_mesh, pending_mesh: None, state: SubchunkRenderState::Ready, ..d }
    } else {
        d
    }
}

/// A swap shows a waiting rebuilt mesh: the subchunk's pending mesh
/// becomes its current one, nothing stays pending and it is ready again;
/// a subchunk with nothing waiting is left alone, and swapping twice does
/// what swapping once does.
pub proof fn lemma_swap_shows_pending_mesh<M, E>(d: SubchunkRenderData<M, E>)
    ensures
        d.state == SubchunkRenderState::Rebuilding && d.pending_mesh is Some ==> ({
            let r = swapped(d);
            &&& r.current_mesh == d.pending_mesh
            &&& r.pending_mesh is None
            &&& r.state == SubchunkRenderState::Ready
            &&& r == SubchunkRenderData { current_mesh: r.current_mesh, pending_mesh: None, state: r.state, ..d }
        }),
        !(d.state == SubchunkRenderState::Rebuilding && d.pending_mesh is Some) ==> swapped(d) == d,
        swapped(swapped(d)) == swapped(d),
{
}

/// The storage after every subchunk among `done` was swapped.
pub open spec fn swapped_among<M, E>(m: Map<SubchunkKey, SubchunkRenderData<M, E>>, done: Seq<SubchunkKey>)
    -> Map<SubchunkKey, SubchunkRenderData<M, E>>
{
    Map::new(|k: SubchunkKey| m.contains_key(k), |k: SubchunkKey| if done.contains(k) { swapped(m[k]) } else { m[k] })
}

/// Shows every rebuilt mesh: each subchunk that is rebuilding with a
/// pending mesh makes it its current mesh and becomes ready.
pub fn swap_meshes<M, E>(storage: &mut MeshStorage<M, E>)
    requires
        old(storage).wf(),
    ensures
        final(storage).wf(),
        final(storage).spec_entity_count() == old(storage).spec_entity_count(),
        final(storage)@ == Map::new(|k: SubchunkKey| old(storage)@.contains_key(k), |k: SubchunkKey| swapped(old(storage)@[k])),
{
    let keys = storage.keys();
    let ghost m0 = storage@;
    let mut i: usize = 0;
    proof {
        assert(swapped_among(m0, keys@.subrange(0, 0)) =~= m0);
    }
    while i < keys.len()
        invariant
            0 <= i <= keys@.len(),
            storage.wf(),
            storage.spec_entity_count() == old(storage).spec_entity_count(),
            lists_each_once(keys@, m0.dom()),
            storage@ == swapped_among(m0, keys@.subrange(0, i as int)),
        decreases keys@.len() - i,
    {
        let key = keys[i];
        proof {
            assert(keys@.contains(key));
            assert(!keys@.subrange(0, i as int).contains(key)) by {
                if keys@.subrange(0, i as int).contains(key) {
                    let t = choose|t: int| 0 <= t < i && keys@.subrange(0, i as int)[t] == key;
                    assert(keys@[t] == keys@[i as int]);
                }
            }
        }
        if let Some(data) = storage.get_mut(&key) {
            if data.state == SubchunkRenderState::Rebuilding && data.pending_mesh.is_some() {
                if let Some(new_mesh) = data.pending_mesh.take() {
                    data.current_mesh = Some(new_mesh);
                }
                data.state = SubchunkRenderState::Ready;
            }
        }
        proof {
            let done = keys@.subrange(0, i + 1);
            assert forall|k: SubchunkKey| #[trigger] done.contains(k) <==> (keys@.subrange(0, i as int).contains(k) || k == key) by {
                if done.contains(k) {
                    let t = choose|t: int| 0 <= t < done.len() && done[t] == k;
                    if t < i {
                        assert(keys@.subrange(0, i as int)[t] == k);
                    }
                }
                if keys@.subrange(0, i as int).contains(k) {
                    let t = choose|t: int| 0 <= t < i && keys@.subrange(0, i as int)[t] == k;
                    assert(done[t] == k);
                }
                if k == key {
                    assert(done[i as int] == k);
                }
            }
            assert(storage@ =~= swapped_among(m0, done));
        }
        i = i + 1;
    }
    proof {
        assert(keys@.subrange(0, keys@.len() as int) =~= keys@);
        assert(storage@ =~= Map::new(|k: SubchunkKey| m0.contains_key(k), |k: SubchunkKey| swapped(m0[k])));
    }
}

/// The entities of the subchunks `keys` of `m` that have one, in order.
pub open spec fn entities_of<M, E>(m: Map<SubchunkKey, SubchunkRenderData<M, E>>, keys: Seq<SubchunkKey>) -> Seq<E>
    decreases keys.len(),
{
    if keys.len() == 0 {
        Seq::empty()
    } else {
        let before = entities_of(m, keys.drop_last());
        let k = keys.last();
        if m.contains_key(k) && m[k].entity is Some {
            before.push(m[k].entity.unwrap())
        } else {
            before
        }
    }
}

/// The subchunks of `m` that are being unloaded.
pub open spec fn unloading_keys<M, E>(m: Map<SubchunkKey, SubchunkRenderData<M, E>>) -> Set<SubchunkKey> {
    keys_where(m, |d: SubchunkRenderData<M, E>| d.state == SubchunkRenderState::Unloading)
}

/// The subchunks being unloaded are exactly the stored ones in the
/// unloading state; removing them leaves every other stored subchunk as
/// it was and no subchunk in the unloading state.
pub proof fn lemma_unloading_keys<M, E>(m: Map<SubchunkKey, SubchunkRenderData<M, E>>)
    ensures
        forall|k: SubchunkKey| #[trigger] unloading_keys(m).contains(k)
            <==> (m.contains_key(k) && m[k].state == SubchunkRenderState::Unloading),
        ({
            let after = m.remove_keys(unloading_keys(m));
            &&& forall|k: SubchunkKey| #[trigger] after.contains_key(k)
                <==> (m.contains_key(k) && m[k].state != SubchunkRenderState::Unloading)
            &&& forall|k: SubchunkKey| #[trigger] after.contains_key(k) ==> after[k] == m[k]
        }),
{
}

/// Drops every subchunk that is being unloaded and returns the entities
/// they had, for the renderer to despawn (in the order the subchunks were
/// dropped).
pub fn cleanup_mesh_entities<M, E>(storage: &mut MeshStorage<M, E>) -> (r: Vec<E>)
    requires
        old(storage).wf(),
    ensures
        final(storage).wf(),
        final(storage).spec_entity_count() == old(storage).spec_entity_count(),
        final(storage)@ == old(storage)@.remove_keys(unloading_keys(old(storage)@)),
        exists|keys: Seq<SubchunkKey>| lists_each_once(keys, unloading_keys(old(storage)@))
            && r@ == entities_of(old(storage)@, keys),
{
    let keys = storage.unloading_subchunks();
    let ghost m0 = storage@;
    let mut despawn: Vec<E> = Vec::new();
    let mut i: usize = 0;
    proof {
        assert(m0.remove_keys(keys@.subrange(0, 0).to_set()) =~= m0);
    }
    while i < keys.len()
        invariant
            0 <= i <= keys@.len(),
            storage.wf(),
            storage.spec_entity_count() == old(storage).spec_entity_count(),
            lists_each_once(keys@, unloading_keys(m0)),
            storage@ == m0.remove_keys(keys@.subrange(0, i as int).to_set()),
            despawn@ == entities_of(m0, keys@.subrange(0, i as int)),
        decreases keys@.len() - i,
    {
        let key = keys[i];
        proof {
            assert(keys@.contains(key));
            assert(!keys@.subrange(0, i as int).contains(key)) by {
                if keys@.subrange(0, i as int).contains(key) {
                    let t = choose|t: int| 0 <= t < i && keys@.subrange(0, i as int)[t] == key;
                    assert(keys@[t] == keys@[i as int]);
                }
            }
            assert(storage@.contains_key(key) == m0.contains_key(key));
        }
        if let Some(data) = storage.remove(&key) {
            if let Some(entity) = data.entity {
                despawn.push(entity);
            }
        }
        proof {
            let done = keys@.subrange(0, i + 1);
            assert(done.drop_last() =~= keys@.subrange(0, i as int));
            assert(done.to_set() =~= keys@.subrange(0, i as int).to_set().insert(key)) by {
                assert forall|k: SubchunkKey| #[trigger] done.contains(k) <==> (keys@.subrange(0, i as int).contains(k) || k == key) by {
                    if done.contains(k) {
                        let t = choose|t: int| 0 <= t < done.len() && done[t] == k;
                        if t < i {
                            assert(keys@.subrange(0, i as int)[t] == k);
                        }
                    }
                    if keys@.subrange(0, i as int).contains(k) {
                        let t = choose|t: int| 0 <= t < i && keys@.subrange(0, i as int)[t] == k;
                        assert(done[t] == k);
                    }
                    if k == key {
                        assert(done[i as int] == k);
                    }
                }
            }
            assert(storage@ =~= m0.remove_keys(done.to_set()));
            assert(despawn@ =~= entities_of(m0, done));
        }
        i = i + 1;
    }
    proof {
        assert(keys@.subrange(0, keys@.len() as int) =~= keys@);
        assert(keys@.to_set() =~= unloading_keys(m0));
    }
    despawn
}

/// Chunk coordinates, wrapped onto the torus, of window slot `slot`.
pub open spec fn window_slot_coords(manager: &ChunkManager, slot: int) -> (i64, i64) {
    (
        manager.topology.wrap_chunk_x(manager.window_min_x + slot % WINDOW_SIDE as int) as i64,
        manager.topology.wrap_chunk_z(manager.window_min_z + slot / WINDOW_SIDE as int) as i64,
    )
}

/// The first window slot that holds chunk `(chunk_x, chunk_z)`, if any.
pub fn find_chunk_slot(manager: &ChunkManager, chunk_x: i64, chunk_z: i64) -> (r: Option<usize>)
    requires
        manager.topology.valid(),
        manager.window_min_x <= i64::MAX - WINDOW_SIDE,
        manager.window_min_z <= i64::MAX - WINDOW_SIDE,
    ensures
        r matches Some(s) ==> {
            &&& s < WINDOW_CHUNK_COUNT
            &&& window_slot_coords(manager, s as int) == (chunk_x, chunk_z)
            &&& forall|t: int| 0 <= t < s ==> #[trigger] window_slot_coords(manager, t) != (chunk_x, chunk_z)
        },
        r is None ==> forall|t: int| 0 <= t < WINDOW_CHUNK_COUNT ==> #[trigger] window_slot_coords(manager, t) != (chunk_x, chunk_z),
{
    let slots = manager.active_window_slots();
    let mut slot: usize = slots.start;
    while slot < slots.end
        invariant
            slots.start == 0,
            slots.end == WINDOW_CHUNK_COUNT,
            0 <= slot <= WINDOW_CHUNK_COUNT,
            manager.topology.valid(),
            manager.window_min_x <= i64::MAX - WINDOW_SIDE,
            manager.window_min_z <= i64::MAX - WINDOW_SIDE,
            forall|t: int| 0 <= t < slot ==> #[trigger] window_slot_coords(manager, t) != (chunk_x, chunk_z),
        decreases WINDOW_CHUNK_COUNT - slot,
    {
        if let Some((cx, cz)) = manager.slot_to_chunk_coords(slot) {
            if cx == chunk_x && cz == chunk_z {
                return Some(slot);
            }
        }
        slot = slot + 1;
    }
    None
}

/// A subchunk that has just appeared has no entity, so a loaded chunk's
/// subchunks have the entities they had before the load.
proof fn lemma_entities_after_load<M, E>(m: Map<SubchunkKey, SubchunkRenderData<M, E>>, gx: i64, gz: i64, n: int)
    requires
        0 <= n <= SUBCHUNKS_PER_CHUNK,
    ensures
        entities_upto(loaded_upto(m, gx, gz, SUBCHUNKS_PER_CHUNK as int), gx, gz, n) == entities_upto(m, gx, gz, n),
    decreases n,
{
    if n > 0 {
        lemma_entities_after_load(m, gx, gz, n - 1);
        let k = key_of_subchunk(gx, gz, n - 1);
        assert(in_chunk_below(k, gx, gz, SUBCHUNKS_PER_CHUNK as int));
    }
}

/// Unloading a chunk right after loading it drops every subchunk of the
/// chunk, leaves every other subchunk as it was, and despawns the entities
/// the chunk's subchunks had before the load.
pub proof fn lemma_load_then_unload<M, E>(m: Map<SubchunkKey, SubchunkRenderData<M, E>>, load: MeshUpdateEvent, unload: MeshUpdateEvent)
    requires
        load.kind == MeshUpdateKind::ChunkLoaded || load.kind == MeshUpdateKind::ShadowChunkLoaded,
        unload.kind == MeshUpdateKind::ChunkUnloaded || unload.kind == MeshUpdateKind::ShadowChunkUnloaded,
        load.grid_x == unload.grid_x,
        load.grid_z == unload.grid_z,
    ensures
        ({
            let after = mesh_events_effect(m, seq![load, unload]);
            let chunk = Set::new(|k: SubchunkKey| in_chunk_below(k, load.grid_x, load.grid_z, SUBCHUNKS_PER_CHUNK as int));
            &&& after.0 == m.remove_keys(chunk)
            &&& after.1 == entities_upto(m, load.grid_x, load.grid_z, SUBCHUNKS_PER_CHUNK as int)
        }),
{
    let evs = seq![load, unload];
    let gx = load.grid_x;
    let gz = load.grid_z;
    let n = SUBCHUNKS_PER_CHUNK as int;
    assert(evs.drop_last() =~= seq![load]);
    assert(seq![load].drop_last() =~= Seq::<MeshUpdateEvent>::empty());
    let loaded = loaded_upto(m, gx, gz, n);
    reveal_with_fuel(mesh_events_effect, 3);
    assert(mesh_events_effect(m, seq![load]).0 == loaded);
    assert(mesh_events_effect(m, seq![load]).1 =~= Seq::<E>::empty());
    lemma_entities_after_load(m, gx, gz, n);
    let chunk = Set::new(|k: SubchunkKey| in_chunk_below(k, gx, gz, n));
    assert(unloaded_upto(loaded, gx, gz, n) =~= m.remove_keys(chunk));
    assert(Seq::<E>::empty() + entities_upto(loaded, gx, gz, n) =~= entities_upto(m, gx, gz, n));
}

/// In a torus at least as large as the window, the chunk that a window
/// slot holds lies at that slot's offset from the window corner, so the
/// window slot found for it is that slot.
pub proof fn lemma_window_slot_roundtrip(manager: &ChunkManager, slot: int)
    requires
        manager.topology.valid(),
        manager.topology.chunks_x >= WINDOW_SIDE,
        manager.topology.chunks_z >= WINDOW_SIDE,
        0 <= slot < WINDOW_CHUNK_COUNT,
    ensures
        ({
            let (cx, cz) = window_slot_coords(manager, slot);
            let t = manager.topology;
            &&& t.wrap_chunk_x(cx - manager.window_min_x) == slot % WINDOW_SIDE as int
            &&& t.wrap_chunk_z(cz - manager.window_min_z) == slot / WINDOW_SIDE as int
            &&& t.wrap_chunk_z(cz - manager.window_min_z) * WINDOW_SIDE + t.wrap_chunk_x(cx - manager.window_min_x) == slot
        }),
{
    let t = manager.topology;
    let nx = t.chunks_x as int;
    let nz = t.chunks_z as int;
    let dx = slot % WINDOW_SIDE as int;
    let dz = slot / WINDOW_SIDE as int;
    let ax = manager.window_min_x + dx;
    let az = manager.window_min_z + dz;
    lemma_fundamental_div_mod(ax, nx);
    lemma_fundamental_div_mod(az, nz);
    let (cx, cz) = window_slot_coords(manager, slot);
    assert(cx == ax % nx);
    assert(cz == az % nz);
    let qx = ax / nx;
    let qz = az / nz;
    assert(nx * (-qx) == -(nx * qx)) by (nonlinear_arith);
    assert(nz * (-qz) == -(nz * qz)) by (nonlinear_arith);
    assert(cx - manager.window_min_x == nx * (-(ax / nx)) + dx);
    assert(cz - manager.window_min_z == nz * (-(az / nz)) + dz);
    lemma_mod_multiples_vanish(-(ax / nx), dx, nx);
    lemma_mod_multiples_vanish(-(az / nz), dz, nz);
    lemma_small_mod(dx as nat, nx as nat);
    lemma_small_mod(dz as nat, nz as nat);
}

} // verus!
