use torxel::queues::mesh_queue::{MeshUpdateEvent, MeshUpdateKind, MeshUpdateQueue, RenderSource};
use torxel::render::camera::{rotate_left_index, rotate_right_index, zoom_in_index, zoom_out_index};
use torxel::render::mesh_builder::{
    face_neighbor_offset, is_face_visible, neighbour_readable, subchunk_faces_readable, subchunk_origin,
    subchunk_visible_faces, VisibleFace,
};
use torxel::render::mesh_storage::{MeshStorage, SubchunkFilter, SubchunkKey, SubchunkRenderData, SubchunkRenderState};
use torxel::render::render_systems::{
    cleanup_mesh_entities, find_chunk_slot, install_built_mesh, process_mesh_events, swap_meshes,
};
use torxel::voxel::format::{subchunk_index, Cell, WINDOW_CHUNK_COUNT};
use torxel::voxel::materials::ids::{STONE, WATER};
use torxel::{ChunkManager, ChunkPool, TorusTopology};

type Storage = MeshStorage<u32, u64>;

fn key(chunk_x: i64, chunk_z: i64, subchunk_index: usize) -> SubchunkKey {
    SubchunkKey { chunk_x, chunk_z, subchunk_index }
}

fn event(kind: MeshUpdateKind, grid_x: i64, grid_z: i64, dirty_subchunks: u64) -> MeshUpdateEvent {
    MeshUpdateEvent { kind, source: RenderSource::Active, slot_index: 0, grid_x, grid_z, dirty_subchunks }
}

fn data_in(state: SubchunkRenderState, entity: Option<u64>) -> SubchunkRenderData<u32, u64> {
    let mut d = SubchunkRenderData::new(0, 0, 0);
    d.state = state;
    d.entity = entity;
    d
}

#[test]
fn storage_entity_count_starts_at_zero_and_is_kept() {
    let mut s = Storage::new();
    assert_eq!(s.entity_count(), 0);
    assert_eq!(Storage::default().entity_count(), 0);
    s.set_entity_count(3);
    s.insert(key(1, 2, 3), SubchunkRenderData::new(1, 2, 3));
    s.remove(&key(1, 2, 3));
    assert_eq!(s.entity_count(), 3);
}

#[test]
fn storage_insert_get_remove() {
    let mut s = Storage::new();
    assert!(s.is_empty());
    s.insert(key(1, 2, 3), SubchunkRenderData::new(1, 2, 3));
    assert_eq!(s.len(), 1);
    assert!(s.contains(&key(1, 2, 3)));
    assert!(!s.contains(&key(1, 2, 0)));
    assert_eq!(s.get(&key(1, 2, 3)).unwrap().state, SubchunkRenderState::Empty);
    s.get_mut(&key(1, 2, 3)).unwrap().state = SubchunkRenderState::Ready;
    assert_eq!(s.get(&key(1, 2, 3)).unwrap().state, SubchunkRenderState::Ready);
    s.insert(key(1, 2, 3), data_in(SubchunkRenderState::Dirty, None));
    assert_eq!(s.len(), 1);
    assert_eq!(s.get(&key(1, 2, 3)).unwrap().state, SubchunkRenderState::Dirty);
    let removed = s.remove(&key(1, 2, 3)).unwrap();
    assert_eq!(removed.state, SubchunkRenderState::Dirty);
    assert!(s.remove(&key(1, 2, 3)).is_none());
    assert!(s.get(&key(1, 2, 3)).is_none());
    assert!(s.get_mut(&key(1, 2, 3)).is_none());
    assert!(s.is_empty());
}

#[test]
fn storage_lists_keys_by_state() {
    let mut s = Storage::default();
    s.insert(key(0, 0, 0), data_in(SubchunkRenderState::Ready, Some(1)));
    s.insert(key(0, 0, 1), data_in(SubchunkRenderState::Dirty, None));
    s.insert(key(0, 0, 2), data_in(SubchunkRenderState::Building, None));
    s.insert(key(0, 0, 3), data_in(SubchunkRenderState::Rebuilding, Some(2)));
    s.insert(key(1, 0, 0), data_in(SubchunkRenderState::Empty, None));
    s.insert(key(1, 0, 1), data_in(SubchunkRenderState::Unloading, None));
    assert_eq!(s.ready_subchunks(), vec![key(0, 0, 0)]);
    assert_eq!(s.dirty_subchunks(), vec![key(0, 0, 1)]);
    let mut pending = s.pending_subchunks();
    pending.sort_by_key(|k| k.subchunk_index);
    assert_eq!(pending, vec![key(0, 0, 2), key(0, 0, 3)]);
    let mut to_build = s.subchunks_to_build();
    to_build.sort_by_key(|k| (k.chunk_x, k.subchunk_index));
    assert_eq!(to_build, vec![key(0, 0, 1), key(1, 0, 0)]);
    assert_eq!(s.unloading_subchunks(), vec![key(1, 0, 1)]);
    assert_eq!(s.keys().len(), 6);
    assert_eq!(s.count_selected(SubchunkFilter::WithEntity), 2);
    assert_eq!(s.count_selected(SubchunkFilter::InState(SubchunkRenderState::Ready)), 1);
    assert_eq!(s.count_selected(SubchunkFilter::WithMesh), 0);
    assert_eq!(s.count_selected(SubchunkFilter::BottomWithoutMesh), 6);
}

#[test]
fn loaded_chunk_gets_fresh_subchunks() {
    let mut s = Storage::new();
    s.insert(key(3, 4, 1), data_in(SubchunkRenderState::Ready, Some(77)));
    let mut q = MeshUpdateQueue::default();
    q.push(event(MeshUpdateKind::ChunkLoaded, 3, 4, 0xF));
    let despawn = process_mesh_events(&mut q, &mut s);
    assert!(despawn.is_empty());
    assert!(q.is_empty());
    assert_eq!(s.len(), 4);
    assert_eq!(s.get(&key(3, 4, 1)).unwrap().entity, Some(77));
    let fresh = s.get(&key(3, 4, 2)).unwrap();
    assert_eq!(fresh.state, SubchunkRenderState::Empty);
    assert_eq!((fresh.chunk_x, fresh.chunk_z, fresh.subchunk_index), (3, 4, 2));
    assert!(fresh.entity.is_none() && fresh.current_mesh.is_none());
}

#[test]
fn dirty_chunk_marks_only_ready_subchunks() {
    let mut s = Storage::new();
    s.insert(key(0, 0, 0), data_in(SubchunkRenderState::Ready, None));
    s.insert(key(0, 0, 1), data_in(SubchunkRenderState::Ready, None));
    s.insert(key(0, 0, 2), data_in(SubchunkRenderState::Building, None));
    let mut q = MeshUpdateQueue::default();
    q.push(event(MeshUpdateKind::ChunkDirty, 0, 0, 0b0101));
    process_mesh_events(&mut q, &mut s);
    assert_eq!(s.get(&key(0, 0, 0)).unwrap().state, SubchunkRenderState::Dirty);
    assert_eq!(s.get(&key(0, 0, 1)).unwrap().state, SubchunkRenderState::Ready);
    assert_eq!(s.get(&key(0, 0, 2)).unwrap().state, SubchunkRenderState::Building);
    assert!(!s.contains(&key(0, 0, 3)));
}

#[test]
fn load_then_unload_drops_the_chunk() {
    let mut s = Storage::new();
    s.insert(key(5, 5, 0), data_in(SubchunkRenderState::Ready, Some(10)));
    s.insert(key(5, 5, 3), data_in(SubchunkRenderState::Ready, Some(13)));
    s.insert(key(6, 5, 0), data_in(SubchunkRenderState::Ready, Some(20)));
    let mut q = MeshUpdateQueue::default();
    q.push(event(MeshUpdateKind::ShadowChunkLoaded, 5, 5, 0));
    q.push(event(MeshUpdateKind::ChunkUnloaded, 5, 5, 0));
    let despawn = process_mesh_events(&mut q, &mut s);
    assert_eq!(despawn, vec![10, 13]);
    assert_eq!(s.len(), 1);
    assert!(s.contains(&key(6, 5, 0)));
}

#[test]
fn built_meshes_are_installed_then_swapped() {
    let mut s = Storage::new();
    s.insert(key(0, 0, 0), data_in(SubchunkRenderState::Empty, None));
    s.insert(key(0, 0, 1), data_in(SubchunkRenderState::Dirty, None));
    s.insert(key(0, 0, 2), data_in(SubchunkRenderState::Building, None));
    install_built_mesh(&mut s, &key(0, 0, 0), 100);
    install_built_mesh(&mut s, &key(0, 0, 1), 101);
    install_built_mesh(&mut s, &key(0, 0, 2), 102);
    install_built_mesh(&mut s, &key(9, 9, 9), 103);
    let d0 = s.get(&key(0, 0, 0)).unwrap();
    assert_eq!((d0.state, d0.current_mesh, d0.pending_mesh), (SubchunkRenderState::Ready, Some(100), None));
    let d1 = s.get(&key(0, 0, 1)).unwrap();
    assert_eq!((d1.state, d1.current_mesh, d1.pending_mesh), (SubchunkRenderState::Rebuilding, None, Some(101)));
    let d2 = s.get(&key(0, 0, 2)).unwrap();
    assert_eq!((d2.state, d2.current_mesh), (SubchunkRenderState::Building, None));
    assert_eq!(s.len(), 3);

    swap_meshes(&mut s);
    let d1 = s.get(&key(0, 0, 1)).unwrap();
    assert_eq!((d1.state, d1.current_mesh, d1.pending_mesh), (SubchunkRenderState::Ready, Some(101), None));
    assert_eq!(s.get(&key(0, 0, 0)).unwrap().current_mesh, Some(100));
    assert_eq!(s.get(&key(0, 0, 2)).unwrap().state, SubchunkRenderState::Building);
}

#[test]
fn cleanup_drops_unloading_subchunks() {
    let mut s = Storage::new();
    s.insert(key(0, 0, 0), data_in(SubchunkRenderState::Unloading, Some(5)));
    s.insert(key(0, 0, 1), data_in(SubchunkRenderState::Unloading, None));
    s.insert(key(0, 0, 2), data_in(SubchunkRenderState::Ready, Some(6)));
    let despawn = cleanup_mesh_entities(&mut s);
    assert_eq!(despawn, vec![5]);
    assert_eq!(s.keys(), vec![key(0, 0, 2)]);
}

#[test]
fn chunk_slots_are_found_in_the_window() {
    let mut mgr = ChunkManager::new(TorusTopology::new(50, 60));
    mgr.set_window_center(8, 8);
    assert_eq!(find_chunk_slot(&mgr, 0, 0), Some(0));
    assert_eq!(find_chunk_slot(&mgr, 3, 2), Some(2 * 16 + 3));
    assert_eq!(find_chunk_slot(&mgr, 30, 0), None);
    assert_eq!(find_chunk_slot(&mgr, -1, 0), None);
}

#[test]
fn camera_steps() {
    assert_eq!(rotate_right_index(0), 1);
    assert_eq!(rotate_right_index(3), 0);
    assert_eq!(rotate_left_index(0), 3);
    assert_eq!(rotate_left_index(2), 1);
    for y in 0..4 {
        assert_eq!(rotate_left_index(rotate_right_index(y)), y);
    }
    assert_eq!(zoom_in_index(0), 1);
    assert_eq!(zoom_in_index(2), 2);
    assert_eq!(zoom_out_index(2), 1);
    assert_eq!(zoom_out_index(0), 0);
    assert_eq!(zoom_out_index(zoom_in_index(1)), 1);
}

#[test]
fn subchunk_geometry() {
    assert_eq!(subchunk_origin(0), (0, 0, 0));
    assert_eq!(subchunk_origin(1), (0, 16, 0));
    assert_eq!(subchunk_origin(3), (0, 48, 0));
    assert_eq!(face_neighbor_offset(0), (0, 1, 0));
    assert_eq!(face_neighbor_offset(3), (-1, 0, 0));
    assert_eq!(face_neighbor_offset(5), (0, 0, -1));
}

fn world() -> (ChunkManager, ChunkPool) {
    let mut mgr = ChunkManager::new(TorusTopology::new(50, 60));
    mgr.set_window_center(8, 8);
    let pool = ChunkPool::new(WINDOW_CHUNK_COUNT);
    (mgr, pool)
}

fn put(pool: &mut ChunkPool, slot: usize, x: usize, y: usize, z: usize, material_id: u16) {
    let mut c = Cell::zeroed();
    c.material_id = material_id;
    *pool.get_mut(slot, (z * 16 + x) * 64 + y) = c;
}

#[test]
fn lone_block_shows_every_face() {
    let (mgr, mut pool) = world();
    put(&mut pool, 0, 5, 20, 5, STONE);
    let faces = subchunk_visible_faces(1, &pool, 0, 0, 0, &mgr);
    assert_eq!(faces.len(), 6);
    for (i, f) in faces.iter().enumerate() {
        assert_eq!(*f, VisibleFace { local_x: 5, local_y: 20, local_z: 5, face: i, material_id: STONE });
    }
    assert!(subchunk_visible_faces(0, &pool, 0, 0, 0, &mgr).is_empty());
}

#[test]
fn hidden_faces() {
    let (mgr, mut pool) = world();
    // on the floor: the face below the world is hidden
    put(&mut pool, 0, 5, 0, 5, STONE);
    let faces = subchunk_visible_faces(0, &pool, 0, 0, 0, &mgr);
    assert_eq!(faces.iter().map(|f| f.face).collect::<Vec<_>>(), vec![0, 2, 3, 4, 5]);
    // two stacked blocks hide the faces between them
    put(&mut pool, 0, 5, 1, 5, STONE);
    let faces = subchunk_visible_faces(0, &pool, 0, 0, 0, &mgr);
    assert_eq!(faces.len(), 4 + 5);
    // water lets the face through
    put(&mut pool, 0, 5, 1, 5, WATER);
    let faces = subchunk_visible_faces(0, &pool, 0, 0, 0, &mgr);
    assert!(faces.contains(&VisibleFace { local_x: 5, local_y: 0, local_z: 5, face: 0, material_id: STONE }));
}

#[test]
fn faces_across_chunk_borders() {
    let (mgr, mut pool) = world();
    // chunk (-1, 0) is not in the window: the -x face of a border block is hidden
    put(&mut pool, 0, 0, 20, 5, STONE);
    let faces = subchunk_visible_faces(1, &pool, 0, 0, 0, &mgr);
    assert_eq!(faces.iter().map(|f| f.face).collect::<Vec<_>>(), vec![0, 1, 2, 4, 5]);
    // chunk (1, 0) is window slot 1: a solid neighbour there hides the +x face
    put(&mut pool, 0, 15, 20, 5, STONE);
    assert!(is_face_visible(16, 20, 5, &pool, 0, 0, 0, &mgr));
    put(&mut pool, 1, 0, 20, 5, STONE);
    assert!(!is_face_visible(16, 20, 5, &pool, 0, 0, 0, &mgr));
    assert!(is_face_visible(15, 64, 5, &pool, 0, 0, 0, &mgr));
    assert!(!is_face_visible(15, -1, 5, &pool, 0, 0, 0, &mgr));
}

#[test]
fn one_slot_pool_meshes_a_block_at_the_corner() {
    let mgr = ChunkManager::new(TorusTopology::new(50, 60));
    let mut pool = ChunkPool::new(1);
    put(&mut pool, 0, 0, 0, 0, STONE);
    // the -x and -z neighbours are chunks (49, 0) and (0, 59), outside the window
    assert!(subchunk_faces_readable(0, &pool, 0, 0, 0, &mgr));
    let faces = subchunk_visible_faces(0, &pool, 0, 0, 0, &mgr);
    assert_eq!(faces.iter().map(|f| f.face).collect::<Vec<_>>(), vec![0, 2, 4]);
}

#[test]
fn neighbours_in_window_slots_outside_the_pool_cannot_be_read() {
    let mgr = ChunkManager::new(TorusTopology::new(50, 60));
    let mut pool = ChunkPool::new(1);
    // same chunk, above and below the world: always readable
    assert!(neighbour_readable(3, 5, 3, &pool, 0, 0, &mgr));
    assert!(neighbour_readable(15, 64, 3, &pool, 0, 0, &mgr));
    assert!(neighbour_readable(15, -1, 3, &pool, 0, 0, &mgr));
    // chunk (1, 0) is window slot 1, which a one-slot pool does not hold
    assert!(!neighbour_readable(16, 5, 3, &pool, 0, 0, &mgr));
    // chunk (-1, 0) wraps to 49, outside the window
    assert!(neighbour_readable(-1, 5, 3, &pool, 0, 0, &mgr));
    // a block on the +x border of chunk (0, 0) needs that slot
    put(&mut pool, 0, 15, 5, 3, STONE);
    assert!(!subchunk_faces_readable(0, &pool, 0, 0, 0, &mgr));
    // at the end of i64 there is no next chunk
    assert!(!neighbour_readable(16, 5, 3, &pool, i64::MAX, 0, &mgr));
    assert!(neighbour_readable(3, 5, 3, &pool, i64::MAX, 0, &mgr));
    // a full-window pool reads every neighbour
    let big = ChunkPool::new(WINDOW_CHUNK_COUNT);
    assert!(neighbour_readable(16, 5, 3, &big, 0, 0, &mgr));
}

#[test]
fn subchunk_walk_stays_in_its_subchunk() {
    for i in 0..4 {
        let (x, y, z) = subchunk_origin(i);
        assert_eq!(subchunk_index(x, y, z), i);
        assert_eq!(subchunk_index(x + 15, y + 15, z + 15), i);
    }
}
