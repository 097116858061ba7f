use torxel::manager::masks::{DirtyMask, ShadowMask};
use torxel::manager::{ChunkManager, ShadowCopyManager, ShadowCopyState, ShadowCopyValidation, SlotMetadata, SlotState};
use torxel::voxel::format::{Cell, CELLS_PER_CHUNK, WINDOW_CHUNK_COUNT};
use torxel::voxel::materials::ids::{DIRT, STONE};
use torxel::voxel::pool::ChunkPool;
use torxel::{ShadowPool, TorusTopology};

fn cell_of(material_id: u16) -> Cell {
    let mut c = Cell::zeroed();
    c.material_id = material_id;
    c
}

#[test]
fn dirty_mask_set_and_clear() {
    let mut m = DirtyMask::new();
    assert!(!m.is_set(5));
    m.set(5);
    m.set(4095);
    m.set(64);
    assert!(m.is_set(5));
    assert!(m.is_set(64));
    assert!(m.is_set(4095));
    assert!(!m.is_set(6));
    assert_eq!(m.iter_set(), vec![5, 64, 4095]);
    m.clear(64);
    assert!(!m.is_set(64));
    assert_eq!(m.iter_set(), vec![5, 4095]);
    m.clear_all();
    assert!(m.iter_set().is_empty());
}

#[test]
fn dirty_mask_lists_only_slots_below_the_mask_size() {
    let mut m = DirtyMask::new();
    for i in (0..4096).step_by(7) {
        m.set(i);
    }
    m.set(4095);
    let v = m.iter_set();
    assert!(v.iter().all(|&i| i < 4096));
    assert!(v.windows(2).all(|w| w[0] < w[1]));
    assert_eq!(v.len(), 586);
    assert_eq!(v.last(), Some(&4095));
}

#[test]
fn shadow_mask_set_and_clear() {
    let mut m = ShadowMask::new();
    m.set(0);
    m.set(63);
    m.set(128);
    m.set(0);
    assert_eq!(m.iter_set(), vec![0, 63, 128]);
    m.clear(0);
    assert!(!m.is_set(0));
    assert!(m.is_set(63));
    m.clear_all();
    assert!(!m.is_set(63));
    assert_eq!(m.iter_set(), Vec::<usize>::new());
}

#[test]
fn slot_state_codes_roundtrip() {
    let states = [
        SlotState::Empty,
        SlotState::Queued,
        SlotState::Loading,
        SlotState::Ready,
        SlotState::AwaitingSave,
        SlotState::Saving,
        SlotState::Failed,
    ];
    for (i, s) in states.iter().enumerate() {
        assert_eq!(s.to_u8() as usize, i);
        let mut m = SlotMetadata::new();
        m.set_state(*s);
        assert_eq!(m.get_state(), *s);
        assert_eq!(m.state as usize, i);
    }
}

#[test]
fn fresh_metadata() {
    let m = SlotMetadata::new();
    assert_eq!(m.get_state(), SlotState::Empty);
    assert!(!m.is_active());
    assert!(!m.is_shadow());
    assert!(!m.is_render_notified());
    assert_eq!(m.get_unload_timer(), 0);
    assert_eq!(m.get_dirty_subchunks(), 0);
    assert_eq!((m.min_solid_y, m.max_solid_y), (64, 0));
    assert_eq!((m.min_liquid_y, m.max_liquid_y), (64, 0));
}

#[test]
fn metadata_flags_and_timer() {
    let mut m = SlotMetadata::new();
    m.set_active(true);
    m.set_shadow(true);
    m.set_render_notified(true);
    assert!(m.is_active() && m.is_shadow() && m.is_render_notified());
    m.set_unload_timer(2);
    m.decrement_unload_timer();
    assert_eq!(m.get_unload_timer(), 1);
    m.decrement_unload_timer();
    m.decrement_unload_timer();
    assert_eq!(m.get_unload_timer(), 0);
}

#[test]
fn metadata_dirty_subchunks() {
    let mut m = SlotMetadata::new();
    m.mark_subchunk_dirty(0);
    m.mark_subchunk_dirty(3);
    m.mark_subchunk_dirty(3);
    assert_eq!(m.get_dirty_subchunks(), 0b1001);
    assert_eq!(m.take_dirty_subchunks(), 0b1001);
    assert_eq!(m.get_dirty_subchunks(), 0);
    m.mark_subchunk_dirty(1);
    m.clear_dirty_subchunks();
    assert_eq!(m.get_dirty_subchunks(), 0);
}

#[test]
fn manager_window_bounds() {
    let mut mgr = ChunkManager::new(TorusTopology::new(50, 60));
    assert_eq!(mgr.metadata.len(), 1024);
    mgr.set_window_center(10, 20);
    assert_eq!((mgr.window_min_x, mgr.window_min_z), (2, 12));
    assert_eq!((mgr.window_max_x, mgr.window_max_z), (18, 28));
    assert!(mgr.is_in_window(2, 12));
    assert!(mgr.is_in_window(17, 27));
    // the window is 16 chunks wide: the bound at +8 from the centre is outside
    assert!(!mgr.is_in_window(18, 28));
    assert!(!mgr.is_in_window(19, 20));
    assert!(!mgr.is_in_window(1, 20));
    // the window wraps around the torus
    mgr.set_window_center(0, 0);
    assert!(mgr.is_in_window(42, 52));
    assert!(mgr.is_in_window(0, 0));
    assert!(mgr.is_in_window(49, 59));
    assert!(!mgr.is_in_window(20, 0));
    assert!(!mgr.is_in_window(41, 0));
    assert_eq!(mgr.active_window_slots(), 0..WINDOW_CHUNK_COUNT);
}

#[test]
fn manager_slot_for_chunk_and_back() {
    let mut mgr = ChunkManager::new(TorusTopology::new(50, 60));
    mgr.set_window_center(0, 0);
    // window corner is (-8, -8), i.e. (42, 52) on the torus
    assert_eq!(mgr.slot_for_chunk(42, 52), Some(0));
    assert_eq!(mgr.slot_for_chunk(0, 0), Some(8 * 16 + 8));
    assert_eq!(mgr.slot_for_chunk(20, 0), None);
    for slot in [0usize, 1, 17, 136, 255] {
        let (cx, cz) = mgr.slot_to_chunk_coords(slot).unwrap();
        assert_eq!(mgr.slot_for_chunk(cx as usize, cz as usize), Some(slot));
    }
    assert_eq!(mgr.slot_to_chunk_coords(256), None);
}

#[test]
fn manager_slot_flags() {
    let mut mgr = ChunkManager::new(TorusTopology::new(50, 60));
    assert_eq!(mgr.get_slot_state(3), SlotState::Empty);
    mgr.set_slot_state(3, SlotState::Saving);
    assert_eq!(mgr.get_slot_state(3), SlotState::Saving);
    assert!(mgr.has_saving_slots());
    mgr.set_slot_state(3, SlotState::Ready);
    assert!(!mgr.has_saving_slots());
    mgr.set_pending_b_dirty(7, true);
    assert!(mgr.is_pending_b_dirty(7));
    assert!(!mgr.is_pending_b_dirty(8));
    mgr.set_file_dirty(7, true);
    assert!(mgr.is_file_dirty(7));
    mgr.set_file_dirty(7, false);
    assert!(!mgr.is_file_dirty(7));
}

#[test]
fn write_then_read_a_block() {
    let mut mgr = ChunkManager::new(TorusTopology::new(50, 60));
    mgr.set_window_center(8, 8);
    let mut write_world = ChunkPool::new(WINDOW_CHUNK_COUNT);
    // block (5, 10, 7) lies in chunk (0, 0), window slot 0
    assert!(!mgr.write_cell(&mut write_world, 5, 10, 7, cell_of(STONE)));
    assert_eq!(mgr.read_cell(&write_world, 5, 10, 7), None);
    mgr.set_slot_state(0, SlotState::Ready);
    assert!(mgr.write_cell(&mut write_world, 5, 10, 7, cell_of(STONE)));
    assert_eq!(mgr.read_cell(&write_world, 5, 10, 7).map(|c| c.material_id), Some(STONE));
    assert_eq!(write_world.get(0, (7 * 16 + 5) * 64 + 10).material_id, STONE);
    // out of height
    assert!(!mgr.write_cell(&mut write_world, 5, 64, 7, cell_of(DIRT)));
    assert_eq!(mgr.read_cell(&write_world, 5, -1, 7), None);
    // the write marks the slot for the pool swap
    assert!(mgr.is_pending_b_dirty(0));
}

#[test]
fn write_outside_window_is_refused() {
    let mut mgr = ChunkManager::new(TorusTopology::new(50, 60));
    mgr.set_window_center(8, 8);
    for s in 0..WINDOW_CHUNK_COUNT {
        mgr.set_slot_state(s, SlotState::Ready);
    }
    let mut write_world = ChunkPool::new(WINDOW_CHUNK_COUNT);
    assert!(!mgr.write_cell(&mut write_world, 16 * 20, 0, 0, cell_of(STONE)));
    assert_eq!(mgr.read_cell(&write_world, 16 * 20, 0, 0), None);
}

#[test]
fn shadow_copy_request_and_reset() {
    let mut m = ShadowCopyManager::new();
    assert_eq!(m.state, ShadowCopyState::Idle);
    assert!(!m.has_pending_request());
    m.request_copy(100, -50);
    assert_eq!(m.state, ShadowCopyState::Validating);
    assert_eq!((m.target_min_x, m.target_min_z), (92, -58));
    assert_eq!((m.target_max_x, m.target_max_z), (108, -42));
    assert!(m.has_pending_request());
    m.request_copy(0, 0);
    assert_eq!(m.target_center_x, 100);
    m.reset();
    assert_eq!(m.state, ShadowCopyState::Idle);
    assert_eq!(m.target_center_x, 100);
}

#[test]
fn shadow_copy_of_an_empty_pool() {
    let pool = ShadowPool::new(TorusTopology::new(50, 60));
    let mut m = ShadowCopyManager::new();
    m.request_copy(20, 20);
    assert_eq!(m.validate(&pool), ShadowCopyValidation::Missing);
    assert_eq!(m.pending_count, 256);
    let mut active = vec![Cell::zeroed(); WINDOW_CHUNK_COUNT * CELLS_PER_CHUNK];
    assert!(!m.execute_copy(&pool, &mut active));
}
