use torxel::io::channels::{LoadResponse, SaveResponse};
use torxel::io::staging::ActiveStagingBuffer;
use torxel::queues::cell_events::{CellEvent, CellEventKind, CellEventQueue};
use torxel::queues::mesh_queue::{MeshUpdateEvent, MeshUpdateKind, MeshUpdateQueue, RenderSource};
use torxel::queues::PostSwapDirtyBuffer;
use torxel::systems::apply_events::apply_cell_events;
use torxel::systems::debug::{
    chunk_material_counts, in_chunk_face_visible, ready_window_content, window_neighbour, window_slot_state_counts,
    MISSING_NEIGHBOUR,
};
use torxel::systems::dispatch_dirty::dispatch_dirty_events;
use torxel::systems::dispatch_loaded::dispatch_loaded_events;
use torxel::systems::gc::collect_garbage;
use torxel::systems::initial_copy::{initial_copy, InitialCopyDone};
use torxel::systems::poll_tasks::{apply_active_staged, handle_load_response, handle_save_response};
use torxel::systems::request_swap::request_swap;
use torxel::systems::swap::{post_swap_copy, swap_pointers};
use torxel::systems::update_window::{initialize_window, update_window, WindowInitialized};
use torxel::voxel::format::{Cell, CELLS_PER_CHUNK, POOL_CHUNK_COUNT, WINDOW_CHUNK_COUNT};
use torxel::voxel::materials::ids::{DIRT, STONE};
use torxel::{
    ChunkManager, ChunkPool, ComputePhase, ComputePipeline, SlotState, SwapSignal, TorusTopology, WorldHeader,
};

fn cell_of(material_id: u16) -> Cell {
    let mut c = Cell::zeroed();
    c.material_id = material_id;
    c
}

fn manager() -> ChunkManager {
    ChunkManager::new(TorusTopology::new(50, 60))
}

fn event(kind: MeshUpdateKind, slot: usize) -> MeshUpdateEvent {
    MeshUpdateEvent {
        kind,
        source: RenderSource::Active,
        slot_index: slot,
        grid_x: slot as i64,
        grid_z: 0,
        dirty_subchunks: 1,
    }
}

#[test]
fn signals_and_phases() {
    let mut s = SwapSignal::default();
    assert!(!s.requested);
    s.request();
    assert!(s.requested);
    s.reset();
    assert!(!s.requested);
    let p = ComputePipeline::default();
    assert!(p.phase.is_computing());
    assert!(ComputePhase::AwaitingSwap.is_awaiting_swap());
    assert!(ComputePhase::AwaitingPostSwap.is_awaiting_post_swap());
    assert!(!ComputePhase::Computing.is_awaiting_swap());
}

#[test]
fn queues_keep_order() {
    let mut q = MeshUpdateQueue::default();
    assert!(q.is_empty());
    q.push(event(MeshUpdateKind::ChunkLoaded, 1));
    q.push(event(MeshUpdateKind::ChunkDirty, 2));
    assert!(!q.is_empty());
    let items = q.iter();
    assert_eq!(items.len(), 2);
    assert_eq!(items[0].slot_index, 1);
    assert_eq!(items[1].kind, MeshUpdateKind::ChunkDirty);
    q.clear();
    assert!(q.is_empty());

    let mut cells = CellEventQueue::default();
    cells.push(CellEvent { kind: CellEventKind::SetCell, slot_index: 0, cell_index: 1, cell: cell_of(STONE) });
    cells.push(CellEvent { kind: CellEventKind::LiquidTransfer, slot_index: 0, cell_index: 2, cell: cell_of(DIRT) });
    assert!(!cells.is_empty());
    let drained = cells.drain();
    assert_eq!(drained.len(), 2);
    assert_eq!(drained[1].cell.material_id, DIRT);
    assert!(cells.is_empty());
    cells.push(CellEvent { kind: CellEventKind::GasTransfer, slot_index: 0, cell_index: 1, cell: Cell::zeroed() });
    cells.clear();
    assert!(cells.is_empty());
}

#[test]
fn cell_events_are_written_in_order() {
    let mut pool = ChunkPool::new(2);
    let mut q = CellEventQueue::default();
    q.push(CellEvent { kind: CellEventKind::SetCell, slot_index: 1, cell_index: 10, cell: cell_of(STONE) });
    q.push(CellEvent { kind: CellEventKind::PhaseTransition, slot_index: 1, cell_index: 10, cell: cell_of(DIRT) });
    q.push(CellEvent { kind: CellEventKind::SetCell, slot_index: 0, cell_index: 3, cell: cell_of(STONE) });
    apply_cell_events(&mut pool, &mut q);
    assert!(q.is_empty());
    assert_eq!(pool.get(1, 10).material_id, DIRT);
    assert_eq!(pool.get(0, 3).material_id, STONE);
}

#[test]
fn dirty_updates_move_to_the_mesh_queue() {
    let mut buffer = PostSwapDirtyBuffer::default();
    let mut q = MeshUpdateQueue::default();
    q.push(event(MeshUpdateKind::ChunkLoaded, 0));
    buffer.push(event(MeshUpdateKind::ChunkDirty, 5));
    buffer.push(event(MeshUpdateKind::ChunkDirty, 6));
    dispatch_dirty_events(&mut buffer, &mut q);
    assert!(buffer.is_empty());
    let items = q.iter();
    assert_eq!(items.iter().map(|e| e.slot_index).collect::<Vec<_>>(), vec![0, 5, 6]);
}

#[test]
fn swap_is_requested_only_while_computing_with_changes() {
    let mut mgr = manager();
    let mut signal = SwapSignal::default();
    let mut pipeline = ComputePipeline::default();
    request_swap(&mut signal, &pipeline, &mgr);
    assert!(!signal.requested);
    mgr.set_pending_b_dirty(9, true);
    pipeline.phase = ComputePhase::AwaitingSwap;
    request_swap(&mut signal, &pipeline, &mgr);
    assert!(!signal.requested);
    pipeline.phase = ComputePhase::Computing;
    request_swap(&mut signal, &pipeline, &mgr);
    assert!(signal.requested);
}

#[test]
fn swap_exchanges_the_pools_unless_saving() {
    let mut mgr = manager();
    let mut read = ChunkPool::new(1);
    let mut write = ChunkPool::new(1);
    *write.get_mut(0, 0) = cell_of(STONE);
    let mut signal = SwapSignal::default();
    let mut pipeline = ComputePipeline::default();

    swap_pointers(&mut read, &mut write, &mut signal, &mut pipeline, &mgr);
    assert_eq!(read.get(0, 0).material_id, 0);

    signal.request();
    mgr.set_slot_state(4, SlotState::Saving);
    swap_pointers(&mut read, &mut write, &mut signal, &mut pipeline, &mgr);
    assert_eq!(pipeline.phase, ComputePhase::AwaitingSwap);
    assert!(signal.requested);
    assert_eq!(read.get(0, 0).material_id, 0);

    mgr.set_slot_state(4, SlotState::Ready);
    swap_pointers(&mut read, &mut write, &mut signal, &mut pipeline, &mgr);
    assert_eq!(pipeline.phase, ComputePhase::AwaitingPostSwap);
    assert!(!signal.requested);
    assert_eq!(read.get(0, 0).material_id, STONE);
    assert_eq!(write.get(0, 0).material_id, 0);
}

#[test]
fn window_is_initialized_once() {
    let header = WorldHeader::new(50, 60, 64).with_spawn(5 * 16 + 3, -20);
    let mut mgr = manager();
    let mut initialized = WindowInitialized::default();
    let mut pipeline = ComputePipeline::default();
    assert!(initialize_window(&header, &mut mgr, &mut initialized, &mut pipeline));
    assert!(initialized.done);
    assert_eq!(pipeline.phase, ComputePhase::AwaitingPostSwap);
    // spawn z of -20 blocks is chunk -1 (rounded toward zero)
    assert_eq!((mgr.window_center_x, mgr.window_center_z), (5, -1));
    assert_eq!((mgr.window_min_x, mgr.window_min_z), (-3, -9));
    assert_eq!(mgr.load_queue.len(), WINDOW_CHUNK_COUNT);
    let first = &mgr.load_queue[0];
    assert_eq!((first.slot, first.chunk_x, first.chunk_z), (0, 47, 51));
    let last = &mgr.load_queue[WINDOW_CHUNK_COUNT - 1];
    assert_eq!((last.slot, last.chunk_x, last.chunk_z), (255, 12, 6));
    assert_eq!(mgr.get_slot_state(0), SlotState::Queued);
    assert_eq!((mgr.metadata[0].grid_x, mgr.metadata[0].grid_z), (-3, -9));
    assert_eq!(mgr.get_slot_state(WINDOW_CHUNK_COUNT), SlotState::Empty);

    assert!(!initialize_window(&header, &mut mgr, &mut initialized, &mut pipeline));
    assert_eq!(mgr.load_queue.len(), WINDOW_CHUNK_COUNT);
}

#[test]
fn update_window_sends_the_queues() {
    let header = WorldHeader::new(50, 60, 64);
    let mut mgr = manager();
    let mut initialized = WindowInitialized::default();
    let (loads, saves) = update_window(&mut mgr, &initialized);
    assert!(loads.is_empty() && saves.is_empty());

    let mut pipeline = ComputePipeline::default();
    initialize_window(&header, &mut mgr, &mut initialized, &mut pipeline);
    let (loads, saves) = update_window(&mut mgr, &initialized);
    assert_eq!(loads.len(), WINDOW_CHUNK_COUNT);
    assert!(saves.is_empty());
    assert!(mgr.load_queue.is_empty());
    assert_eq!(mgr.get_slot_state(17), SlotState::Loading);
}

#[test]
fn load_responses_are_staged_and_applied() {
    let mut mgr = manager();
    mgr.metadata[3].grid_x = 7;
    mgr.metadata[3].grid_z = 8;
    mgr.set_slot_state(3, SlotState::Loading);
    let mut staging = ActiveStagingBuffer::default();
    let response = LoadResponse {
        slot: 3,
        data: vec![cell_of(STONE); CELLS_PER_CHUNK],
        min_solid_y: 0,
        max_solid_y: 5,
        min_liquid_y: 64,
        max_liquid_y: 0,
        success: true,
    };
    handle_load_response(&mut staging, &mut mgr, response);
    assert_eq!(staging.loaded_chunks.len(), 1);
    assert_eq!((staging.loaded_chunks[0].grid_x, staging.loaded_chunks[0].grid_z), (7, 8));

    let failed = LoadResponse {
        slot: 4,
        data: Vec::new(),
        min_solid_y: 0,
        max_solid_y: 0,
        min_liquid_y: 0,
        max_liquid_y: 0,
        success: false,
    };
    handle_load_response(&mut staging, &mut mgr, failed);
    assert_eq!(mgr.get_slot_state(4), SlotState::Failed);
    assert_eq!(staging.loaded_chunks.len(), 1);

    handle_save_response(&mut staging, SaveResponse { slot: 9, success: true });
    assert_eq!(staging.saved_chunks.len(), 1);

    let mut write = ChunkPool::new(POOL_CHUNK_COUNT);
    let applied = apply_active_staged(&mut staging, &mut write, &mut mgr);
    assert_eq!(applied, vec![(7, 8, 3)]);
    assert!(staging.loaded_chunks.is_empty() && staging.saved_chunks.is_empty());
    assert_eq!(write.get(3, 99).material_id, STONE);
    assert_eq!(mgr.get_slot_state(3), SlotState::Ready);
    assert_eq!(mgr.metadata[3].max_solid_y, 5);
}

#[test]
fn loaded_chunks_are_announced_once() {
    let mut mgr = manager();
    let mut q = MeshUpdateQueue::default();
    mgr.set_slot_state(2, SlotState::Ready);
    mgr.metadata[2].set_active(true);
    mgr.metadata[2].grid_x = 11;
    mgr.set_slot_state(5, SlotState::Ready);
    dispatch_loaded_events(&mut mgr, &mut q, &InitialCopyDone { done: false });
    assert!(q.is_empty());
    dispatch_loaded_events(&mut mgr, &mut q, &InitialCopyDone { done: true });
    let items = q.iter();
    assert_eq!(items.len(), 1);
    assert_eq!(items[0].kind, MeshUpdateKind::ChunkLoaded);
    assert_eq!((items[0].slot_index, items[0].grid_x), (2, 11));
    assert_eq!(items[0].dirty_subchunks, 0xF);
    assert!(mgr.metadata[2].is_render_notified());
    dispatch_loaded_events(&mut mgr, &mut q, &InitialCopyDone { done: true });
    assert_eq!(q.iter().len(), 1);
}

#[test]
fn garbage_collection_counts_down_then_saves_or_empties() {
    let mut mgr = manager();
    let mut read = ChunkPool::new(POOL_CHUNK_COUNT);
    *read.get_mut(300, 0) = cell_of(STONE);
    // slot 300: ready, out of both windows, changed, timer 1
    mgr.set_slot_state(300, SlotState::Ready);
    mgr.set_file_dirty(300, true);
    mgr.metadata[300].set_unload_timer(1);
    mgr.metadata[300].grid_x = 4;
    mgr.metadata[300].grid_z = 2;
    // slot 301: ready, unchanged, timer 0
    mgr.set_slot_state(301, SlotState::Ready);
    // slot 302: ready but active
    mgr.set_slot_state(302, SlotState::Ready);
    mgr.metadata[302].set_active(true);

    collect_garbage(&mut mgr, &read);
    assert_eq!(mgr.metadata[300].get_unload_timer(), 0);
    assert_eq!(mgr.get_slot_state(300), SlotState::Ready);
    assert_eq!(mgr.get_slot_state(301), SlotState::Empty);
    assert_eq!(mgr.get_slot_state(302), SlotState::Ready);
    assert!(mgr.save_queue.is_empty());

    collect_garbage(&mut mgr, &read);
    assert_eq!(mgr.get_slot_state(300), SlotState::AwaitingSave);
    assert_eq!(mgr.save_queue.len(), 1);
    let save = &mgr.save_queue[0];
    assert_eq!((save.slot, save.chunk_x, save.chunk_z), (300, 4, 2));
    assert_eq!(save.data.len(), CELLS_PER_CHUNK);
    assert_eq!(save.data[0].material_id, STONE);
}

#[test]
fn post_swap_copy_publishes_changed_chunks() {
    let mut mgr = manager();
    let mut read = ChunkPool::new(POOL_CHUNK_COUNT);
    let mut write = ChunkPool::new(POOL_CHUNK_COUNT);
    *read.get_mut(7, 5) = cell_of(STONE);
    *read.get_mut(8, 5) = cell_of(DIRT);
    mgr.set_pending_b_dirty(7, true);
    mgr.metadata[7].mark_subchunk_dirty(2);
    let mut buffer = PostSwapDirtyBuffer::default();
    let mut pipeline = ComputePipeline::default();

    post_swap_copy(&read, &mut write, &mut mgr, &mut buffer, &mut pipeline);
    assert!(buffer.is_empty());
    assert_eq!(write.get(7, 5).material_id, 0);

    pipeline.phase = ComputePhase::AwaitingPostSwap;
    post_swap_copy(&read, &mut write, &mut mgr, &mut buffer, &mut pipeline);
    assert_eq!(pipeline.phase, ComputePhase::Computing);
    assert_eq!(write.get(7, 5).material_id, STONE);
    assert_eq!(write.get(8, 5).material_id, 0);
    assert!(!mgr.is_pending_b_dirty(7));
    assert!(mgr.is_file_dirty(7));
    assert_eq!(mgr.metadata[7].get_dirty_subchunks(), 0);
    let events = buffer.drain();
    assert_eq!(events.len(), 1);
    assert_eq!(events[0].kind, MeshUpdateKind::ChunkDirty);
    assert_eq!((events[0].slot_index, events[0].dirty_subchunks), (7, 0b100));
}

#[test]
fn initial_copy_waits_for_every_slot() {
    let mut mgr = manager();
    let mut read = ChunkPool::new(POOL_CHUNK_COUNT);
    let mut write = ChunkPool::new(POOL_CHUNK_COUNT);
    *write.get_mut(1000, 1) = cell_of(STONE);
    let mut pipeline = ComputePipeline::default();
    pipeline.phase = ComputePhase::AwaitingPostSwap;
    let mut done = InitialCopyDone::default();

    initial_copy(&mut read, &write, &mgr, &mut pipeline, &mut done);
    assert!(!done.done);
    assert_eq!(read.get(1000, 1).material_id, 0);

    for s in 0..POOL_CHUNK_COUNT {
        mgr.set_slot_state(s, SlotState::Ready);
    }
    initial_copy(&mut read, &write, &mgr, &mut pipeline, &mut done);
    assert!(done.done);
    assert_eq!(pipeline.phase, ComputePhase::Computing);
    assert_eq!(read.get(1000, 1).material_id, STONE);
}

#[test]
fn debug_counts() {
    let mut mgr = manager();
    mgr.set_slot_state(0, SlotState::Ready);
    mgr.set_slot_state(1, SlotState::Loading);
    mgr.set_slot_state(2, SlotState::Failed);
    mgr.metadata[0].set_active(true);
    mgr.set_slot_state(WINDOW_CHUNK_COUNT, SlotState::Ready);
    let counts = window_slot_state_counts(&mgr);
    assert_eq!(counts.ready, 1);
    assert_eq!(counts.loading, 1);
    assert_eq!(counts.failed, 1);
    assert_eq!(counts.empty, WINDOW_CHUNK_COUNT - 3);
    assert_eq!(counts.active, 1);
    assert_eq!(counts.queued + counts.awaiting_save + counts.saving, 0);

    let mut pool = ChunkPool::new(WINDOW_CHUNK_COUNT);
    *pool.get_mut(0, 0) = cell_of(STONE);
    *pool.get_mut(0, 1) = cell_of(STONE);
    *pool.get_mut(1, 0) = cell_of(STONE);
    assert_eq!(chunk_material_counts(&pool, 0), ((CELLS_PER_CHUNK - 2) as u32, 2));
    assert_eq!(ready_window_content(&mgr, &pool), ((CELLS_PER_CHUNK - 2) as u64, 2));
}

fn set_material(pool: &mut ChunkPool, slot: usize, x: usize, y: usize, z: usize, material_id: u16) {
    pool.get_mut(slot, (z * 16 + x) * 64 + y).material_id = material_id;
}

#[test]
fn in_chunk_face_check_looks_only_inside_the_chunk() {
    let mut pool = ChunkPool::new(2);
    set_material(&mut pool, 1, 8, 31, 8, STONE);
    assert!(!in_chunk_face_visible(&pool, 1, 8, 31, 8));
    assert!(in_chunk_face_visible(&pool, 1, 8, 32, 8));
    assert!(in_chunk_face_visible(&pool, 1, 8, 64, 8));
    assert!(!in_chunk_face_visible(&pool, 1, 8, -1, 8));
    assert!(!in_chunk_face_visible(&pool, 1, 16, 30, 8));
    assert!(!in_chunk_face_visible(&pool, 1, 8, 30, -1));
}

#[test]
fn window_neighbour_reports_material_and_visibility() {
    let mgr = manager();
    let mut pool = ChunkPool::new(WINDOW_CHUNK_COUNT);
    // chunk (2, 1) is window slot 1 * 16 + 2
    set_material(&mut pool, 18, 0, 40, 8, STONE);
    assert_eq!(window_neighbour(&mgr, &pool, 2, 1, (8 * 16) * 64 + 40), (STONE, false));
    assert_eq!(window_neighbour(&mgr, &pool, 2, 1, (8 * 16) * 64 + 41), (0, true));
    // chunk (20, 1) is outside the window
    assert_eq!(window_neighbour(&mgr, &pool, 20, 1, 0), (MISSING_NEIGHBOUR, true));
}

#[test]
fn queues_report_their_length() {
    let mut q = MeshUpdateQueue::default();
    assert_eq!(q.len(), 0);
    q.push(event(MeshUpdateKind::ChunkDirty, 3));
    q.push(event(MeshUpdateKind::ChunkDirty, 4));
    assert_eq!(q.len(), 2);
    let mut b = PostSwapDirtyBuffer::default();
    b.push(event(MeshUpdateKind::ChunkDirty, 3));
    assert_eq!(b.len(), 1);
    let c = CellEventQueue::default();
    assert_eq!(c.len(), 0);
    assert!(torxel::queues::small_vec::queue_length_limit() > 1 << 20);
}
