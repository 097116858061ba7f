use torxel::io::channels::ShadowLoadResponse;
use torxel::manager::{ShadowCopyManager, ShadowCopyState};
use torxel::systems::shadow_copy::shadow_copy_step;
use torxel::voxel::format::WINDOW_CHUNK_COUNT;
use torxel::ChunkPool;
use torxel::io::staging::ShadowStagingBuffer;
use torxel::queues::shadow_requests::{ShadowRequest, ShadowRequestBuffer, ShadowRequestKind};
use torxel::systems::poll_shadow_tasks::{apply_shadow_staged, handle_shadow_load_response};
use torxel::systems::shadow_requests::process_shadow_requests;
use torxel::voxel::format::{Cell, CELLS_PER_CHUNK};
use torxel::voxel::materials::ids::{CLAY, STONE};
use torxel::voxel::shadow_pool::{ShadowSlotState, SHADOW_UNLOAD_DELAY};
use torxel::{ShadowPool, ShadowRequestResult, TorusTopology, SHADOW_SLOT_COUNT};

fn chunk_of(material_id: u16) -> Vec<Cell> {
    let mut c = Cell::zeroed();
    c.material_id = material_id;
    vec![c; CELLS_PER_CHUNK]
}

fn pool() -> ShadowPool {
    ShadowPool::new(TorusTopology::new(50, 60))
}

#[test]
fn new_pool_is_empty() {
    let p = pool();
    assert_eq!(p.free_slots.len(), SHADOW_SLOT_COUNT);
    assert_eq!(p.frame_counter, 0);
    assert!(!p.is_ready(0, 0));
    assert!(p.read_chunk(0, 0).is_none());
    assert!(p.meta.iter().all(|m| m.state == ShadowSlotState::Empty));
}

#[test]
fn request_queues_then_load_makes_ready() {
    let mut p = pool();
    assert_eq!(p.request_chunk(3, 4), ShadowRequestResult::Queued(0));
    assert_eq!(p.meta[0].ref_count, 1);
    assert_eq!(p.meta[0].state, ShadowSlotState::Loading);
    assert_eq!(p.request_chunk(3, 4), ShadowRequestResult::Queued(0));
    assert_eq!(p.meta[0].ref_count, 2);
    assert!(!p.is_ready(3, 4));

    let data = chunk_of(STONE);
    p.apply_loaded_chunk(0, &data);
    assert!(p.is_ready(3, 4));
    assert_eq!(p.request_chunk(3, 4), ShadowRequestResult::Ready(0));
    assert_eq!(p.read_chunk(3, 4).unwrap(), &data[..]);
    assert_eq!(p.read_cell(3 * 16 + 1, 5, 4 * 16 + 2).map(|c| c.material_id), Some(STONE));
    assert_eq!(p.read_cell(3 * 16 + 1, 64, 4 * 16 + 2), None);
    assert_eq!(p.get(0, 7).material_id, STONE);
    assert_eq!(p.chunk_slice(0).len(), CELLS_PER_CHUNK);
}

#[test]
fn coordinates_wrap_onto_the_torus() {
    let mut p = pool();
    assert_eq!(p.request_chunk(-1, 60), ShadowRequestResult::Queued(0));
    assert_eq!((p.meta[0].chunk_x, p.meta[0].chunk_z), (49, 0));
    assert_eq!(p.request_chunk(49, 0), ShadowRequestResult::Queued(0));
    assert_eq!(p.meta[0].ref_count, 2);
}

#[test]
fn request_then_release_restores_the_count() {
    let mut p = pool();
    p.request_chunk(1, 1);
    let before = p.meta[0].ref_count;
    p.request_chunk(1, 1);
    p.release_chunk(1, 1);
    assert_eq!(p.meta[0].ref_count, before);
    p.release_chunk(1, 1);
    assert_eq!(p.meta[0].ref_count, 0);
    p.release_chunk(1, 1);
    assert_eq!(p.meta[0].ref_count, 0);
    p.release_chunk(7, 7);
    assert_eq!(p.meta[0].ref_count, 0);
}

#[test]
fn full_pool_of_referenced_chunks_refuses() {
    let mut p = pool();
    for i in 0..SHADOW_SLOT_COUNT as i64 {
        assert_eq!(p.request_chunk(i, 0), ShadowRequestResult::Queued(i as usize));
    }
    assert!(p.free_slots.is_empty());
    assert_eq!(p.request_chunk(40, 40), ShadowRequestResult::NotAvailable);
}

#[test]
fn eviction_takes_the_least_recently_used_slot() {
    let mut p = pool();
    for i in 0..SHADOW_SLOT_COUNT as i64 {
        p.request_chunk(i, 0);
        p.tick_frame();
    }
    for i in 0..SHADOW_SLOT_COUNT as i64 {
        p.release_chunk(i, 0);
    }
    // touch chunk 0 again so that chunk 1 (slot 1) becomes the oldest
    p.request_chunk(0, 0);
    p.release_chunk(0, 0);
    let r = p.request_chunk(45, 45);
    assert_eq!(r, ShadowRequestResult::Queued(1));
    assert_eq!((p.meta[1].chunk_x, p.meta[1].chunk_z), (45, 45));
    assert_eq!(p.meta[1].state, ShadowSlotState::Loading);
    assert!(!p.is_ready(1, 0));
    // the evicted slot is reused at once, so it is not left on the free list
    assert!(p.free_slots.is_empty());
    assert_eq!(p.slot_map.get((45, 45)), Some(1));
    assert_eq!(p.slot_map.get((1, 0)), None);
}

fn assert_free_list_holds_only_free_slots(p: &ShadowPool) {
    for (i, s) in p.free_slots.iter().enumerate() {
        assert_eq!(p.meta[*s].state, ShadowSlotState::Empty);
        assert!(!p.free_slots[i + 1..].contains(s));
    }
    for s in 0..SHADOW_SLOT_COUNT {
        let free = p.free_slots.contains(&s);
        assert_eq!(free, p.meta[s].state == ShadowSlotState::Empty);
        if p.meta[s].state != ShadowSlotState::Empty {
            assert_eq!(p.slot_map.get((p.meta[s].chunk_x, p.meta[s].chunk_z)), Some(s));
        }
    }
}

#[test]
fn free_list_holds_exactly_the_empty_slots() {
    let mut p = pool();
    assert_free_list_holds_only_free_slots(&p);
    for i in 0..SHADOW_SLOT_COUNT as i64 {
        p.request_chunk(i, 1);
        p.tick_frame();
        assert_free_list_holds_only_free_slots(&p);
    }
    for i in 0..SHADOW_SLOT_COUNT as i64 {
        p.release_chunk(i, 1);
    }
    p.apply_loaded_chunk(3, &chunk_of(STONE));
    p.mark_failed(4);
    assert_free_list_holds_only_free_slots(&p);
    p.request_chunk(47, 47);
    assert_free_list_holds_only_free_slots(&p);
    for _ in 0..=SHADOW_UNLOAD_DELAY {
        p.tick_frame();
    }
    p.tick_unload();
    assert_free_list_holds_only_free_slots(&p);
    p.request_chunk(48, 48);
    assert_free_list_holds_only_free_slots(&p);
}

#[test]
fn loading_into_an_empty_slot_changes_nothing() {
    let mut p = pool();
    p.apply_loaded_chunk(2, &chunk_of(STONE));
    assert_eq!(p.meta[2].state, ShadowSlotState::Empty);
    assert_eq!(p.get(2, 0).material_id, 0);
    assert_eq!(p.free_slots.len(), SHADOW_SLOT_COUNT);
}

#[test]
fn failing_an_empty_slot_changes_nothing() {
    let mut p = pool();
    p.request_chunk(5, 6);
    p.mark_failed(0);
    let free_before = p.free_slots.clone();
    p.mark_failed(0);
    assert_eq!(p.free_slots, free_before);
    assert_eq!(p.meta[0].state, ShadowSlotState::Empty);
}

#[test]
fn eviction_zeroes_the_slot() {
    let mut p = pool();
    for i in 0..SHADOW_SLOT_COUNT as i64 {
        p.request_chunk(i, 0);
        p.apply_loaded_chunk(i as usize, &chunk_of(CLAY));
        p.release_chunk(i, 0);
    }
    assert_eq!(p.request_chunk(45, 45), ShadowRequestResult::Queued(0));
    assert!(p.chunk_slice(0).iter().all(|c| *c == Cell::zeroed()));
    assert_eq!(p.get(1, 0).material_id, CLAY);
}

#[test]
fn unreferenced_ready_chunks_unload_after_the_delay() {
    let mut p = pool();
    p.request_chunk(2, 2);
    p.apply_loaded_chunk(0, &chunk_of(STONE));
    p.release_chunk(2, 2);
    p.request_chunk(3, 3);
    p.apply_loaded_chunk(1, &chunk_of(STONE));
    for _ in 0..=SHADOW_UNLOAD_DELAY {
        p.tick_frame();
    }
    p.tick_unload();
    assert_eq!(p.meta[0].state, ShadowSlotState::Empty);
    assert!(!p.is_ready(2, 2));
    assert!(p.is_ready(3, 3));
    assert!(p.free_slots.contains(&0));
}

#[test]
fn recent_chunks_stay_loaded() {
    let mut p = pool();
    p.request_chunk(2, 2);
    p.apply_loaded_chunk(0, &chunk_of(STONE));
    p.release_chunk(2, 2);
    for _ in 0..SHADOW_UNLOAD_DELAY {
        p.tick_frame();
    }
    p.tick_unload();
    assert!(p.is_ready(2, 2));
}

#[test]
fn failed_load_empties_the_slot() {
    let mut p = pool();
    p.request_chunk(5, 6);
    p.mark_failed(0);
    assert_eq!(p.meta[0].state, ShadowSlotState::Empty);
    assert_eq!(p.meta[0].ref_count, 0);
    assert!(!p.is_ready(5, 6));
    assert_eq!(p.request_chunk(5, 6), ShadowRequestResult::Queued(0));
}

#[test]
fn shadow_requests_are_served_in_order() {
    let mut p = pool();
    let mut buffer = ShadowRequestBuffer::default();
    buffer.push(ShadowRequest { kind: ShadowRequestKind::Request, chunk_x: 4, chunk_z: 5 });
    buffer.push(ShadowRequest { kind: ShadowRequestKind::Request, chunk_x: 6, chunk_z: 7 });
    buffer.push(ShadowRequest { kind: ShadowRequestKind::Release, chunk_x: 4, chunk_z: 5 });
    let (loads, refused) = process_shadow_requests(&mut buffer, &mut p);
    assert!(buffer.drain().is_empty());
    assert!(refused.is_empty());
    assert_eq!(loads.len(), 2);
    assert_eq!((loads[0].slot, loads[0].chunk_x, loads[0].chunk_z), (0, 4, 5));
    assert_eq!((loads[1].slot, loads[1].chunk_x, loads[1].chunk_z), (1, 6, 7));
    assert_eq!(p.meta[0].ref_count, 0);
    assert_eq!(p.meta[1].ref_count, 1);
}

#[test]
fn shadow_requests_report_a_full_pool() {
    let mut p = pool();
    let mut buffer = ShadowRequestBuffer::default();
    for i in 0..SHADOW_SLOT_COUNT + 1 {
        buffer.push(ShadowRequest { kind: ShadowRequestKind::Request, chunk_x: i, chunk_z: 0 });
    }
    let (loads, refused) = process_shadow_requests(&mut buffer, &mut p);
    assert_eq!(loads.len(), SHADOW_SLOT_COUNT);
    assert_eq!(refused, vec![(SHADOW_SLOT_COUNT, 0)]);
}

#[test]
fn loaded_shadow_responses_are_staged_then_applied() {
    let mut p = pool();
    p.request_chunk(8, 9);
    let mut staging = ShadowStagingBuffer::default();
    let response = ShadowLoadResponse { slot: 0, chunk_x: 8, chunk_z: 9, data: chunk_of(STONE), success: true };
    handle_shadow_load_response(&mut staging, &mut p, response);
    assert_eq!(staging.loaded_chunks.len(), 1);
    assert!(!p.is_ready(8, 9));
    apply_shadow_staged(&mut staging, &mut p);
    assert!(staging.loaded_chunks.is_empty());
    assert!(p.is_ready(8, 9));
    assert_eq!(p.frame_counter, 1);
    assert_eq!(p.get(0, 100).material_id, STONE);
}

#[test]
fn failed_shadow_response_frees_the_slot() {
    let mut p = pool();
    p.request_chunk(8, 9);
    let mut staging = ShadowStagingBuffer::default();
    let response = ShadowLoadResponse { slot: 0, chunk_x: 8, chunk_z: 9, data: Vec::new(), success: false };
    handle_shadow_load_response(&mut staging, &mut p, response);
    assert!(staging.loaded_chunks.is_empty());
    assert_eq!(p.meta[0].state, ShadowSlotState::Empty);
    assert_eq!(p.free_slots.last(), Some(&0));
}

#[test]
fn shadow_copy_steps_through_its_states() {
    let p = pool();
    let mut write = ChunkPool::new(WINDOW_CHUNK_COUNT);
    let mut m = ShadowCopyManager::new();
    shadow_copy_step(&mut m, &p, &mut write);
    assert_eq!(m.state, ShadowCopyState::Idle);

    m.request_copy(10, 10);
    shadow_copy_step(&mut m, &p, &mut write);
    assert_eq!(m.state, ShadowCopyState::Failed);
    assert_eq!(m.pending_count, 256);

    m.state = ShadowCopyState::Copying;
    shadow_copy_step(&mut m, &p, &mut write);
    assert_eq!(m.state, ShadowCopyState::Failed);
}

#[test]
fn repeated_requests_count_references() {
    let mut p = pool();
    let mut buffer = ShadowRequestBuffer::default();
    for _ in 0..3 {
        buffer.push(ShadowRequest { kind: ShadowRequestKind::Request, chunk_x: 9, chunk_z: 9 });
    }
    assert_eq!(buffer.len(), 3);
    let (loads, refused) = process_shadow_requests(&mut buffer, &mut p);
    // a chunk still loading answers each request as queued again
    assert_eq!(loads.len(), 3);
    assert!(loads.iter().all(|l| l.slot == 0));
    assert!(refused.is_empty());
    assert_eq!(p.meta[0].ref_count, 3);
    assert_eq!(buffer.len(), 0);
}
