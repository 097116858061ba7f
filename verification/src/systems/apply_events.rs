//! Applying queued cell changes to the write pool.
use vstd::prelude::*;
use crate::voxel::format::{Cell, CELLS_PER_CHUNK};
use crate::voxel::pool::{ChunkPool, chunk_start};
use crate::queues::cell_events::{CellEvent, CellEventQueue};

verus! {

/// The cells after writing each event's cell at its slot and cell index, in order.
pub open spec fn apply_events_spec(cells: Seq<Cell>, events: Seq<CellEvent>) -> Seq<Cell>
    decreases events.len(),
{
    if events.len() == 0 {
        cells
    } else {
        let e = events.last();
        apply_events_spec(cells, events.drop_last()).update(chunk_start(e.slot_index as int) + e.cell_index, e.cell)
    }
}

/// Every event addresses a cell of the pool.
pub open spec fn events_in_pool(events: Seq<CellEvent>, pool: &ChunkPool) -> bool {
    forall|i: int| 0 <= i < events.len() ==> (#[trigger] events[i]).slot_index < pool.slot_count
        && events[i].cell_index < CELLS_PER_CHUNK
}

/// Drains the cell-event queue, writing each event's cell into the write pool.
pub fn apply_cell_events(write_world: &mut ChunkPool, cell_events: &mut CellEventQueue)
    requires
        old(write_world).wf(),
        events_in_pool(old(cell_events)@, old(write_world)),
    ensures
        final(write_world).wf(),
        final(write_world).slot_count == old(write_world).slot_count,
        final(write_world).data@ == apply_events_spec(old(write_world).data@, old(cell_events)@),
        final(cell_events)@ == Seq::<CellEvent>::empty(),
{
    let events = cell_events.drain();
    let ghost d0 = write_world.data@;
    let mut i: usize = 0;
    while i < events.len()
        invariant
            0 <= i <= events@.len(),
            write_world.wf(),
            write_world.slot_count == old(write_world).slot_count,
            events_in_pool(events@, write_world),
            d0 == old(write_world).data@,
            write_world.data@ == apply_events_spec(d0, events@.subrange(0, i as int)),
        decreases events@.len() - i,
    {
        let event = events[i];
        let slot = event.slot_index;
        let cell_idx = event.cell_index;
        assert(events@[i as int] == event);
        *write_world.get_mut(slot, cell_idx) = event.cell;
        proof {
            assert(events@.subrange(0, i + 1).drop_last() =~= events@.subrange(0, i as int));
        }
        i = i + 1;
    }
    assert(events@.subrange(0, events@.len() as int) =~= events@);
}

} // verus!
