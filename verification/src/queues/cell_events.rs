//! Queue of cell changes (across chunk borders, from physics).
use vstd::prelude::*;
use crate::voxel::format::Cell;
use super::small_vec::{CellEventVec, cell_event_items, cell_events_new, cell_events_push, cell_events_drain_all,
    cell_events_clear, cell_events_is_empty, cell_events_len, push_length_limit};

verus! {

/// Kind of a cell change.
#[derive(Clone, Copy, Debug, PartialEq, Eq, Structural)]
pub enum CellEventKind {
    /// A cell was set or replaced.
    SetCell,
    /// Liquid flowed.
    LiquidTransfer,
    /// Gas flowed.
    GasTransfer,
    /// A phase transition.
    PhaseTransition,
}

/// A change of one cell.
#[derive(Clone, Copy, Debug)]
pub struct CellEvent {
    pub kind: CellEventKind,
    pub slot_index: usize,
    pub cell_index: usize,
    pub cell: Cell,
}

/// Queue of cell changes.
pub struct CellEventQueue {
    pub events: CellEventVec,
}

impl View for CellEventQueue {
    type V = Seq<CellEvent>;

    /// The queued events, oldest first.
    open spec fn view(&self) -> Seq<CellEvent> {
        cell_event_items(self.events)
    }
}

impl CellEventQueue {
    /// The number of queued items.
    pub fn len(&self) -> (r: usize)
        ensures
            r == self@.len(),
    {
        cell_events_len(&self.events)
    }

    pub fn push(&mut self, event: CellEvent)
        requires
            old(self)@.len() < push_length_limit(),
        ensures
            final(self)@ == old(self)@.push(event),
    {
        cell_events_push(&mut self.events, event);
    }

    /// Takes out every queued event, oldest first.
    pub fn drain(&mut self) -> (r: Vec<CellEvent>)
        ensures
            r@ == old(self)@,
            final(self)@ == Seq::<CellEvent>::empty(),
    {
        cell_events_drain_all(&mut self.events)
    }

    pub fn clear(&mut self)
        ensures
            final(self)@ == Seq::<CellEvent>::empty(),
    {
        cell_events_clear(&mut self.events);
    }

    pub fn is_empty(&self) -> (r: bool)
        ensures
            r <==> self@.len() == 0,
    {
        cell_events_is_empty(&self.events)
    }
}

impl Default for CellEventQueue {
    fn default() -> (q: Self)
        ensures
            q@ == Seq::<CellEvent>::empty(),
    {
        Self { events: cell_events_new() }
    }
}

} // verus!
