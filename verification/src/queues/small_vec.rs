//! The `smallvec` vectors that back the event queues.
//!
//! Each queue keeps its `SmallVec` inside a wrapper struct that the verifier
//! treats as opaque: what it holds is named by a specification function,
//! and each `SmallVec` method the queues call goes through a wrapper
//! function whose contract states, over that name, what the method does.
use vstd::prelude::*;
use smallvec::SmallVec;
use super::cell_events::CellEvent;
use super::mesh_queue::MeshUpdateEvent;
use super::shadow_requests::ShadowRequest;

verus! {

/// Inline vector of up to 256 cell events before it spills to the heap.
#[verifier::external_body]
pub struct CellEventVec {
    v: SmallVec<[CellEvent; 256]>,
}

/// Inline vector of up to 64 mesh update events before it spills to the heap.
#[verifier::external_body]
pub struct MeshEventVec {
    v: SmallVec<[MeshUpdateEvent; 64]>,
}

/// Inline vector of up to 32 shadow requests before it spills to the heap.
#[verifier::external_body]
pub struct ShadowRequestVec {
    v: SmallVec<[ShadowRequest; 32]>,
}

/// The cell events a vector holds, in order.
pub uninterp spec fn cell_event_items(v: CellEventVec) -> Seq<CellEvent>;

/// The mesh update events a vector holds, in order.
pub uninterp spec fn mesh_event_items(v: MeshEventVec) -> Seq<MeshUpdateEvent>;

/// The shadow requests a vector holds, in order.
pub uninterp spec fn shadow_request_items(v: ShadowRequestVec) -> Seq<ShadowRequest>;

/// Lengths below this cannot make a push fail: growing to the next power
/// of two stays far below the allocation size limit.
pub open spec fn push_length_limit() -> int {
    usize::MAX as int / 256
}

/// `push_length_limit` as a number, for callers that test a queue's length
/// before pushing.
pub fn queue_length_limit() -> (r: usize)
    ensures
        r == push_length_limit(),
{
    usize::MAX / 256
}

/// `SmallVec::new`: an empty vector.
#[verifier::external_body]
pub(crate) fn cell_events_new() -> (v: CellEventVec)
    ensures
        cell_event_items(v) == Seq::<CellEvent>::empty(),
{
    CellEventVec { v: SmallVec::new() }
}

/// `SmallVec::push`: appends `e` at the end.
#[verifier::external_body]
pub(crate) fn cell_events_push(v: &mut CellEventVec, e: CellEvent)
    requires
        cell_event_items(*old(v)).len() < push_length_limit(),
    ensures
        cell_event_items(*final(v)) == cell_event_items(*old(v)).push(e),
{
    v.v.push(e);
}

/// `SmallVec::drain(..)`, fully consumed: every item in order, leaving the vector empty.
#[verifier::external_body]
pub(crate) fn cell_events_drain_all(v: &mut CellEventVec) -> (r: Vec<CellEvent>)
    ensures
        r@ == cell_event_items(*old(v)),
        cell_event_items(*final(v)) == Seq::<CellEvent>::empty(),
{
    v.v.drain(..).collect()
}

/// `SmallVec::clear`: removes every item.
#[verifier::external_body]
pub(crate) fn cell_events_clear(v: &mut CellEventVec)
    ensures
        cell_event_items(*final(v)) == Seq::<CellEvent>::empty(),
{
    v.v.clear();
}

/// `SmallVec::len`: the number of items.
#[verifier::external_body]
pub(crate) fn cell_events_len(v: &CellEventVec) -> (r: usize)
    ensures
        r == cell_event_items(*v).len(),
{
    v.v.len()
}

/// `SmallVec::is_empty`: whether it holds no item.
#[verifier::external_body]
pub(crate) fn cell_events_is_empty(v: &CellEventVec) -> (r: bool)
    ensures
        r <==> cell_event_items(*v).len() == 0,
{
    v.v.is_empty()
}

/// `SmallVec::new`: an empty vector.
#[verifier::external_body]
pub(crate) fn mesh_events_new() -> (v: MeshEventVec)
    ensures
        mesh_event_items(v) == Seq::<MeshUpdateEvent>::empty(),
{
    MeshEventVec { v: SmallVec::new() }
}

/// `SmallVec::push`: appends `e` at the end.
#[verifier::external_body]
pub(crate) fn mesh_events_push(v: &mut MeshEventVec, e: MeshUpdateEvent)
    requires
        mesh_event_items(*old(v)).len() < push_length_limit(),
    ensures
        mesh_event_items(*final(v)) == mesh_event_items(*old(v)).push(e),
{
    v.v.push(e);
}

/// `SmallVec::drain(..)`, fully consumed: every item in order, leaving the vector empty.
#[verifier::external_body]
pub(crate) fn mesh_events_drain_all(v: &mut MeshEventVec) -> (r: Vec<MeshUpdateEvent>)
    ensures
        r@ == mesh_event_items(*old(v)),
        mesh_event_items(*final(v)) == Seq::<MeshUpdateEvent>::empty(),
{
    v.v.drain(..).collect()
}

/// `SmallVec::clear`: removes every item.
#[verifier::external_body]
pub(crate) fn mesh_events_clear(v: &mut MeshEventVec)
    ensures
        mesh_event_items(*final(v)) == Seq::<MeshUpdateEvent>::empty(),
{
    v.v.clear();
}

/// `SmallVec::len`: the number of items.
#[verifier::external_body]
pub(crate) fn mesh_events_len(v: &MeshEventVec) -> (r: usize)
    ensures
        r == mesh_event_items(*v).len(),
{
    v.v.len()
}

/// `SmallVec::is_empty`: whether it holds no item.
#[verifier::external_body]
pub(crate) fn mesh_events_is_empty(v: &MeshEventVec) -> (r: bool)
    ensures
        r <==> mesh_event_items(*v).len() == 0,
{
    v.v.is_empty()
}

/// `SmallVec::as_slice`, copied out: the items in order.
#[verifier::external_body]
pub(crate) fn mesh_events_to_vec(v: &MeshEventVec) -> (r: Vec<MeshUpdateEvent>)
    ensures
        r@ == mesh_event_items(*v),
{
    v.v.as_slice().to_vec()
}

/// `SmallVec::new`: an empty vector.
#[verifier::external_body]
pub(crate) fn shadow_requests_new() -> (v: ShadowRequestVec)
    ensures
        shadow_request_items(v) == Seq::<ShadowRequest>::empty(),
{
    ShadowRequestVec { v: SmallVec::new() }
}

/// `SmallVec::push`: appends `e` at the end.
#[verifier::external_body]
pub(crate) fn shadow_requests_push(v: &mut ShadowRequestVec, e: ShadowRequest)
    requires
        shadow_request_items(*old(v)).len() < push_length_limit(),
    ensures
        shadow_request_items(*final(v)) == shadow_request_items(*old(v)).push(e),
{
    v.v.push(e);
}

/// `SmallVec::drain(..)`, fully consumed: every item in order, leaving the vector empty.
#[verifier::external_body]
pub(crate) fn shadow_requests_drain_all(v: &mut ShadowRequestVec) -> (r: Vec<ShadowRequest>)
    ensures
        r@ == shadow_request_items(*old(v)),
        shadow_request_items(*final(v)) == Seq::<ShadowRequest>::empty(),
{
    v.v.drain(..).collect()
}

/// `SmallVec::len`: the number of items.
#[verifier::external_body]
pub(crate) fn shadow_requests_len(v: &ShadowRequestVec) -> (r: usize)
    ensures
        r == shadow_request_items(*v).len(),
{
    v.v.len()
}

/// `SmallVec::clear`: removes every item.
#[verifier::external_body]
pub(crate) fn shadow_requests_clear(v: &mut ShadowRequestVec)
    ensures
        shadow_request_items(*final(v)) == Seq::<ShadowRequest>::empty(),
{
    v.v.clear();
}

} // verus!
