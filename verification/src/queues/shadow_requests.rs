//! Buffer of requests for the shadow window.
use vstd::prelude::*;
use super::small_vec::{ShadowRequestVec, shadow_request_items, shadow_requests_new, shadow_requests_push,
    shadow_requests_drain_all, shadow_requests_clear, shadow_requests_len, push_length_limit};

verus! {

/// Kind of a shadow-window request.
#[derive(Clone, Copy, Debug, PartialEq, Eq, Structural)]
pub enum ShadowRequestKind {
    /// Bring a chunk into the shadow window.
    Request,
    /// Release a chunk of the shadow window.
    Release,
}

/// A shadow-window request.
#[derive(Clone, Copy, Debug)]
pub struct ShadowRequest {
    pub kind: ShadowRequestKind,
    pub chunk_x: usize,
    pub chunk_z: usize,
}

/// Buffer of shadow-window requests.
pub struct ShadowRequestBuffer {
    pub requests: ShadowRequestVec,
}

impl View for ShadowRequestBuffer {
    type V = Seq<ShadowRequest>;

    /// The buffered requests, oldest first.
    open spec fn view(&self) -> Seq<ShadowRequest> {
        shadow_request_items(self.requests)
    }
}

impl ShadowRequestBuffer {
    /// The number of queued items.
    pub fn len(&self) -> (r: usize)
        ensures
            r == self@.len(),
    {
        shadow_requests_len(&self.requests)
    }

    pub fn push(&mut self, request: ShadowRequest)
        requires
            old(self)@.len() < push_length_limit(),
        ensures
            final(self)@ == old(self)@.push(request),
    {
        shadow_requests_push(&mut self.requests, request);
    }

    /// Takes out every buffered request, oldest first.
    pub fn drain(&mut self) -> (r: Vec<ShadowRequest>)
        ensures
            r@ == old(self)@,
            final(self)@ == Seq::<ShadowRequest>::empty(),
    {
        shadow_requests_drain_all(&mut self.requests)
    }

    pub fn clear(&mut self)
        ensures
            final(self)@ == Seq::<ShadowRequest>::empty(),
    {
        shadow_requests_clear(&mut self.requests);
    }
}

impl Default for ShadowRequestBuffer {
    fn default() -> (b: Self)
        ensures
            b@ == Seq::<ShadowRequest>::empty(),
    {
        Self { requests: shadow_requests_new() }
    }
}

} // verus!
