//! Pipeline phases and signals between the systems of a frame.
use vstd::prelude::*;

verus! {

/// Phase of the simulation pipeline.
#[derive(Clone, Copy, PartialEq, Eq, Debug, Structural)]
pub enum ComputePhase {
    /// The swap is blocked (a save has not finished).
    AwaitingSwap,
    /// The swap happened; changed chunks are not copied back yet.
    AwaitingPostSwap,
    /// Everything is ready: the simulation may run.
    Computing,
}

impl ComputePhase {
    pub fn is_computing(self) -> (r: bool)
        ensures
            r <==> self == ComputePhase::Computing,
    {
        matches!(self, Self::Computing)
    }

    pub fn is_awaiting_swap(self) -> (r: bool)
        ensures
            r <==> self == ComputePhase::AwaitingSwap,
    {
        matches!(self, Self::AwaitingSwap)
    }

    pub fn is_awaiting_post_swap(self) -> (r: bool)
        ensures
            r <==> self == ComputePhase::AwaitingPostSwap,
    {
        matches!(self, Self::AwaitingPostSwap)
    }
}

/// The pipeline's semaphore.
pub struct ComputePipeline {
    pub phase: ComputePhase,
}

impl Default for ComputePipeline {
    fn default() -> (p: Self)
        ensures
            p.phase == ComputePhase::Computing,
    {
        Self { phase: ComputePhase::Computing }
    }
}

/// Request to swap the read and write pools.
pub struct SwapSignal {
    pub requested: bool,
}

impl SwapSignal {
    pub fn request(&mut self)
        ensures
            final(self).requested,
    {
        self.requested = true;
    }

    pub fn reset(&mut self)
        ensures
            !final(self).requested,
    {
        self.requested = false;
    }
}

impl Default for SwapSignal {
    fn default() -> (s: Self)
        ensures
            !s.requested,
    {
        Self { requested: false }
    }
}

} // verus!
