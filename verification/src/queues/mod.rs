//! Event queues between systems.
pub mod small_vec;
pub mod mesh_queue;
pub mod cell_events;
pub mod shadow_requests;
pub mod post_swap_dirty;

pub use post_swap_dirty::PostSwapDirtyBuffer;
