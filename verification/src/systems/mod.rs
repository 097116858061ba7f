//! The per-frame systems, as functions on the library's state.
pub mod apply_events;
pub mod dispatch_dirty;
pub mod request_swap;
pub mod swap;
pub mod shadow_copy;
pub mod initial_copy;
pub mod update_window;
pub mod gc;
pub mod dispatch_loaded;
pub mod poll_tasks;
pub mod poll_shadow_tasks;
pub mod shadow_requests;
pub mod debug;
