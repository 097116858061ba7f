//! Coordinator of chunks, windows and slot life cycles.
pub mod masks;
pub mod metadata;
pub mod manager;
pub mod shadow_copy;

pub use manager::ChunkManager;
pub use metadata::{SlotMetadata, SlotState};
pub use shadow_copy::{ShadowCopyManager, ShadowCopyState, ShadowCopyValidation};
