//! Voxel storage: cell layout, torus topology, materials and chunk pools.
pub mod format;
pub mod topology;
pub mod materials;
pub mod pool;
pub mod slot_map;
pub mod shadow_pool;
