//! Rendering of the voxel world: mesh storage, mesh building and the
//! render systems, as functions on the library's state.
pub mod mesh_storage;
pub mod render_systems;
pub mod mesh_builder;
pub mod camera;
