//! The small engine shell: its configuration, the renderer it drives, the editor panel's state
//! and the first voxel types.
pub mod app;
pub mod config;
pub mod editor;
pub mod render;
pub mod voxel;
