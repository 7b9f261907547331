pub mod scene_files;
pub mod scene_ids;
pub mod world_index;
