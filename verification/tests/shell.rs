use neosurv::engine::app::Engine;
use neosurv::engine::config::{EngineConfig, RendererBackend};
use neosurv::engine::editor::EditorState;
use neosurv::engine::render::WgpuRenderer;
use neosurv::engine::voxel::{greedy_mesh, Block, Chunk, Voxel};
use neosurv::geometry::IVec3;
use neosurv::gpu_data::{checkerboard_rgba, hash_mesh_bytes};
use std::hash::Hasher;

#[test]
fn default_engine_runs_vulkan_at_sixty_frames() {
    let config = EngineConfig::default();
    assert_eq!(config.app_name, "MaxEngine");
    assert_eq!(config.renderer, RendererBackend::Vulkan);
    assert_eq!(config.target_fps, 60);
    let engine = Engine::new(config);
    assert_eq!(engine.renderer().backend_name(), "Vulkan (wgpu)");
    assert_eq!(engine.config().target_fps, 60);
}

#[test]
fn renderer_names_its_backend() {
    assert_eq!(WgpuRenderer::new(RendererBackend::OpenGl).backend_name(), "OpenGL (wgpu)");
    assert_eq!(WgpuRenderer::new(RendererBackend::Vulkan).backend(), RendererBackend::Vulkan);
}

#[test]
fn editor_starts_with_nothing_selected() {
    let editor = EditorState::default();
    assert!(!editor.show_stats);
    assert!(editor.selected_entity.is_none());
}

#[test]
fn voxel_chunk_quads() {
    let chunk = Chunk {
        origin: IVec3::new(0, 0, 0),
        voxels: vec![Voxel { pos: IVec3::new(1, 2, 3), block: Block::Stone }],
    };
    assert!(greedy_mesh(&chunk).is_empty());
}

#[test]
fn checkerboard_alternates_tiles() {
    let data = checkerboard_rgba(4, 2, 2);
    assert_eq!(data.len(), 4 * 2 * 4);
    let pixel = |x: usize, y: usize| -> [u8; 4] {
        let i = (y * 4 + x) * 4;
        [data[i], data[i + 1], data[i + 2], data[i + 3]]
    };
    assert_eq!(pixel(0, 0), [245, 245, 245, 255]);
    assert_eq!(pixel(1, 1), [245, 245, 245, 255]);
    assert_eq!(pixel(2, 0), [30, 30, 30, 255]);
    assert_eq!(pixel(3, 1), [30, 30, 30, 255]);
    // a tile size of zero counts as one
    let fine = checkerboard_rgba(2, 1, 0);
    assert_eq!(fine, vec![245, 245, 245, 255, 30, 30, 30, 255]);
    assert!(checkerboard_rgba(0, 5, 3).is_empty());
}

#[test]
fn mesh_fingerprint_is_the_standard_hash_of_both_parts() {
    let a = hash_mesh_bytes(&[1, 2, 3], &[4, 5]);
    let mut hasher = std::collections::hash_map::DefaultHasher::new();
    hasher.write(&[1, 2, 3]);
    hasher.write(&[4, 5]);
    assert_eq!(a, hasher.finish());
    assert_eq!(a, hash_mesh_bytes(&[1, 2, 3], &[4, 5]));
    assert_ne!(a, hash_mesh_bytes(&[1, 2, 3], &[4, 6]));
}
