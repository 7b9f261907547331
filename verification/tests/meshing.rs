use neosurv::world::block::BlockType;
use neosurv::world::chunk::{ChunkCoord, ChunkData, LocalCoord};
use neosurv::world::greedy::{greedy_merge_mask, mask_index};
use neosurv::world::meshing::{
    build_chunk_mesh, build_chunk_mesh_with_neighbors, ChunkMesh, ChunkNeighborSolidity, FaceDir,
};

fn quad_count(mesh: &ChunkMesh) -> usize {
    mesh.indices.len() / 6
}

fn assert_indices_in_bounds(mesh: &ChunkMesh) {
    assert!(mesh
        .indices
        .iter()
        .all(|index| (*index as usize) < mesh.vertices.len()));
}

#[test]
fn mesher_outputs_cube_surface_only() {
    let mut chunk = ChunkData::new(ChunkCoord::new(0, 0, 0));
    chunk.set_block(LocalCoord::new(0, 0, 0), BlockType::Stone);

    let mesh = build_chunk_mesh(&chunk);

    assert_eq!(mesh.vertices.len(), 24);
    assert_eq!(mesh.indices.len(), 36);
    assert_indices_in_bounds(&mesh);
}

#[test]
fn greedy_merges_rectangular_prism_into_six_quads() {
    let mut chunk = ChunkData::new(ChunkCoord::new(0, 0, 0));
    for x in 0..2 {
        for y in 0..2 {
            for z in 0..2 {
                chunk.set_block(LocalCoord::new(x, y, z), BlockType::Stone);
            }
        }
    }

    let mesh = build_chunk_mesh(&chunk);

    assert_eq!(quad_count(&mesh), 6);
    assert_eq!(mesh.vertices.len(), 24);
    assert_eq!(mesh.indices.len(), 36);
    assert_indices_in_bounds(&mesh);
}

#[test]
fn greedy_preserves_internal_cavity_faces() {
    let mut chunk = ChunkData::new(ChunkCoord::new(0, 0, 0));

    for x in 0..3 {
        for y in 0..3 {
            for z in 0..3 {
                chunk.set_block(LocalCoord::new(x, y, z), BlockType::Stone);
            }
        }
    }

    chunk.set_block(LocalCoord::new(1, 1, 1), BlockType::Air);

    let mesh = build_chunk_mesh(&chunk);

    // outer surface: 6 merged quads; the cavity around the centre: 6 more
    assert_eq!(quad_count(&mesh), 12);
    assert_indices_in_bounds(&mesh);
}

#[test]
fn greedy_does_not_merge_across_hole() {
    let mut chunk = ChunkData::new(ChunkCoord::new(0, 0, 0));

    for x in 0..3 {
        for z in 0..3 {
            if x == 1 && z == 1 {
                continue;
            }

            chunk.set_block(LocalCoord::new(x, 0, z), BlockType::Stone);
        }
    }

    let mesh = build_chunk_mesh(&chunk);

    // top and bottom split into 4 quads each around the hole, 4 outer and 4 inner sides
    assert_eq!(quad_count(&mesh), 16);
    assert_indices_in_bounds(&mesh);
}

#[test]
fn mesher_output_is_deterministic_for_same_chunk_data() {
    let mut chunk = ChunkData::new(ChunkCoord::new(0, 0, 0));

    let blocks = [
        LocalCoord::new(0, 0, 0),
        LocalCoord::new(1, 0, 0),
        LocalCoord::new(1, 1, 0),
        LocalCoord::new(2, 1, 1),
        LocalCoord::new(2, 2, 1),
        LocalCoord::new(3, 2, 2),
    ];

    for local in blocks {
        chunk.set_block(local, BlockType::Stone);
    }

    let first = build_chunk_mesh(&chunk);
    let second = build_chunk_mesh(&chunk);

    assert_eq!(first.indices, second.indices);
    assert_eq!(first.vertices.len(), second.vertices.len());

    for (a, b) in first.vertices.iter().zip(second.vertices.iter()) {
        assert_eq!(a.position, b.position);
        assert_eq!(a.normal, b.normal);
        assert_eq!(a.uv, b.uv);
        assert_eq!(a.material_id, b.material_id);
    }
}

#[test]
fn mesher_culls_boundary_faces_against_adjacent_solid_chunk() {
    let mut left = ChunkData::new(ChunkCoord::new(0, 0, 0));
    let mut right = ChunkData::new(ChunkCoord::new(1, 0, 0));
    left.fill(BlockType::Stone);
    right.fill(BlockType::Stone);

    let no_neighbor_mesh = build_chunk_mesh(&left);

    let mut neighbors = ChunkNeighborSolidity::default();
    neighbors.set_positive_x(&right);
    let neighbor_aware_mesh = build_chunk_mesh_with_neighbors(&left, &neighbors);

    assert_eq!(quad_count(&no_neighbor_mesh), 6);
    assert_eq!(quad_count(&neighbor_aware_mesh), 5);
    assert_indices_in_bounds(&neighbor_aware_mesh);
}

#[test]
fn two_adjacent_solid_chunks_do_not_emit_internal_boundary_faces() {
    let mut left = ChunkData::new(ChunkCoord::new(0, 0, 0));
    let mut right = ChunkData::new(ChunkCoord::new(1, 0, 0));
    left.fill(BlockType::Stone);
    right.fill(BlockType::Stone);

    let left_without_neighbors = build_chunk_mesh(&left);
    let right_without_neighbors = build_chunk_mesh(&right);

    let mut left_neighbors = ChunkNeighborSolidity::default();
    left_neighbors.set_positive_x(&right);
    let left_with_neighbors = build_chunk_mesh_with_neighbors(&left, &left_neighbors);

    let mut right_neighbors = ChunkNeighborSolidity::default();
    right_neighbors.set_negative_x(&left);
    let right_with_neighbors = build_chunk_mesh_with_neighbors(&right, &right_neighbors);

    assert_eq!(quad_count(&left_without_neighbors), 6);
    assert_eq!(quad_count(&right_without_neighbors), 6);

    // one internal boundary quad is removed from each chunk
    assert_eq!(quad_count(&left_with_neighbors), 5);
    assert_eq!(quad_count(&right_with_neighbors), 5);

    assert_eq!(
        quad_count(&left_without_neighbors) + quad_count(&right_without_neighbors),
        quad_count(&left_with_neighbors) + quad_count(&right_with_neighbors) + 2
    );
}

#[test]
fn empty_chunk_gives_empty_mesh() {
    let chunk = ChunkData::new(ChunkCoord::new(3, -2, 5));
    let mesh = build_chunk_mesh(&chunk);
    assert!(mesh.is_empty());
    assert!(mesh.vertices.is_empty());
    assert!(ChunkMesh::default().is_empty());
}

#[test]
fn single_block_quad_positions_are_in_world_space() {
    let mut chunk = ChunkData::new(ChunkCoord::new(1, 0, -1));
    chunk.set_block(LocalCoord::new(2, 3, 4), BlockType::Grass);
    let mesh = build_chunk_mesh(&chunk);
    assert_eq!(mesh.vertices.len(), 24);
    for v in &mesh.vertices {
        assert!(v.position[0] == 18 || v.position[0] == 19);
        assert!(v.position[1] == 3 || v.position[1] == 4);
        assert!(v.position[2] == -12 || v.position[2] == -11);
        assert!(v.material_id <= 2);
        let n = v.normal;
        assert_eq!(n[0].abs() + n[1].abs() + n[2].abs(), 1);
    }
}

#[test]
fn greedy_merge_of_full_mask_is_one_rectangle() {
    let mut mask = vec![Some(7u32); 6];
    let rects = greedy_merge_mask(&mut mask, 3, 2);
    assert_eq!(rects.len(), 1);
    assert_eq!((rects[0].a, rects[0].b, rects[0].width, rects[0].height), (0, 0, 3, 2));
    assert_eq!(rects[0].material, 7);
    assert!(mask.iter().all(|cell| cell.is_none()));
}

#[test]
fn greedy_merge_keeps_different_tiles_apart() {
    // row 0: 1 1 2 ; row 1: 1 1 2
    let mut mask = vec![Some(1u32), Some(1), Some(2), Some(1), Some(1), Some(2)];
    let rects = greedy_merge_mask(&mut mask, 3, 2);
    assert_eq!(rects.len(), 2);
    assert_eq!((rects[0].a, rects[0].b, rects[0].width, rects[0].height), (0, 0, 2, 2));
    assert_eq!((rects[1].a, rects[1].b, rects[1].width, rects[1].height), (2, 0, 1, 2));
    assert_eq!(mask_index(3, 2, 1), 5);
}

#[test]
fn face_directions() {
    assert_eq!(FaceDir::PosX.normal(), [1, 0, 0]);
    assert_eq!(FaceDir::NegY.normal(), [0, -1, 0]);
    assert_eq!(FaceDir::PosX.texture_tile(BlockType::Grass), 1);
    assert_eq!(FaceDir::PosY.texture_tile(BlockType::Grass), 0);
    assert_eq!(FaceDir::NegY.texture_tile(BlockType::Grass), 2);
    assert_eq!(FaceDir::NegZ.texture_tile(BlockType::Stone), 3);
}
