use neosurv::geometry::IVec3;
use neosurv::world::block::BlockType;
use neosurv::world::chunk::{ChunkCoord, ChunkData, LocalCoord};
use neosurv::world::meshing::{build_chunk_mesh, ChunkNeighborSolidity};
use neosurv::world::streaming::{
    build_result, find_surface_height_in_world, process_pending_block_writes, ChunkBuildOutput, ChunkBuildResult, ChunkJob, ChunkMeshUpdate, ChunkResidentState, PendingBlockWrite, VoxelWorld,
};

fn origin() -> IVec3 {
    IVec3::new(0, 0, 0)
}

fn empty_result(coord: ChunkCoord, revision: u64) -> ChunkBuildResult {
    ChunkBuildResult {
        coord,
        revision,
        chunk: ChunkData::new(coord),
        output: ChunkBuildOutput::BuiltEmptyButValid,
    }
}

fn solid_result(coord: ChunkCoord, revision: u64) -> ChunkBuildResult {
    let mut chunk = ChunkData::new(coord);
    chunk.set_block(LocalCoord::new(0, 0, 0), BlockType::Stone);
    let mesh = build_chunk_mesh(&chunk);
    ChunkBuildResult {
        coord,
        revision,
        chunk,
        output: ChunkBuildOutput::BuiltMesh(mesh),
    }
}

fn job_coords(jobs: &[ChunkJob]) -> Vec<(ChunkCoord, u64, bool)> {
    jobs.iter()
        .map(|job| match job {
            ChunkJob::Generate { coord, revision, .. } => (*coord, *revision, false),
            ChunkJob::Remesh { coord, revision, .. } => (*coord, *revision, true),
        })
        .collect()
}

/// A world that only requests the origin chunk and keeps everything within 8 chunks.
fn single_chunk_world() -> VoxelWorld {
    VoxelWorld::with_limits(0, 0, 8, 8, 16, 8)
}

/// Loads the origin chunk with a solid block: request, then take in the build.
fn load_origin(world: &mut VoxelWorld) {
    let coord = ChunkCoord::new(0, 0, 0);
    world.tick(origin(), Vec::new());
    let jobs = world.take_jobs();
    assert_eq!(job_coords(&jobs), vec![(coord, 1, false)]);
    let report = world.tick(origin(), vec![solid_result(coord, 1)]);
    assert_eq!(report.completed, 1);
}

#[test]
fn world_tick_submits_chunk_jobs() {
    let mut world = VoxelWorld::new();
    let report = world.tick(origin(), Vec::new());

    assert!(report.requested > 0);
    assert!(report.pending_chunks > 0);
    // nine by nine columns, five layers
    assert_eq!(report.requested, 9 * 9 * 5);
    assert_eq!(world.take_jobs().len(), 9 * 9 * 5);

    // nothing is asked twice while it is under way
    let again = world.tick(origin(), Vec::new());
    assert_eq!(again.requested, 0);
}

#[test]
fn closed_pipeline_gets_no_jobs() {
    let mut world = VoxelWorld::new();
    world.set_pipeline_open(false);
    let report = world.tick(origin(), Vec::new());
    assert_eq!(report.requested, 0);
    assert_eq!(report.pending_chunks, 0);
    assert!(world.take_jobs().is_empty());
}

#[test]
fn tick_evicts_chunks_outside_retention_radius() {
    let mut world = VoxelWorld::with_limits(0, 0, 1, 1, 16, 8);
    let far = ChunkCoord::new(6, 0, 6);
    let far_block = IVec3::new(6 * 16 + 1, 2, 6 * 16 + 3);

    world.tick(far_block, Vec::new());
    assert_eq!(job_coords(&world.take_jobs()), vec![(far, 1, false)]);
    world.tick(far_block, vec![solid_result(far, 1)]);
    assert!(world.is_loaded(far));
    assert_eq!(world.mesh_coords(), vec![far]);
    let updates = world.drain_mesh_updates(8);
    assert!(matches!(updates[0], ChunkMeshUpdate::Upsert { coord, .. } if coord == far));

    world.tick(origin(), Vec::new());

    assert!(!world.is_loaded(far));
    assert!(world.chunk_state(far).is_none());
    assert!(world.mesh_coords().is_empty());
    let updates = world.drain_mesh_updates(8);
    assert!(updates
        .iter()
        .any(|update| matches!(update, ChunkMeshUpdate::Remove { coord } if *coord == far)));
}

#[test]
fn tick_limits_chunk_integrations_per_frame() {
    let mut world = VoxelWorld::with_limits(1, 0, 64, 64, 2, 8);
    world.tick(origin(), Vec::new());
    assert_eq!(world.take_jobs().len(), 9);

    let done = vec![
        empty_result(ChunkCoord::new(0, 0, 0), 1),
        empty_result(ChunkCoord::new(1, 0, 0), 1),
        empty_result(ChunkCoord::new(-1, 0, 0), 1),
    ];
    let report = world.tick(origin(), done);

    assert_eq!(report.completed, 2);
    assert_eq!(world.loaded_chunk_count(), 2);

    // The backlogged chunk has no pending request any more, so the next tick asks for it
    // again and the older result that waited in the backlog is dropped as stale.
    let report = world.tick(origin(), Vec::new());
    assert_eq!(report.completed, 0);
    assert_eq!(world.loaded_chunk_count(), 2);
    assert!(world.has_pending_request(ChunkCoord::new(-1, 0, 0)));
}

#[test]
fn integrates_mesh_updates_for_renderer_upload_queue() {
    let mut world = single_chunk_world();
    let coord = ChunkCoord::new(0, 0, 0);
    world.tick(origin(), Vec::new());
    world.take_jobs();

    let report = world.tick(origin(), vec![solid_result(coord, 1)]);
    assert_eq!(report.completed, 1);

    let updates = world.drain_mesh_updates(4);
    assert!(updates
        .iter()
        .any(|update| matches!(update, ChunkMeshUpdate::Upsert { coord: c, .. } if *c == coord)));
    assert_eq!(world.pending_mesh_update_count(), 0);
}

#[test]
fn dirty_remesh_marking_is_deduplicated() {
    let mut world = single_chunk_world();
    load_origin(&mut world);
    let coord = ChunkCoord::new(0, 0, 0);

    assert!(world.mark_chunk_dirty_for_remesh(coord));
    assert!(!world.mark_chunk_dirty_for_remesh(coord));
    assert!(!world.mark_chunk_dirty_for_remesh(ChunkCoord::new(5, 5, 5)));
}

#[test]
fn integrating_changed_chunk_marks_loaded_neighbors_dirty() {
    let mut world = VoxelWorld::with_limits(1, 0, 8, 8, 16, 8);
    let center = ChunkCoord::new(0, 0, 0);
    let east = ChunkCoord::new(1, 0, 0);
    world.tick(origin(), Vec::new());
    world.take_jobs();
    world.tick(origin(), vec![empty_result(center, 1)]);
    assert!(world.take_jobs().is_empty());

    // the east neighbour arrives with a solid block: the centre is meshed again
    world.tick(origin(), vec![solid_result(east, 1)]);
    world.tick(origin(), Vec::new());
    let jobs = job_coords(&world.take_jobs());
    assert!(jobs.contains(&(center, 2, true)));
}

#[test]
fn integrating_unchanged_chunk_does_not_mark_neighbors_dirty() {
    let mut world = VoxelWorld::with_limits(1, 0, 8, 8, 16, 8);
    let center = ChunkCoord::new(0, 0, 0);
    let east = ChunkCoord::new(1, 0, 0);
    world.tick(origin(), Vec::new());
    world.take_jobs();
    world.tick(origin(), vec![empty_result(center, 1), solid_result(east, 1)]);
    world.tick(origin(), Vec::new());
    world.take_jobs();

    // a rebuild of the east chunk with the same blocks
    assert!(world.mark_chunk_dirty_for_remesh(east));
    world.tick(origin(), Vec::new());
    let jobs = job_coords(&world.take_jobs());
    assert_eq!(jobs, vec![(east, 2, true)]);
    world.tick(origin(), vec![solid_result(east, 2)]);
    world.tick(origin(), Vec::new());
    assert!(job_coords(&world.take_jobs()).is_empty());
}

#[test]
fn stale_chunk_completion_does_not_override_newer_state() {
    let mut world = single_chunk_world();
    load_origin(&mut world);
    let coord = ChunkCoord::new(0, 0, 0);
    world.drain_mesh_updates(8);

    assert!(world.mark_chunk_dirty_for_remesh(coord));
    world.tick(origin(), Vec::new());
    assert_eq!(job_coords(&world.take_jobs()), vec![(coord, 2, true)]);
    world.tick(origin(), vec![solid_result(coord, 2)]);
    world.drain_mesh_updates(8);
    let state = world.chunk_state(coord).unwrap();
    assert_eq!(state.integrated_revision, 2);

    let report = world.tick(origin(), vec![empty_result(coord, 1)]);

    assert_eq!(report.completed, 0);
    assert!(world.is_loaded(coord));
    assert_eq!(world.block_at_world(IVec3::new(0, 0, 0)), Some(BlockType::Stone));
    assert_eq!(world.mesh_coords(), vec![coord]);
    assert!(world.drain_mesh_updates(4).is_empty());
}

#[test]
fn dirty_chunk_marked_while_pending_requests_followup_remesh() {
    let mut world = single_chunk_world();
    load_origin(&mut world);
    let coord = ChunkCoord::new(0, 0, 0);

    assert!(world.mark_chunk_dirty_for_remesh(coord));
    world.tick(origin(), Vec::new());
    assert_eq!(job_coords(&world.take_jobs()), vec![(coord, 2, true)]);

    // marked again while revision 2 is being built: a rebuild is booked
    assert!(world.mark_chunk_dirty_for_remesh(coord));
    assert!(!world.mark_chunk_dirty_for_remesh(coord));
    let booked = world.chunk_state(coord).unwrap();
    assert_eq!(booked.requested_revision, 3);
    assert_eq!(booked.pending_revision, Some(2));
    assert!(booked.needs_remesh_after_pending);

    let report = world.tick(origin(), vec![solid_result(coord, 2)]);

    assert_eq!(report.completed, 1);
    let state = world.chunk_state(coord).unwrap();
    assert_eq!(state.requested_revision, 3);
    assert_eq!(state.pending_revision, Some(3));
    assert!(!state.needs_remesh_after_pending);
    assert_eq!(job_coords(&world.take_jobs()), vec![(coord, 3, true)]);
}

#[test]
fn resident_chunk_does_not_flicker_absent_on_failed_build_output() {
    let mut world = single_chunk_world();
    load_origin(&mut world);
    let coord = ChunkCoord::new(0, 0, 0);
    world.drain_mesh_updates(8);
    assert!(world.mark_chunk_dirty_for_remesh(coord));
    world.tick(origin(), Vec::new());
    world.take_jobs();

    let failed = ChunkBuildResult {
        coord,
        revision: 2,
        chunk: ChunkData::new(coord),
        output: ChunkBuildOutput::Failed,
    };
    let report = world.tick(origin(), vec![failed]);

    assert_eq!(report.completed, 1);
    assert_eq!(world.block_at_world(IVec3::new(0, 0, 0)), Some(BlockType::Stone));
    assert_eq!(world.mesh_coords(), vec![coord]);
    assert!(world.drain_mesh_updates(2).is_empty());
    let state = world.chunk_state(coord).unwrap();
    assert_eq!(state.resident_state, ChunkResidentState::Resident);
    assert_eq!(state.integrated_revision, 2);
}

#[test]
fn chunk_border_change_marks_loaded_neighbor_dirty() {
    let mut world = VoxelWorld::with_limits(1, 0, 8, 8, 16, 8);
    let center = ChunkCoord::new(0, 0, 0);
    let east = ChunkCoord::new(1, 0, 0);
    world.tick(origin(), Vec::new());
    world.take_jobs();
    world.tick(origin(), vec![empty_result(center, 1), empty_result(east, 1)]);
    // the east chunk arriving marked the centre; its rebuild comes back unchanged
    world.tick(origin(), Vec::new());
    assert_eq!(job_coords(&world.take_jobs()), vec![(center, 2, true)]);
    world.tick(origin(), vec![empty_result(center, 2)]);
    assert!(world.take_jobs().is_empty());

    let changed = world.set_block_world(IVec3::new(15, 0, 0), BlockType::Stone);
    assert!(changed);
    assert_eq!(world.block_at_world(IVec3::new(15, 0, 0)), Some(BlockType::Stone));
    assert!(!world.set_block_world(IVec3::new(15, 100, 0), BlockType::Stone));

    world.tick(origin(), Vec::new());
    let jobs = job_coords(&world.take_jobs());
    assert!(jobs.contains(&(center, 3, true)));
    assert!(jobs.contains(&(east, 2, true)));
}

#[test]
fn visible_chunk_filter_uses_distance_radius() {
    let mut world = VoxelWorld::with_limits(6, 0, 16, 16, 200, 8);
    let near = ChunkCoord::new(0, 0, -1);
    let far = ChunkCoord::new(6, 0, 6);
    world.tick(origin(), Vec::new());
    world.take_jobs();
    world.tick(origin(), vec![solid_result(far, 1), solid_result(near, 1)]);

    let visible = world.chunks_within_distance(origin(), 2);

    assert!(visible.contains(&near));
    assert!(!visible.contains(&far));

    let all = world.chunks_within_distance(origin(), 20);
    assert_eq!(all, vec![near, far]);
}

#[test]
fn a_build_is_taken_in_once() {
    let mut world = single_chunk_world();
    let coord = ChunkCoord::new(0, 0, 0);
    world.tick(origin(), Vec::new());
    world.take_jobs();
    world.tick(origin(), Vec::new());

    let first = solid_result(coord, 1);
    assert!(world.integrate_chunk_result(coord, first));
    let updates = world.pending_mesh_update_count();
    assert!(!world.integrate_chunk_result(coord, solid_result(coord, 1)));
    assert_eq!(world.pending_mesh_update_count(), updates);
    assert_eq!(world.chunk_state(coord).unwrap().integrated_revision, 1);
}

#[test]
fn a_rebuild_booked_during_a_build_follows_it() {
    let mut world = single_chunk_world();
    let coord = ChunkCoord::new(0, 0, 0);
    load_origin(&mut world);
    // the origin is loaded; ask for a rebuild, then book another while it is under way
    assert!(world.mark_chunk_dirty_for_remesh(coord));
    world.tick(origin(), Vec::new());
    assert_eq!(job_coords(&world.take_jobs()), vec![(coord, 2, true)]);
    assert!(world.mark_chunk_dirty_for_remesh(coord));
    assert!(!world.mark_chunk_dirty_for_remesh(coord));
    let state = world.chunk_state(coord).unwrap();
    assert_eq!(state.requested_revision, 3);
    assert!(state.needs_remesh_after_pending);

    // the build under way is still taken in, and the booked rebuild is sent at once
    world.tick(origin(), vec![solid_result(coord, 2)]);
    assert_eq!(world.chunk_state(coord).unwrap().integrated_revision, 2);
    assert_eq!(job_coords(&world.take_jobs()), vec![(coord, 3, true)]);
}

#[test]
fn worker_builds_mark_empty_chunks_as_empty() {
    let coord = ChunkCoord::new(2, -1, 3);
    let nb = ChunkNeighborSolidity::new();
    let empty = build_result(coord, 4, ChunkData::new(coord), &nb);
    assert_eq!(empty.coord, coord);
    assert_eq!(empty.revision, 4);
    assert!(matches!(empty.output, ChunkBuildOutput::BuiltEmptyButValid));

    let mut chunk = ChunkData::new(coord);
    chunk.set_block(LocalCoord::new(1, 2, 3), BlockType::Stone);
    let solid = build_result(coord, 5, chunk, &nb);
    match solid.output {
        ChunkBuildOutput::BuiltMesh(mesh) => {
            // one block shows its six faces: four vertices and six indices each
            assert_eq!(mesh.vertices.len(), 24);
            assert_eq!(mesh.indices.len(), 36);
        }
        _ => panic!("a solid block is meshed"),
    }
}

#[test]
fn surface_height_is_the_highest_solid_block_of_the_column() {
    let mut world = single_chunk_world();
    assert_eq!(find_surface_height_in_world(&world, 0, 0), None);
    load_origin(&mut world);
    assert_eq!(find_surface_height_in_world(&world, 0, 0), Some(0));
    assert_eq!(find_surface_height_in_world(&world, 1, 0), None);
    assert!(world.set_block_world(IVec3::new(0, 9, 0), BlockType::Dirt));
    assert_eq!(find_surface_height_in_world(&world, 0, 0), Some(9));
}

#[test]
fn block_writes_wait_for_their_chunk() {
    let mut world = single_chunk_world();
    load_origin(&mut world);
    let far = IVec3::new(100, 0, 0);
    let mut pending = vec![
        PendingBlockWrite { world: IVec3::new(0, 1, 0), block: BlockType::Dirt },
        PendingBlockWrite { world: far, block: BlockType::Stone },
        PendingBlockWrite { world: IVec3::new(0, 1, 0), block: BlockType::Grass },
    ];
    process_pending_block_writes(&mut world, &mut pending);
    assert_eq!(world.block_at_world(IVec3::new(0, 1, 0)), Some(BlockType::Grass));
    assert_eq!(pending.len(), 1);
    assert_eq!(pending[0].world, far);
}

#[test]
fn block_writes_are_tried_a_frame_at_a_time() {
    let mut world = single_chunk_world();
    let mut pending: Vec<PendingBlockWrite> = (0..5000)
        .map(|i| PendingBlockWrite { world: IVec3::new(1000 + i, 0, 0), block: BlockType::Stone })
        .collect();
    process_pending_block_writes(&mut world, &mut pending);
    assert_eq!(pending.len(), 5000);
    // the 904 writes that were not tried come first, then the 4096 that wait again
    assert_eq!(pending[0].world.x, 1000 + 4096);
    assert_eq!(pending[904].world.x, 1000);
}

#[test]
fn a_written_block_is_read_back() {
    let mut world = single_chunk_world();
    load_origin(&mut world);
    let at = IVec3::new(3, 4, 5);
    assert!(world.set_block_world(at, BlockType::Sand));
    assert_eq!(world.block_at_world(at), Some(BlockType::Sand));
    assert!(world.set_block_world(at, BlockType::Air));
    assert_eq!(world.block_at_world(at), None);
    assert!(!world.set_block_world(IVec3::new(-20, 4, 5), BlockType::Sand));
    assert_eq!(world.block_at_world(IVec3::new(-20, 4, 5)), None);
}
