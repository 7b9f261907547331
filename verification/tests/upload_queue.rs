use neosurv::world::block::BlockType;
use neosurv::world::chunk::{ChunkCoord, ChunkData, LocalCoord};
use neosurv::world::meshing::{build_chunk_mesh, ChunkMesh};
use neosurv::world::upload_queue::{
    chunk_distance_sq, upload_op_for, ChunkUploadOp, PendingChunkUploadQueue, GPU_CHUNK_VERTEX_BYTES,
};

fn upsert(coord: ChunkCoord, estimated_bytes: usize) -> ChunkUploadOp {
    ChunkUploadOp::Upsert {
        coord,
        mesh: ChunkMesh::default(),
        estimated_bytes,
    }
}

#[test]
fn chunk_upload_queue_deduplicates_latest_op_per_coord() {
    let coord = ChunkCoord::new(1, 0, 1);
    let mut queue = PendingChunkUploadQueue::new();
    queue.enqueue(upsert(coord, 128));
    queue.enqueue(ChunkUploadOp::Remove { coord });

    assert_eq!(queue.len(), 1);
    let best = queue.pop_best(&Vec::new(), Some(ChunkCoord::new(0, 0, 0)));
    assert!(matches!(best.map(|entry| entry.op), Some(ChunkUploadOp::Remove { coord: c }) if c == coord));
}

#[test]
fn newer_upsert_replaces_older_remove_for_same_coord() {
    let coord = ChunkCoord::new(2, 0, 2);
    let mut queue = PendingChunkUploadQueue::new();
    queue.enqueue(ChunkUploadOp::Remove { coord });
    queue.enqueue(upsert(coord, 256));

    assert_eq!(queue.len(), 1);
    let best = queue.pop_best(&Vec::new(), Some(ChunkCoord::new(0, 0, 0)));
    assert!(matches!(
        best.map(|entry| entry.op),
        Some(ChunkUploadOp::Upsert { coord: c, .. }) if c == coord
    ));
}

#[test]
fn chunk_upload_queue_prioritizes_visible_then_near_chunks() {
    let focus = ChunkCoord::new(0, 0, 0);
    let visible = ChunkCoord::new(2, 0, 0);
    let near = ChunkCoord::new(1, 0, 0);
    let far = ChunkCoord::new(7, 0, 0);
    let mut queue = PendingChunkUploadQueue::new();
    queue.enqueue(upsert(far, 256));
    queue.enqueue(upsert(near, 256));
    queue.enqueue(upsert(visible, 256));

    let visible_chunks = vec![visible];

    let first = queue.pop_best(&visible_chunks, Some(focus)).unwrap();
    assert_eq!(first.op.coord(), visible);

    let second = queue.pop_best(&visible_chunks, Some(focus)).unwrap();
    assert_eq!(second.op.coord(), near);
}

#[test]
fn chunk_upload_queue_prioritizes_remove_ops_first() {
    let focus = ChunkCoord::new(0, 0, 0);
    let remove_coord = ChunkCoord::new(9, 0, 0);
    let visible_coord = ChunkCoord::new(1, 0, 0);
    let mut queue = PendingChunkUploadQueue::new();
    queue.enqueue(upsert(visible_coord, 64));
    queue.enqueue(ChunkUploadOp::Remove { coord: remove_coord });

    let visible_chunks = vec![visible_coord];

    let first = queue.pop_best(&visible_chunks, Some(focus)).unwrap();
    assert!(matches!(first.op, ChunkUploadOp::Remove { coord } if coord == remove_coord));
}

#[test]
fn equal_priority_serves_most_recent_first() {
    let mut queue = PendingChunkUploadQueue::new();
    let a = ChunkCoord::new(1, 0, 0);
    let b = ChunkCoord::new(-1, 0, 0);
    queue.enqueue(upsert(a, 10));
    queue.enqueue(upsert(b, 10));
    let first = queue.pop_best(&Vec::new(), Some(ChunkCoord::new(0, 0, 0))).unwrap();
    assert_eq!(first.op.coord(), b);
    assert_eq!(first.sequence, 1);
    assert!(queue.pop_best(&Vec::new(), None).is_some());
    assert!(queue.pop_best(&Vec::new(), None).is_none());
}

#[test]
fn frame_budget_stops_after_the_first_upload_that_overflows() {
    let mut queue = PendingChunkUploadQueue::new();
    let focus = ChunkCoord::new(0, 0, 0);
    queue.enqueue(upsert(ChunkCoord::new(1, 0, 0), 300));
    queue.enqueue(upsert(ChunkCoord::new(2, 0, 0), 300));
    queue.enqueue(upsert(ChunkCoord::new(3, 0, 0), 300));
    queue.enqueue(ChunkUploadOp::Remove { coord: ChunkCoord::new(9, 9, 9) });

    let taken = queue.take_uploads(&Vec::new(), Some(focus), 700);
    let coords: Vec<ChunkCoord> = taken.iter().map(|e| e.op.coord()).collect();
    assert_eq!(
        coords,
        vec![ChunkCoord::new(9, 9, 9), ChunkCoord::new(1, 0, 0), ChunkCoord::new(2, 0, 0)]
    );
    assert_eq!(queue.len(), 1);

    let rest = queue.take_uploads(&Vec::new(), Some(focus), 700);
    assert_eq!(rest.len(), 1);
    assert_eq!(queue.len(), 0);
}

#[test]
fn first_upload_goes_even_when_larger_than_budget() {
    let mut queue = PendingChunkUploadQueue::new();
    queue.enqueue(upsert(ChunkCoord::new(1, 0, 0), 5000));
    queue.enqueue(upsert(ChunkCoord::new(2, 0, 0), 1));
    let taken = queue.take_uploads(&Vec::new(), Some(ChunkCoord::new(0, 0, 0)), 0);
    assert_eq!(taken.len(), 1);
    assert_eq!(taken[0].op.estimated_bytes(), 5000);
    assert_eq!(queue.len(), 1);
}

#[test]
fn squared_chunk_distance() {
    assert_eq!(chunk_distance_sq(ChunkCoord::new(1, 2, 3), ChunkCoord::new(-1, 0, 0)), 4 + 4 + 9);
    assert_eq!(chunk_distance_sq(ChunkCoord::new(5, 5, 5), ChunkCoord::new(5, 5, 5)), 0);
}

#[test]
fn new_meshes_become_uploads_and_empty_ones_removals() {
    let coord = ChunkCoord::new(1, 2, 3);
    let removal = upload_op_for(coord, ChunkMesh::new());
    assert!(matches!(removal, ChunkUploadOp::Remove { coord: c } if c == coord));

    let mut chunk = ChunkData::new(coord);
    chunk.set_block(LocalCoord::new(0, 0, 0), BlockType::Stone);
    let mesh = build_chunk_mesh(&chunk);
    let upload = upload_op_for(coord, mesh);
    assert!(!upload.is_remove());
    assert_eq!(upload.coord(), coord);
    // 24 vertices of 36 bytes and 36 indices of 4 bytes
    assert_eq!(upload.estimated_bytes(), 24 * GPU_CHUNK_VERTEX_BYTES + 36 * 4);
    assert_eq!(upload.estimated_bytes(), 1008);
}
