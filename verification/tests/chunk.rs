use neosurv::geometry::IVec3;
use neosurv::world::block::BlockType;
use neosurv::world::chunk::{split_world_position, ChunkCoord, ChunkData, LocalCoord};

#[test]
fn local_world_roundtrip_handles_negative_space() {
    let samples = [
        IVec3::new(0, 0, 0),
        IVec3::new(15, 15, 15),
        IVec3::new(16, 0, 0),
        IVec3::new(-1, -1, -1),
        IVec3::new(-16, -16, -16),
        IVec3::new(-17, 31, 33),
    ];

    for world in samples {
        let (chunk, local) = split_world_position(world);
        let rebuilt = chunk.world_from_local(local);
        assert_eq!(rebuilt, world);
    }
}

#[test]
fn chunk_index_roundtrip() {
    let mut chunk = ChunkData::new(ChunkCoord::new(0, 0, 0));
    chunk.fill(BlockType::Air);

    let local = LocalCoord::new(4, 9, 13);
    chunk.set_block(local, BlockType::Stone);

    assert_eq!(chunk.block(local), BlockType::Stone);
    assert_eq!(chunk.iter_solid_blocks().len(), 1);
}

#[test]
fn negative_world_positions_split_into_lower_chunks() {
    let (chunk, local) = split_world_position(IVec3::new(-1, -17, 32));
    assert_eq!(chunk, ChunkCoord::new(-1, -2, 2));
    assert_eq!((local.x, local.y, local.z), (15, 15, 0));
    assert_eq!(ChunkCoord::from_world(IVec3::new(-16, 15, 16)), ChunkCoord::new(-1, 0, 1));
    assert_eq!(ChunkCoord::new(-1, 2, 0).origin_world(), IVec3::new(-16, 32, 0));
}

#[test]
fn block_index_layout_is_x_then_z_then_y() {
    let local = LocalCoord::new(1, 2, 3);
    let index = ChunkData::index(local);
    assert_eq!(index, 2 * 256 + 3 * 16 + 1);
    let back = ChunkData::local_from_index(index);
    assert_eq!((back.x, back.y, back.z), (1, 2, 3));
    assert_eq!(ChunkData::volume(), 4096);
}

#[test]
fn fill_and_emptiness() {
    let mut chunk = ChunkData::new(ChunkCoord::new(2, 0, 0));
    assert!(chunk.is_empty());
    chunk.fill(BlockType::Dirt);
    assert!(!chunk.is_empty());
    assert_eq!(chunk.iter_solid_blocks().len(), 4096);
    assert_eq!(chunk.block_world(IVec3::new(33, 4, 4)), Some(BlockType::Dirt));
    assert_eq!(chunk.block_world(IVec3::new(3, 4, 4)), None);
    assert!(LocalCoord::try_from_ivec3(IVec3::new(16, 0, 0)).is_none());
    assert!(LocalCoord::try_from_ivec3(IVec3::new(15, 0, 3)).is_some());
}

#[test]
fn block_kinds() {
    assert!(!BlockType::Air.is_solid());
    assert!(BlockType::Sand.is_solid());
    assert_eq!(BlockType::Stone.material_id(), 3);
    assert_eq!(BlockType::Dummy.material_id(), 6);
    assert_eq!(BlockType::default(), BlockType::Air);
}

#[test]
fn a_block_past_the_edge_is_addressed_by_its_flat_position() {
    let mut chunk = ChunkData::new(ChunkCoord::new(0, 0, 0));
    chunk.set_block(LocalCoord::new(16, 0, 0), BlockType::Stone);
    assert_eq!(chunk.block(LocalCoord::new(0, 0, 1)), BlockType::Stone);
    assert_eq!(chunk.block(LocalCoord::new(16, 0, 0)), BlockType::Stone);
    assert_eq!(chunk.block(LocalCoord::new(0, 0, 0)), BlockType::Air);
}
