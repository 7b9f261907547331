//! Terrain columns: which block stands at each height, given the column's surface height.
use vstd::prelude::*;

use crate::world::block::BlockType;
use crate::world::chunk::{ChunkCoord, ChunkData, LocalCoord, index_of, origin_fits};

verus! {

/// Height of the terrain's base level.
pub const BASE_HEIGHT: i32 = 8;

/// Largest swing of the terrain around its base level.
pub const TERRAIN_AMPLITUDE: i32 = 16;

/// Surfaces at or below this height are sand.
pub const SEA_LEVEL: i32 = 4;

/// The block at height `world_y` of a column whose surface is at `surface_height`: air above
/// the surface; at the surface sand up to the sea level and grass above it; dirt for three
/// blocks below the surface; stone further down.
pub open spec fn terrain_block(world_y: int, surface_height: int, sea_level: int) -> BlockType {
    if world_y > surface_height {
        BlockType::Air
    } else if world_y == surface_height {
        if world_y <= sea_level {
            BlockType::Sand
        } else {
            BlockType::Grass
        }
    } else if world_y >= surface_height - 3 {
        BlockType::Dirt
    } else {
        BlockType::Stone
    }
}

pub fn block_for_height(world_y: i32, surface_height: i32, sea_level: i32) -> (b: BlockType)
    requires
        surface_height >= i32::MIN + 3,
    ensures
        b == terrain_block(world_y as int, surface_height as int, sea_level as int),
{
    if world_y > surface_height {
        return BlockType::Air;
    }
    if world_y == surface_height {
        if world_y <= sea_level {
            return BlockType::Sand;
        }
        return BlockType::Grass;
    }
    if world_y >= surface_height - 3 {
        return BlockType::Dirt;
    }
    BlockType::Stone
}

/// The chunk at `coord` of a terrain whose surface height over world column
/// (16 * coord.x + x, 16 * coord.z + z) is `surface_heights[z * 16 + x]`.
pub fn generate_chunk(coord: ChunkCoord, surface_heights: &Vec<i32>, sea_level: i32) -> (chunk: ChunkData)
    requires
        origin_fits(coord),
        surface_heights.len() == 256,
        forall|i: int| 0 <= i < 256 ==> surface_heights@[i] >= i32::MIN + 3,
    ensures
        chunk.wf(),
        chunk.spec_coord() == coord,
        forall|l: LocalCoord|
            l.in_chunk() ==> #[trigger] chunk.block_at(l) == terrain_block(
                16 * coord.y + l.y,
                surface_heights@[l.z * 16 + l.x] as int,
                sea_level as int,
            ),
{
    let mut chunk = ChunkData::new(coord);
    let origin = coord.origin_world();
    let mut y: i32 = 0;
    while y < 16
        invariant
            chunk.wf(),
            chunk.spec_coord() == coord,
            origin.y == 16 * coord.y,
            origin_fits(coord),
            surface_heights.len() == 256,
            forall|i: int| 0 <= i < 256 ==> surface_heights@[i] >= i32::MIN + 3,
            0 <= y <= 16,
            forall|l: LocalCoord|
                l.in_chunk() && l.y < y ==> #[trigger] chunk.block_at(l) == terrain_block(
                    16 * coord.y + l.y,
                    surface_heights@[l.z * 16 + l.x] as int,
                    sea_level as int,
                ),
        decreases 16 - y,
    {
        let mut z: i32 = 0;
        while z < 16
            invariant
                chunk.wf(),
                chunk.spec_coord() == coord,
                origin.y == 16 * coord.y,
                origin_fits(coord),
                surface_heights.len() == 256,
                forall|i: int| 0 <= i < 256 ==> surface_heights@[i] >= i32::MIN + 3,
                0 <= y < 16,
                0 <= z <= 16,
                forall|l: LocalCoord|
                    l.in_chunk() && (l.y < y || (l.y == y && l.z < z)) ==> #[trigger] chunk.block_at(l)
                        == terrain_block(
                        16 * coord.y + l.y,
                        surface_heights@[l.z * 16 + l.x] as int,
                        sea_level as int,
                    ),
            decreases 16 - z,
        {
            let mut x: i32 = 0;
            while x < 16
                invariant
                    chunk.wf(),
                    chunk.spec_coord() == coord,
                    origin.y == 16 * coord.y,
                    origin_fits(coord),
                    surface_heights.len() == 256,
                    forall|i: int| 0 <= i < 256 ==> surface_heights@[i] >= i32::MIN + 3,
                    0 <= y < 16,
                    0 <= z < 16,
                    0 <= x <= 16,
                    forall|l: LocalCoord|
                        l.in_chunk() && (l.y < y || (l.y == y && l.z < z) || (l.y == y && l.z == z
                            && l.x < x)) ==> #[trigger] chunk.block_at(l) == terrain_block(
                            16 * coord.y + l.y,
                            surface_heights@[l.z * 16 + l.x] as int,
                            sea_level as int,
                        ),
                decreases 16 - x,
            {
                let world_y = origin.y + y;
                let surface_height = surface_heights[(z * 16 + x) as usize];
                let block = block_for_height(world_y, surface_height, sea_level);
                let here = LocalCoord::new(x as u8, y as u8, z as u8);
                assert(here.x == x && here.y == y && here.z == z);
                assert(world_y == 16 * coord.y + here.y);
                assert(surface_height == surface_heights@[here.z * 16 + here.x]);
                let ghost prev = chunk;
                chunk.set_block(here, block);
                proof {
                    assert forall|l: LocalCoord|
                        l.in_chunk() && (l.y < y || (l.y == y && l.z < z) || (l.y == y && l.z == z
                            && l.x < x + 1)) implies #[trigger] chunk.block_at(l) == terrain_block(
                            16 * coord.y + l.y,
                            surface_heights@[l.z * 16 + l.x] as int,
                            sea_level as int,
                        ) by {
                        crate::world::chunk::lemma_index_of_in_range(l);
                        crate::world::chunk::lemma_index_of_in_range(here);
                        assert(chunk.blocks() == prev.blocks().update(index_of(here), block));
                        if l == here {
                            assert(chunk.block_at(l) == block);
                        } else {
                            assert(index_of(l) != index_of(here));
                            assert(chunk.block_at(l) == prev.block_at(l));
                        }
                    }
                }
                x = x + 1;
            }
            z = z + 1;
        }
        y = y + 1;
    }
    chunk
}

} // verus!
