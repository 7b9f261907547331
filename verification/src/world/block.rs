//! Block kinds of the voxel world.
use vstd::prelude::*;

verus! {

#[derive(Clone, Copy, Debug, PartialEq, Eq, Hash, Structural)]
pub enum BlockType {
    Air,
    Grass,
    Dirt,
    Stone,
    Sand,
    BorderWall,
    Dummy,
}

/// Every block but air is solid.
pub open spec fn solid(block: BlockType) -> bool {
    block != BlockType::Air
}

/// The material number of a block: its position in the list of kinds.
pub open spec fn material_of(block: BlockType) -> u32 {
    match block {
        BlockType::Air => 0,
        BlockType::Grass => 1,
        BlockType::Dirt => 2,
        BlockType::Stone => 3,
        BlockType::Sand => 4,
        BlockType::BorderWall => 5,
        BlockType::Dummy => 6,
    }
}

impl BlockType {
    pub fn is_solid(self) -> (b: bool)
        ensures
            b == solid(self),
    {
        match self {
            BlockType::Air => false,
            _ => true,
        }
    }

    pub fn material_id(self) -> (m: u32)
        ensures
            m == material_of(self),
    {
        match self {
            BlockType::Air => 0,
            BlockType::Grass => 1,
            BlockType::Dirt => 2,
            BlockType::Stone => 3,
            BlockType::Sand => 4,
            BlockType::BorderWall => 5,
            BlockType::Dummy => 6,
        }
    }
}

impl Default for BlockType {
    fn default() -> (b: Self)
        ensures
            b == BlockType::Air,
    {
        BlockType::Air
    }
}

} // verus!
