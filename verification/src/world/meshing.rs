//! Chunk meshing: one quad per maximal rectangle of visible block faces.
use vstd::prelude::*;

use crate::geometry::IVec3;
use crate::world::block::{BlockType, solid};
use crate::world::chunk::{ChunkData, LocalCoord, index_of, lemma_index_of_in_range, origin_fits};
use crate::world::greedy::{
    MaskRect, cell, greedy_merge_mask, greedy_tiling, in_grid, mask_index,
};

verus! {

/// Cells on one side of a chunk.
pub const FACE_AREA: usize = 256;

/// A mesh vertex on the integer grid: position, outward normal, texture coordinate, material.
#[derive(Clone, Copy, Debug, PartialEq, Eq)]
pub struct MeshVertex {
    pub position: [i64; 3],
    pub normal: [i32; 3],
    pub uv: [i32; 2],
    pub material_id: u32,
}

/// Triangle-list mesh of one chunk.
#[derive(Clone, Debug)]
pub struct ChunkMesh {
    pub vertices: Vec<MeshVertex>,
    pub indices: Vec<u32>,
}

impl ChunkMesh {
    pub fn new() -> (m: Self)
        ensures
            m.vertices@.len() == 0,
            m.indices@.len() == 0,
    {
        ChunkMesh { vertices: Vec::new(), indices: Vec::new() }
    }

    pub fn is_empty(&self) -> (e: bool)
        ensures
            e == (self.indices@.len() == 0),
    {
        self.indices.len() == 0
    }
}

impl Default for ChunkMesh {
    fn default() -> (m: Self)
        ensures
            m.vertices@.len() == 0,
            m.indices@.len() == 0,
    {
        ChunkMesh::new()
    }
}

/// The six directions a block face can point to.
#[derive(Clone, Copy, Debug, PartialEq, Eq, Structural)]
pub enum FaceDir {
    PosX,
    NegX,
    PosY,
    NegY,
    PosZ,
    NegZ,
}

/// The face directions in meshing order.
pub open spec fn face_at(i: int) -> FaceDir {
    if i == 0 {
        FaceDir::PosX
    } else if i == 1 {
        FaceDir::NegX
    } else if i == 2 {
        FaceDir::PosY
    } else if i == 3 {
        FaceDir::NegY
    } else if i == 4 {
        FaceDir::PosZ
    } else {
        FaceDir::NegZ
    }
}

pub open spec fn face_normal(f: FaceDir) -> [i32; 3] {
    match f {
        FaceDir::PosX => [1i32, 0, 0],
        FaceDir::NegX => [-1i32, 0, 0],
        FaceDir::PosY => [0i32, 1, 0],
        FaceDir::NegY => [0i32, -1i32, 0],
        FaceDir::PosZ => [0i32, 0, 1],
        FaceDir::NegZ => [0i32, 0, -1i32],
    }
}

pub open spec fn face_delta(f: FaceDir) -> (int, int, int) {
    match f {
        FaceDir::PosX => (1, 0, 0),
        FaceDir::NegX => (-1, 0, 0),
        FaceDir::PosY => (0, 1, 0),
        FaceDir::NegY => (0, -1, 0),
        FaceDir::PosZ => (0, 0, 1),
        FaceDir::NegZ => (0, 0, -1),
    }
}

/// Chunk-local position of cell (`a`, `b`) of slice `slice` for faces pointing along `f`.
pub open spec fn face_local(f: FaceDir, slice: int, a: int, b: int) -> (int, int, int) {
    match f {
        FaceDir::PosX | FaceDir::NegX => (slice, a, b),
        FaceDir::PosY | FaceDir::NegY => (a, slice, b),
        FaceDir::PosZ | FaceDir::NegZ => (b, a, slice),
    }
}

/// Texture tile of the face of `block` that points along `f`.
pub open spec fn tile_of(f: FaceDir, block: BlockType) -> u32 {
    match block {
        BlockType::Grass => match f {
            FaceDir::PosY => 0,
            FaceDir::NegY => 2,
            _ => 1,
        },
        BlockType::Stone => 3,
        BlockType::Sand => 4,
        BlockType::Dirt => 2,
        BlockType::BorderWall => 3,
        BlockType::Dummy => 4,
        BlockType::Air => 3,
    }
}

pub open spec fn in_chunk3(l: (int, int, int)) -> bool {
    0 <= l.0 < 16 && 0 <= l.1 < 16 && 0 <= l.2 < 16
}

pub open spec fn local3(l: (int, int, int)) -> LocalCoord {
    LocalCoord { x: l.0 as u8, y: l.1 as u8, z: l.2 as u8 }
}

/// The block at chunk-local position `l`: air outside the chunk.
pub open spec fn block_at3(chunk: ChunkData, l: (int, int, int)) -> BlockType {
    if in_chunk3(l) {
        chunk.block_at(local3(l))
    } else {
        BlockType::Air
    }
}

impl FaceDir {
    pub fn normal(self) -> (n: [i32; 3])
        ensures
            n == face_normal(self),
    {
        match self {
            FaceDir::PosX => [1, 0, 0],
            FaceDir::NegX => [-1, 0, 0],
            FaceDir::PosY => [0, 1, 0],
            FaceDir::NegY => [0, -1, 0],
            FaceDir::PosZ => [0, 0, 1],
            FaceDir::NegZ => [0, 0, -1],
        }
    }

    pub fn neighbor_delta(self) -> (d: IVec3)
        ensures
            (d.x as int, d.y as int, d.z as int) == face_delta(self),
    {
        match self {
            FaceDir::PosX => IVec3 { x: 1, y: 0, z: 0 },
            FaceDir::NegX => IVec3 { x: -1, y: 0, z: 0 },
            FaceDir::PosY => IVec3 { x: 0, y: 1, z: 0 },
            FaceDir::NegY => IVec3 { x: 0, y: -1, z: 0 },
            FaceDir::PosZ => IVec3 { x: 0, y: 0, z: 1 },
            FaceDir::NegZ => IVec3 { x: 0, y: 0, z: -1 },
        }
    }

    /// Number of slices and the extents of the two in-slice axes: 16 each way.
    pub fn dimensions(self) -> (d: (i32, i32, i32))
        ensures
            d == (16i32, 16i32, 16i32),
    {
        (16, 16, 16)
    }

    /// Chunk-local position of cell (`a`, `b`) of slice `slice`.
    pub fn local_coord(self, slice: i32, a: i32, b: i32) -> (l: IVec3)
        ensures
            (l.x as int, l.y as int, l.z as int) == face_local(self, slice as int, a as int, b as int),
    {
        match self {
            FaceDir::PosX | FaceDir::NegX => IVec3 { x: slice, y: a, z: b },
            FaceDir::PosY | FaceDir::NegY => IVec3 { x: a, y: slice, z: b },
            FaceDir::PosZ | FaceDir::NegZ => IVec3 { x: b, y: a, z: slice },
        }
    }

    pub fn texture_tile(self, block: BlockType) -> (t: u32)
        ensures
            t == tile_of(self, block),
    {
        match block {
            BlockType::Grass => match self {
                FaceDir::PosY => 0,
                FaceDir::NegY => 2,
                _ => 1,
            },
            BlockType::Stone => 3,
            BlockType::Sand => 4,
            BlockType::Dirt => 2,
            BlockType::BorderWall => 3,
            BlockType::Dummy => 4,
            BlockType::Air => 3,
        }
    }
}

pub fn face_dir_at(i: usize) -> (f: FaceDir)
    requires
        i < 6,
    ensures
        f == face_at(i as int),
{
    if i == 0 {
        FaceDir::PosX
    } else if i == 1 {
        FaceDir::NegX
    } else if i == 2 {
        FaceDir::PosY
    } else if i == 3 {
        FaceDir::NegY
    } else if i == 4 {
        FaceDir::PosZ
    } else {
        FaceDir::NegZ
    }
}

/// The block at chunk-local position `local`, air outside the chunk.
pub fn block_at(chunk: &ChunkData, local: IVec3) -> (b: BlockType)
    requires
        chunk.wf(),
    ensures
        b == block_at3(*chunk, (local.x as int, local.y as int, local.z as int)),
{
    match LocalCoord::try_from_ivec3(local) {
        Some(coord) => chunk.block(coord),
        None => BlockType::Air,
    }
}


proof fn lemma_pair_index(hi: int, lo: int)
    requires
        0 <= hi < 16,
        0 <= lo < 16,
    ensures
        0 <= hi * 16 + lo < 256,
        (hi * 16 + lo) / 16 == hi,
        (hi * 16 + lo) % 16 == lo,
{
    assert(0 <= hi * 16 + lo < 256 && (hi * 16 + lo) / 16 == hi && (hi * 16 + lo) % 16 == lo) by (nonlinear_arith)
        requires
            0 <= hi < 16,
            0 <= lo < 16,
    ;
}

/// Solidity of the chunk's blocks in the plane `x` = `x`, indexed by `y * 16 + z`.
pub open spec fn side_yz(chunk: ChunkData, x: int) -> Seq<bool> {
    Seq::new(256, |i: int| solid(chunk.block_at(LocalCoord { x: x as u8, y: (i / 16) as u8, z: (i % 16) as u8 })))
}

/// Solidity of the chunk's blocks in the plane `y` = `y`, indexed by `x * 16 + z`.
pub open spec fn side_xz(chunk: ChunkData, y: int) -> Seq<bool> {
    Seq::new(256, |i: int| solid(chunk.block_at(LocalCoord { x: (i / 16) as u8, y: y as u8, z: (i % 16) as u8 })))
}

/// Solidity of the chunk's blocks in the plane `z` = `z`, indexed by `y * 16 + x`.
pub open spec fn side_xy(chunk: ChunkData, z: int) -> Seq<bool> {
    Seq::new(256, |i: int| solid(chunk.block_at(LocalCoord { x: (i % 16) as u8, y: (i / 16) as u8, z: z as u8 })))
}

/// Which blocks are solid right outside each of the six sides of a chunk.
#[derive(Clone, Debug)]
pub struct ChunkNeighborSolidity {
    positive_x: Vec<bool>,
    negative_x: Vec<bool>,
    positive_y: Vec<bool>,
    negative_y: Vec<bool>,
    positive_z: Vec<bool>,
    negative_z: Vec<bool>,
}

/// Whether the block at chunk-local position `l`, just outside the chunk, is solid.
pub open spec fn sample_outside(nb: ChunkNeighborSolidity, l: (int, int, int)) -> bool {
    if 0 <= l.1 < 16 && 0 <= l.2 < 16 && l.0 == 16 {
        nb.pos_x()[l.1 * 16 + l.2]
    } else if 0 <= l.1 < 16 && 0 <= l.2 < 16 && l.0 == -1 {
        nb.neg_x()[l.1 * 16 + l.2]
    } else if 0 <= l.0 < 16 && 0 <= l.2 < 16 && l.1 == 16 {
        nb.pos_y()[l.0 * 16 + l.2]
    } else if 0 <= l.0 < 16 && 0 <= l.2 < 16 && l.1 == -1 {
        nb.neg_y()[l.0 * 16 + l.2]
    } else if 0 <= l.0 < 16 && 0 <= l.1 < 16 && l.2 == 16 {
        nb.pos_z()[l.1 * 16 + l.0]
    } else if 0 <= l.0 < 16 && 0 <= l.1 < 16 && l.2 == -1 {
        nb.neg_z()[l.1 * 16 + l.0]
    } else {
        false
    }
}

/// The block at chunk-local position `l`; outside the chunk, stone where the neighbour is
/// solid and air elsewhere.
pub open spec fn block_with_neighbors3(chunk: ChunkData, nb: ChunkNeighborSolidity, l: (int, int, int)) -> BlockType {
    if in_chunk3(l) {
        chunk.block_at(local3(l))
    } else if sample_outside(nb, l) {
        BlockType::Stone
    } else {
        BlockType::Air
    }
}

fn all_false(n: usize) -> (v: Vec<bool>)
    ensures
        v@ == Seq::new(n as nat, |i: int| false),
{
    let mut v: Vec<bool> = Vec::new();
    let mut i: usize = 0;
    while i < n
        invariant
            i <= n,
            v@ == Seq::new(i as nat, |j: int| false),
        decreases n - i,
    {
        v.push(false);
        i = i + 1;
    }
    v
}

impl ChunkNeighborSolidity {
    pub closed spec fn wf(&self) -> bool {
        &&& self.positive_x.len() == 256
        &&& self.negative_x.len() == 256
        &&& self.positive_y.len() == 256
        &&& self.negative_y.len() == 256
        &&& self.positive_z.len() == 256
        &&& self.negative_z.len() == 256
    }

    pub closed spec fn pos_x(&self) -> Seq<bool> {
        self.positive_x@
    }

    pub closed spec fn neg_x(&self) -> Seq<bool> {
        self.negative_x@
    }

    pub closed spec fn pos_y(&self) -> Seq<bool> {
        self.positive_y@
    }

    pub closed spec fn neg_y(&self) -> Seq<bool> {
        self.negative_y@
    }

    pub closed spec fn pos_z(&self) -> Seq<bool> {
        self.positive_z@
    }

    pub closed spec fn neg_z(&self) -> Seq<bool> {
        self.negative_z@
    }

    /// Nothing is solid on any side.
    pub open spec fn all_clear(&self) -> bool {
        &&& self.pos_x() == Seq::new(256, |i: int| false)
        &&& self.neg_x() == Seq::new(256, |i: int| false)
        &&& self.pos_y() == Seq::new(256, |i: int| false)
        &&& self.neg_y() == Seq::new(256, |i: int| false)
        &&& self.pos_z() == Seq::new(256, |i: int| false)
        &&& self.neg_z() == Seq::new(256, |i: int| false)
    }

    /// No neighbour is known: nothing outside the chunk is solid.
    pub fn new() -> (nb: Self)
        ensures
            nb.wf(),
            nb.all_clear(),
            nb.pos_x() == Seq::new(256, |i: int| false),
            nb.neg_x() == Seq::new(256, |i: int| false),
            nb.pos_y() == Seq::new(256, |i: int| false),
            nb.neg_y() == Seq::new(256, |i: int| false),
            nb.pos_z() == Seq::new(256, |i: int| false),
            nb.neg_z() == Seq::new(256, |i: int| false),
    {
        ChunkNeighborSolidity {
            positive_x: all_false(FACE_AREA),
            negative_x: all_false(FACE_AREA),
            positive_y: all_false(FACE_AREA),
            negative_y: all_false(FACE_AREA),
            positive_z: all_false(FACE_AREA),
            negative_z: all_false(FACE_AREA),
        }
    }

    /// Takes the `x` = 15 side of `chunk`, the neighbour on the positive x side.
    pub fn set_positive_x(&mut self, chunk: &ChunkData)
        requires
            old(self).wf(),
            chunk.wf(),
        ensures
            final(self).wf(),
            final(self).pos_x() == side_yz(*chunk, 15),
            final(self).neg_x() == old(self).neg_x(),
            final(self).pos_y() == old(self).pos_y(),
            final(self).neg_y() == old(self).neg_y(),
            final(self).pos_z() == old(self).pos_z(),
            final(self).neg_z() == old(self).neg_z(),
    {
        Self::populate_yz(&mut self.positive_x, chunk, 15);
    }

    /// Takes the `x` = 0 side of `chunk`, the neighbour on the negative x side.
    pub fn set_negative_x(&mut self, chunk: &ChunkData)
        requires
            old(self).wf(),
            chunk.wf(),
        ensures
            final(self).wf(),
            final(self).neg_x() == side_yz(*chunk, 0),
            final(self).pos_x() == old(self).pos_x(),
            final(self).pos_y() == old(self).pos_y(),
            final(self).neg_y() == old(self).neg_y(),
            final(self).pos_z() == old(self).pos_z(),
            final(self).neg_z() == old(self).neg_z(),
    {
        Self::populate_yz(&mut self.negative_x, chunk, 0);
    }

    /// Takes the `y` = 15 side of `chunk`, the neighbour on the positive y side.
    pub fn set_positive_y(&mut self, chunk: &ChunkData)
        requires
            old(self).wf(),
            chunk.wf(),
        ensures
            final(self).wf(),
            final(self).pos_y() == side_xz(*chunk, 15),
            final(self).pos_x() == old(self).pos_x(),
            final(self).neg_x() == old(self).neg_x(),
            final(self).neg_y() == old(self).neg_y(),
            final(self).pos_z() == old(self).pos_z(),
            final(self).neg_z() == old(self).neg_z(),
    {
        Self::populate_xz(&mut self.positive_y, chunk, 15);
    }

    /// Takes the `y` = 0 side of `chunk`, the neighbour on the negative y side.
    pub fn set_negative_y(&mut self, chunk: &ChunkData)
        requires
            old(self).wf(),
            chunk.wf(),
        ensures
            final(self).wf(),
            final(self).neg_y() == side_xz(*chunk, 0),
            final(self).pos_x() == old(self).pos_x(),
            final(self).neg_x() == old(self).neg_x(),
            final(self).pos_y() == old(self).pos_y(),
            final(self).pos_z() == old(self).pos_z(),
            final(self).neg_z() == old(self).neg_z(),
    {
        Self::populate_xz(&mut self.negative_y, chunk, 0);
    }

    /// Takes the `z` = 15 side of `chunk`, the neighbour on the positive z side.
    pub fn set_positive_z(&mut self, chunk: &ChunkData)
        requires
            old(self).wf(),
            chunk.wf(),
        ensures
            final(self).wf(),
            final(self).pos_z() == side_xy(*chunk, 15),
            final(self).pos_x() == old(self).pos_x(),
            final(self).neg_x() == old(self).neg_x(),
            final(self).pos_y() == old(self).pos_y(),
            final(self).neg_y() == old(self).neg_y(),
            final(self).neg_z() == old(self).neg_z(),
    {
        Self::populate_xy(&mut self.positive_z, chunk, 15);
    }

    /// Takes the `z` = 0 side of `chunk`, the neighbour on the negative z side.
    pub fn set_negative_z(&mut self, chunk: &ChunkData)
        requires
            old(self).wf(),
            chunk.wf(),
        ensures
            final(self).wf(),
            final(self).neg_z() == side_xy(*chunk, 0),
            final(self).pos_x() == old(self).pos_x(),
            final(self).neg_x() == old(self).neg_x(),
            final(self).pos_y() == old(self).pos_y(),
            final(self).neg_y() == old(self).neg_y(),
            final(self).pos_z() == old(self).pos_z(),
    {
        Self::populate_xy(&mut self.negative_z, chunk, 0);
    }

    fn populate_yz(target: &mut Vec<bool>, chunk: &ChunkData, x: u8)
        requires
            old(target).len() == 256,
            chunk.wf(),
            x < 16,
        ensures
            final(target)@ == side_yz(*chunk, x as int),
    {
        let mut y: u8 = 0;
        while y < 16
            invariant
                target.len() == 256,
                chunk.wf(),
                x < 16,
                y <= 16,
                forall|j: int| 0 <= j < y * 16 ==> target@[j] == side_yz(*chunk, x as int)[j],
            decreases 16 - y,
        {
            let mut z: u8 = 0;
            while z < 16
                invariant
                    target.len() == 256,
                    chunk.wf(),
                    x < 16,
                    y < 16,
                    z <= 16,
                    forall|j: int| 0 <= j < y * 16 + z ==> target@[j] == side_yz(*chunk, x as int)[j],
                decreases 16 - z,
            {
                let local = LocalCoord::new(x, y, z);
                proof {
                    lemma_pair_index(y as int, z as int);
                }
                let i = Self::yz_index(y as i32, z as i32);
                let v = chunk.block(local).is_solid();
                target.set(i, v);
                z = z + 1;
            }
            y = y + 1;
        }
        assert(target@ == side_yz(*chunk, x as int));
    }

    fn populate_xz(target: &mut Vec<bool>, chunk: &ChunkData, y: u8)
        requires
            old(target).len() == 256,
            chunk.wf(),
            y < 16,
        ensures
            final(target)@ == side_xz(*chunk, y as int),
    {
        let mut x: u8 = 0;
        while x < 16
            invariant
                target.len() == 256,
                chunk.wf(),
                y < 16,
                x <= 16,
                forall|j: int| 0 <= j < x * 16 ==> target@[j] == side_xz(*chunk, y as int)[j],
            decreases 16 - x,
        {
            let mut z: u8 = 0;
            while z < 16
                invariant
                    target.len() == 256,
                    chunk.wf(),
                    y < 16,
                    x < 16,
                    z <= 16,
                    forall|j: int| 0 <= j < x * 16 + z ==> target@[j] == side_xz(*chunk, y as int)[j],
                decreases 16 - z,
            {
                let local = LocalCoord::new(x, y, z);
                proof {
                    lemma_pair_index(x as int, z as int);
                }
                let i = Self::xz_index(x as i32, z as i32);
                let v = chunk.block(local).is_solid();
                target.set(i, v);
                z = z + 1;
            }
            x = x + 1;
        }
        assert(target@ == side_xz(*chunk, y as int));
    }

    fn populate_xy(target: &mut Vec<bool>, chunk: &ChunkData, z: u8)
        requires
            old(target).len() == 256,
            chunk.wf(),
            z < 16,
        ensures
            final(target)@ == side_xy(*chunk, z as int),
    {
        let mut y: u8 = 0;
        while y < 16
            invariant
                target.len() == 256,
                chunk.wf(),
                z < 16,
                y <= 16,
                forall|j: int| 0 <= j < y * 16 ==> target@[j] == side_xy(*chunk, z as int)[j],
            decreases 16 - y,
        {
            let mut x: u8 = 0;
            while x < 16
                invariant
                    target.len() == 256,
                    chunk.wf(),
                    z < 16,
                    y < 16,
                    x <= 16,
                    forall|j: int| 0 <= j < y * 16 + x ==> target@[j] == side_xy(*chunk, z as int)[j],
                decreases 16 - x,
            {
                let local = LocalCoord::new(x, y, z);
                proof {
                    lemma_pair_index(y as int, x as int);
                }
                let i = Self::xy_index(x as i32, y as i32);
                let v = chunk.block(local).is_solid();
                target.set(i, v);
                x = x + 1;
            }
            y = y + 1;
        }
        assert(target@ == side_xy(*chunk, z as int));
    }

    /// Whether the block at chunk-local `local`, right outside the chunk, is solid.
    pub fn sample_out_of_bounds(&self, local: IVec3) -> (b: bool)
        requires
            self.wf(),
        ensures
            b == sample_outside(*self, (local.x as int, local.y as int, local.z as int)),
    {
        if Self::in_bounds(local.y, 16) && Self::in_bounds(local.z, 16) {
            if local.x == 16 {
                return self.positive_x[Self::yz_index(local.y, local.z)];
            }
            if local.x == -1 {
                return self.negative_x[Self::yz_index(local.y, local.z)];
            }
        }
        if Self::in_bounds(local.x, 16) && Self::in_bounds(local.z, 16) {
            if local.y == 16 {
                return self.positive_y[Self::xz_index(local.x, local.z)];
            }
            if local.y == -1 {
                return self.negative_y[Self::xz_index(local.x, local.z)];
            }
        }
        if Self::in_bounds(local.x, 16) && Self::in_bounds(local.y, 16) {
            if local.z == 16 {
                return self.positive_z[Self::xy_index(local.x, local.y)];
            }
            if local.z == -1 {
                return self.negative_z[Self::xy_index(local.x, local.y)];
            }
        }
        false
    }

    pub fn in_bounds(value: i32, max: i32) -> (b: bool)
        ensures
            b == (0 <= value < max),
    {
        value >= 0 && value < max
    }

    pub fn yz_index(y: i32, z: i32) -> (i: usize)
        requires
            0 <= y < 16,
            0 <= z < 16,
        ensures
            i == y * 16 + z,
    {
        (y as usize * 16) + z as usize
    }

    pub fn xz_index(x: i32, z: i32) -> (i: usize)
        requires
            0 <= x < 16,
            0 <= z < 16,
        ensures
            i == x * 16 + z,
    {
        (x as usize * 16) + z as usize
    }

    pub fn xy_index(x: i32, y: i32) -> (i: usize)
        requires
            0 <= x < 16,
            0 <= y < 16,
        ensures
            i == y * 16 + x,
    {
        (y as usize * 16) + x as usize
    }
}

impl Default for ChunkNeighborSolidity {
    fn default() -> (nb: Self)
        ensures
            nb.wf(),
            nb.pos_x() == Seq::new(256, |i: int| false),
            nb.neg_x() == Seq::new(256, |i: int| false),
            nb.pos_y() == Seq::new(256, |i: int| false),
            nb.neg_y() == Seq::new(256, |i: int| false),
            nb.pos_z() == Seq::new(256, |i: int| false),
            nb.neg_z() == Seq::new(256, |i: int| false),
    {
        ChunkNeighborSolidity::new()
    }
}

/// The block at chunk-local `local`; outside the chunk, stone where the neighbour is solid and
/// air elsewhere.
pub fn block_at_with_neighbors(chunk: &ChunkData, neighbors: &ChunkNeighborSolidity, local: IVec3) -> (b: BlockType)
    requires
        chunk.wf(),
        neighbors.wf(),
    ensures
        b == block_with_neighbors3(*chunk, *neighbors, (local.x as int, local.y as int, local.z as int)),
{
    if let Some(coord) = LocalCoord::try_from_ivec3(local) {
        return chunk.block(coord);
    }
    if neighbors.sample_out_of_bounds(local) {
        BlockType::Stone
    } else {
        BlockType::Air
    }
}


/// Mask cell (`a`, `b`) of slice `slice` for faces along `f`: the face's texture tile when the
/// block there is solid and the block in front of the face is not, otherwise nothing.
pub open spec fn mask_cell(chunk: ChunkData, nb: ChunkNeighborSolidity, f: FaceDir, slice: int, a: int, b: int) -> Option<u32> {
    let l = face_local(f, slice, a, b);
    let block = block_at3(chunk, l);
    let d = face_delta(f);
    if !solid(block) {
        None
    } else if solid(block_with_neighbors3(chunk, nb, (l.0 + d.0, l.1 + d.1, l.2 + d.2))) {
        None
    } else {
        Some(tile_of(f, block))
    }
}

/// The visible-face mask of slice `slice` for faces along `f`, row-major in (`a`, `b`).
pub open spec fn face_mask(chunk: ChunkData, nb: ChunkNeighborSolidity, f: FaceDir, slice: int) -> Seq<Option<u32>> {
    Seq::new(256, |i: int| mask_cell(chunk, nb, f, slice, i % 16, i / 16))
}

/// Fills `mask` with the visible-face mask of one slice.
fn fill_face_mask(
    mask: &mut Vec<Option<u32>>,
    chunk: &ChunkData,
    neighbors: &ChunkNeighborSolidity,
    face: FaceDir,
    slice: i32,
)
    requires
        old(mask).len() == 256,
        chunk.wf(),
        neighbors.wf(),
        0 <= slice < 16,
    ensures
        final(mask)@ == face_mask(*chunk, *neighbors, face, slice as int),
{
    let ghost target = face_mask(*chunk, *neighbors, face, slice as int);
    let mut b: i32 = 0;
    while b < 16
        invariant
            mask.len() == 256,
            chunk.wf(),
            neighbors.wf(),
            0 <= slice < 16,
            0 <= b <= 16,
            target == face_mask(*chunk, *neighbors, face, slice as int),
            forall|j: int| 0 <= j < b * 16 ==> mask@[j] == target[j],
        decreases 16 - b,
    {
        let mut a: i32 = 0;
        while a < 16
            invariant
                mask.len() == 256,
                chunk.wf(),
                neighbors.wf(),
                0 <= slice < 16,
                0 <= b < 16,
                0 <= a <= 16,
                target == face_mask(*chunk, *neighbors, face, slice as int),
                forall|j: int| 0 <= j < b * 16 + a ==> mask@[j] == target[j],
            decreases 16 - a,
        {
            proof {
                lemma_pair_index(b as int, a as int);
            }
            let local = face.local_coord(slice, a, b);
            let block = block_at(chunk, local);
            let index = mask_index(16, a, b);
            if !block.is_solid() {
                mask.set(index, None);
            } else {
                let neighbor = block_at_with_neighbors(chunk, neighbors, local.offset(face.neighbor_delta()));
                if neighbor.is_solid() {
                    mask.set(index, None);
                } else {
                    mask.set(index, Some(face.texture_tile(block)));
                }
            }
            a = a + 1;
        }
        b = b + 1;
    }
    assert(mask@ == target);
}

/// A vertex at integer position `p`.
pub open spec fn vertex(p: (int, int, int), f: FaceDir, uv: (int, int), m: u32) -> MeshVertex {
    MeshVertex {
        position: [p.0 as i64, p.1 as i64, p.2 as i64],
        normal: face_normal(f),
        uv: [uv.0 as i32, uv.1 as i32],
        material_id: m,
    }
}

/// Corners of the quad of a face along `f` whose first cell is the block at (`x`, `y`, `z`) and
/// that spans `a` cells along the slice's first axis and `b` along its second, wound outwards.
pub open spec fn quad_corners(f: FaceDir, x: int, y: int, z: int, a: int, b: int) -> Seq<(int, int, int)> {
    match f {
        FaceDir::PosX => seq![(x + 1, y, z), (x + 1, y + a, z), (x + 1, y + a, z + b), (x + 1, y, z + b)],
        FaceDir::NegX => seq![(x, y, z + b), (x, y + a, z + b), (x, y + a, z), (x, y, z)],
        FaceDir::PosY => seq![(x, y + 1, z + b), (x + a, y + 1, z + b), (x + a, y + 1, z), (x, y + 1, z)],
        FaceDir::NegY => seq![(x, y, z), (x + a, y, z), (x + a, y, z + b), (x, y, z + b)],
        FaceDir::PosZ => seq![(x + b, y, z + 1), (x + b, y + a, z + 1), (x, y + a, z + 1), (x, y, z + 1)],
        FaceDir::NegZ => seq![(x, y, z), (x, y + a, z), (x + b, y + a, z), (x + b, y, z)],
    }
}

/// `d` is a step of one along one axis.
pub open spec fn unit_step(d: (int, int, int)) -> bool {
    ||| d == (1int, 0int, 0int)
    ||| d == (-1int, 0int, 0int)
    ||| d == (0int, 1int, 0int)
    ||| d == (0int, -1int, 0int)
    ||| d == (0int, 0int, 1int)
    ||| d == (0int, 0int, -1int)
}

/// `p` lies on the side of the unit cube at `q` that the unit step `d` points through: along the
/// axis of `d`, on the cube's far side (one further) when `d` points up the axis, on its near side
/// when it points down.
pub open spec fn on_side(p: (int, int, int), q: (int, int, int), d: (int, int, int)) -> bool {
    &&& d.0 > 0 ==> p.0 == q.0 + 1
    &&& d.0 < 0 ==> p.0 == q.0
    &&& d.1 > 0 ==> p.1 == q.1 + 1
    &&& d.1 < 0 ==> p.1 == q.1
    &&& d.2 > 0 ==> p.2 == q.2 + 1
    &&& d.2 < 0 ==> p.2 == q.2
}

/// Every corner of the quad for a face of the block at (`x`, `y`, `z`) lies on that face, the side
/// of the block that the face's normal points through; the normal is a unit step along one axis,
/// the step to the neighbour the face looks at.
pub proof fn law_quad_lies_on_its_face(f: FaceDir, x: int, y: int, z: int, a: int, b: int)
    ensures
        unit_step(face_delta(f)),
        face_normal(f)[0] == face_delta(f).0,
        face_normal(f)[1] == face_delta(f).1,
        face_normal(f)[2] == face_delta(f).2,
        quad_corners(f, x, y, z, a, b).len() == 4,
        forall|i: int| 0 <= i < 4 ==> on_side(#[trigger] quad_corners(f, x, y, z, a, b)[i], (x, y, z), face_delta(f)),
{
    broadcast use vstd::array::lemma_array_index;
    let n = face_normal(f);
    match f {
        FaceDir::PosX => { assert(n@ =~= seq![1i32, 0, 0]); },
        FaceDir::NegX => { assert(n@ =~= seq![-1i32, 0, 0]); },
        FaceDir::PosY => { assert(n@ =~= seq![0i32, 1, 0]); },
        FaceDir::NegY => { assert(n@ =~= seq![0i32, -1i32, 0]); },
        FaceDir::PosZ => { assert(n@ =~= seq![0i32, 0, 1]); },
        FaceDir::NegZ => { assert(n@ =~= seq![0i32, 0, -1i32]); },
    }
}

pub open spec fn sub3(p: (int, int, int), q: (int, int, int)) -> (int, int, int) {
    (p.0 - q.0, p.1 - q.1, p.2 - q.2)
}

pub open spec fn add3(p: (int, int, int), q: (int, int, int)) -> (int, int, int) {
    (p.0 + q.0, p.1 + q.1, p.2 + q.2)
}

pub open spec fn cross3(p: (int, int, int), q: (int, int, int)) -> (int, int, int) {
    (p.1 * q.2 - p.2 * q.1, p.2 * q.0 - p.0 * q.2, p.0 * q.1 - p.1 * q.0)
}

pub open spec fn dot3(p: (int, int, int), q: (int, int, int)) -> int {
    p.0 * q.0 + p.1 * q.1 + p.2 * q.2
}

/// The corner of cell (`u`, `w`) of slice `slice` on the face side along `f`, in a chunk whose
/// first block is at `o`: the cell's block position, moved one further along the axis when the
/// face looks up it.
pub open spec fn face_point(f: FaceDir, o: (int, int, int), slice: int, u: int, w: int) -> (int, int, int) {
    let l = face_local(f, slice, u, w);
    let d = face_delta(f);
    (
        o.0 + l.0 + if d.0 > 0 { 1int } else { 0int },
        o.1 + l.1 + if d.1 > 0 { 1int } else { 0int },
        o.2 + l.2 + if d.2 > 0 { 1int } else { 0int },
    )
}

/// The quad of a merged rectangle of `a` by `b` cells whose first cell is (`u`, `w`) of slice
/// `slice` is exactly that rectangle on the face side: its corners are the four corners of the
/// cells (`u` or `u + a`, `w` or `w + b`), it is a parallelogram, and it is wound so that it faces
/// outwards, along the face's normal, with area `a * b`.
pub proof fn law_quad_covers_its_cells(f: FaceDir, o: (int, int, int), slice: int, u: int, w: int, a: int, b: int)
    ensures
        ({
            let l = face_local(f, slice, u, w);
            let c = quad_corners(f, o.0 + l.0, o.1 + l.1, o.2 + l.2, a, b);
            &&& c.len() == 4
            &&& forall|k: int|
                0 <= k < 4 ==> {
                    ||| #[trigger] c[k] == face_point(f, o, slice, u, w)
                    ||| c[k] == face_point(f, o, slice, u + a, w)
                    ||| c[k] == face_point(f, o, slice, u, w + b)
                    ||| c[k] == face_point(f, o, slice, u + a, w + b)
                }
            &&& a != 0 && b != 0 ==> forall|k1: int, k2: int| 0 <= k1 < k2 < 4 ==> #[trigger] c[k1] != #[trigger] c[k2]
            &&& c[2] == add3(c[1], sub3(c[3], c[0]))
            &&& dot3(cross3(sub3(c[1], c[0]), sub3(c[3], c[0])), face_delta(f)) == a * b
        }),
{
    let l = face_local(f, slice, u, w);
    let c = quad_corners(f, o.0 + l.0, o.1 + l.1, o.2 + l.2, a, b);
    let e1 = sub3(c[1], c[0]);
    let e3 = sub3(c[3], c[0]);
    match f {
        FaceDir::PosX => {
            assert(e1 == (0int, a, 0int) && e3 == (0int, 0int, b));
            assert(dot3(cross3(e1, e3), face_delta(f)) == a * b) by (nonlinear_arith)
                requires e1 == (0int, a, 0int), e3 == (0int, 0int, b), face_delta(f) == (1int, 0int, 0int);
        },
        FaceDir::NegX => {
            assert(e1 == (0int, a, 0int) && e3 == (0int, 0int, -b));
            assert(dot3(cross3(e1, e3), face_delta(f)) == a * b) by (nonlinear_arith)
                requires e1 == (0int, a, 0int), e3 == (0int, 0int, -b), face_delta(f) == (-1int, 0int, 0int);
        },
        FaceDir::PosY => {
            assert(e1 == (a, 0int, 0int) && e3 == (0int, 0int, -b));
            assert(dot3(cross3(e1, e3), face_delta(f)) == a * b) by (nonlinear_arith)
                requires e1 == (a, 0int, 0int), e3 == (0int, 0int, -b), face_delta(f) == (0int, 1int, 0int);
        },
        FaceDir::NegY => {
            assert(e1 == (a, 0int, 0int) && e3 == (0int, 0int, b));
            assert(dot3(cross3(e1, e3), face_delta(f)) == a * b) by (nonlinear_arith)
                requires e1 == (a, 0int, 0int), e3 == (0int, 0int, b), face_delta(f) == (0int, -1int, 0int);
        },
        FaceDir::PosZ => {
            assert(e1 == (0int, a, 0int) && e3 == (-b, 0int, 0int));
            assert(dot3(cross3(e1, e3), face_delta(f)) == a * b) by (nonlinear_arith)
                requires e1 == (0int, a, 0int), e3 == (-b, 0int, 0int), face_delta(f) == (0int, 0int, 1int);
        },
        FaceDir::NegZ => {
            assert(e1 == (0int, a, 0int) && e3 == (b, 0int, 0int));
            assert(dot3(cross3(e1, e3), face_delta(f)) == a * b) by (nonlinear_arith)
                requires e1 == (0int, a, 0int), e3 == (b, 0int, 0int), face_delta(f) == (0int, 0int, -1int);
        },
    }
}

/// The four vertices of a quad with the given corners.
pub open spec fn corner_vertices(f: FaceDir, c: Seq<(int, int, int)>, a: int, b: int, m: u32) -> Seq<MeshVertex> {
    seq![vertex(c[0], f, (0, 0), m), vertex(c[1], f, (0, a), m), vertex(c[2], f, (b, a), m), vertex(c[3], f, (b, 0), m)]
}

/// The four vertices of the quad for rectangle `r` of slice `slice`, in a chunk whose first
/// block is at world position `o`.
pub open spec fn quad_vertices(f: FaceDir, o: (int, int, int), slice: int, r: MaskRect) -> Seq<MeshVertex> {
    let l = face_local(f, slice, r.a as int, r.b as int);
    corner_vertices(
        f,
        quad_corners(f, o.0 + l.0, o.1 + l.1, o.2 + l.2, r.width as int, r.height as int),
        r.width as int,
        r.height as int,
        r.material,
    )
}

/// The vertices of the quads of the first `n` rectangles of `rs`.
pub open spec fn rects_vertices(f: FaceDir, o: (int, int, int), slice: int, rs: Seq<MaskRect>, n: int) -> Seq<MeshVertex>
    decreases n,
{
    if n <= 0 {
        Seq::empty()
    } else {
        rects_vertices(f, o, slice, rs, n - 1) + quad_vertices(f, o, slice, rs[n - 1])
    }
}

/// The vertices of the quads of the first `n` slices, slice `s` merged into `rss[s]`.
pub open spec fn slices_vertices(f: FaceDir, o: (int, int, int), rss: Seq<Seq<MaskRect>>, n: int) -> Seq<MeshVertex>
    decreases n,
{
    if n <= 0 {
        Seq::empty()
    } else {
        slices_vertices(f, o, rss, n - 1) + rects_vertices(f, o, n - 1, rss[n - 1], rss[n - 1].len() as int)
    }
}

/// The vertices of the quads of the first `n` face directions.
pub open spec fn faces_vertices(o: (int, int, int), rsss: Seq<Seq<Seq<MaskRect>>>, n: int) -> Seq<MeshVertex>
    decreases n,
{
    if n <= 0 {
        Seq::empty()
    } else {
        faces_vertices(o, rsss, n - 1) + slices_vertices(face_at(n - 1), o, rsss[n - 1], 16)
    }
}

/// Two triangles per quad, over vertices `4 q .. 4 q + 4` of quad `q`.
pub open spec fn quad_indices(q: nat) -> Seq<u32>
    decreases q,
{
    if q == 0 {
        Seq::empty()
    } else {
        let b = 4 * (q - 1);
        quad_indices((q - 1) as nat) + seq![b as u32, (b + 1) as u32, (b + 2) as u32, b as u32, (b + 2) as u32, (b + 3) as u32]
    }
}

/// The slices of face direction `f` are merged greedily: `rss[s]` is the merging of slice `s`.
pub open spec fn face_tilings(chunk: ChunkData, nb: ChunkNeighborSolidity, f: FaceDir, rss: Seq<Seq<MaskRect>>) -> bool {
    &&& rss.len() == 16
    &&& forall|s: int| 0 <= s < 16 ==> greedy_tiling(face_mask(chunk, nb, f, s), 16, 16, #[trigger] rss[s])
}

/// Every slice of every face direction is merged greedily.
pub open spec fn chunk_tilings(chunk: ChunkData, nb: ChunkNeighborSolidity, rsss: Seq<Seq<Seq<MaskRect>>>) -> bool {
    &&& rsss.len() == 6
    &&& forall|i: int| 0 <= i < 6 ==> face_tilings(chunk, nb, face_at(i), #[trigger] rsss[i])
}

/// The mesh of a chunk whose first block is at world position `o`, for the merged rectangles
/// `rsss`: every quad's four vertices, and two triangles per quad.
pub open spec fn mesh_of(o: (int, int, int), rsss: Seq<Seq<Seq<MaskRect>>>, vertices: Seq<MeshVertex>, indices: Seq<u32>) -> bool {
    &&& vertices == faces_vertices(o, rsss, 6)
    &&& vertices.len() % 4 == 0
    &&& indices == quad_indices(vertices.len() / 4)
}

fn append_quad(mesh: &mut ChunkMesh, corners: [[i64; 3]; 4], normal: [i32; 3], a_len: i32, b_len: i32, material_id: u32)
    requires
        old(mesh).vertices.len() % 4 == 0,
        old(mesh).vertices.len() + 4 <= u32::MAX,
        old(mesh).indices@ == quad_indices(old(mesh).vertices.len() as nat / 4),
    ensures
        final(mesh).vertices@ == old(mesh).vertices@ + seq![
            MeshVertex { position: corners[0], normal, uv: [0, 0], material_id },
            MeshVertex { position: corners[1], normal, uv: [0, a_len], material_id },
            MeshVertex { position: corners[2], normal, uv: [b_len, a_len], material_id },
            MeshVertex { position: corners[3], normal, uv: [b_len, 0], material_id },
        ],
        final(mesh).indices@ == quad_indices(final(mesh).vertices.len() as nat / 4),
{
    let base_index = mesh.vertices.len() as u32;
    let ghost q = mesh.vertices.len() as nat / 4;
    mesh.vertices.push(MeshVertex { position: corners[0], normal, uv: [0, 0], material_id });
    mesh.vertices.push(MeshVertex { position: corners[1], normal, uv: [0, a_len], material_id });
    mesh.vertices.push(MeshVertex { position: corners[2], normal, uv: [b_len, a_len], material_id });
    mesh.vertices.push(MeshVertex { position: corners[3], normal, uv: [b_len, 0], material_id });
    mesh.indices.push(base_index);
    mesh.indices.push(base_index + 1);
    mesh.indices.push(base_index + 2);
    mesh.indices.push(base_index);
    mesh.indices.push(base_index + 2);
    mesh.indices.push(base_index + 3);
    assert(mesh.vertices.len() as nat / 4 == q + 1);
}


/// Appends the quad of a merged face whose first cell is the block at `base_world`.
fn append_merged_face(mesh: &mut ChunkMesh, face: FaceDir, base_world: IVec3, a_len: i32, b_len: i32, material_id: u32)
    requires
        old(mesh).vertices.len() % 4 == 0,
        old(mesh).vertices.len() + 4 <= u32::MAX,
        old(mesh).indices@ == quad_indices(old(mesh).vertices.len() as nat / 4),
    ensures
        final(mesh).vertices@ == old(mesh).vertices@ + corner_vertices(
            face,
            quad_corners(face, base_world.x as int, base_world.y as int, base_world.z as int, a_len as int, b_len as int),
            a_len as int,
            b_len as int,
            material_id,
        ),
        final(mesh).indices@ == quad_indices(final(mesh).vertices.len() as nat / 4),
{
    let x = base_world.x as i64;
    let y = base_world.y as i64;
    let z = base_world.z as i64;
    let a = a_len as i64;
    let b = b_len as i64;
    let corners: [[i64; 3]; 4] = match face {
        FaceDir::PosX => [[x + 1, y, z], [x + 1, y + a, z], [x + 1, y + a, z + b], [x + 1, y, z + b]],
        FaceDir::NegX => [[x, y, z + b], [x, y + a, z + b], [x, y + a, z], [x, y, z]],
        FaceDir::PosY => [[x, y + 1, z + b], [x + a, y + 1, z + b], [x + a, y + 1, z], [x, y + 1, z]],
        FaceDir::NegY => [[x, y, z], [x + a, y, z], [x + a, y, z + b], [x, y, z + b]],
        FaceDir::PosZ => [[x + b, y, z + 1], [x + b, y + a, z + 1], [x, y + a, z + 1], [x, y, z + 1]],
        FaceDir::NegZ => [[x, y, z], [x, y + a, z], [x + b, y + a, z], [x + b, y, z]],
    };
    let normal = face.normal();
    let ghost c = quad_corners(face, x as int, y as int, z as int, a as int, b as int);
    assert(corners[0] == [c[0].0 as i64, c[0].1 as i64, c[0].2 as i64]);
    assert(corners[1] == [c[1].0 as i64, c[1].1 as i64, c[1].2 as i64]);
    assert(corners[2] == [c[2].0 as i64, c[2].1 as i64, c[2].2 as i64]);
    assert(corners[3] == [c[3].0 as i64, c[3].1 as i64, c[3].2 as i64]);
    append_quad(mesh, corners, normal, a_len, b_len, material_id);
}

fn none_mask(n: usize) -> (v: Vec<Option<u32>>)
    ensures
        v@.len() == n,
{
    let mut v: Vec<Option<u32>> = Vec::new();
    let mut i: usize = 0;
    while i < n
        invariant
            i <= n,
            v@.len() == i,
        decreases n - i,
    {
        v.push(None);
        i = i + 1;
    }
    v
}

/// Appends the quads of all visible faces along `face`, slice by slice.
fn mesh_face_direction(
    chunk: &ChunkData,
    neighbors: &ChunkNeighborSolidity,
    chunk_origin: IVec3,
    face: FaceDir,
    mesh: &mut ChunkMesh,
) -> (rss: Ghost<Seq<Seq<MaskRect>>>)
    requires
        chunk.wf(),
        neighbors.wf(),
        chunk_origin.x % 16 == 0,
        chunk_origin.y % 16 == 0,
        chunk_origin.z % 16 == 0,
        old(mesh).vertices.len() % 4 == 0,
        old(mesh).vertices.len() <= 81920,
        old(mesh).indices@ == quad_indices(old(mesh).vertices.len() as nat / 4),
    ensures
        face_tilings(*chunk, *neighbors, face, rss@),
        final(mesh).vertices@ == old(mesh).vertices@ + slices_vertices(
            face,
            (chunk_origin.x as int, chunk_origin.y as int, chunk_origin.z as int),
            rss@,
            16,
        ),
        final(mesh).vertices.len() % 4 == 0,
        final(mesh).vertices.len() <= old(mesh).vertices.len() + 16384,
        final(mesh).indices@ == quad_indices(final(mesh).vertices.len() as nat / 4),
{
    let ghost o = (chunk_origin.x as int, chunk_origin.y as int, chunk_origin.z as int);
    let ghost start = mesh.vertices@;
    let ghost mut rss: Seq<Seq<MaskRect>> = Seq::empty();
    let mut mask = none_mask(256);
    let mut slice: i32 = 0;
    while slice < 16
        invariant
            chunk.wf(),
            neighbors.wf(),
            chunk_origin.x % 16 == 0,
            chunk_origin.y % 16 == 0,
            chunk_origin.z % 16 == 0,
            o == (chunk_origin.x as int, chunk_origin.y as int, chunk_origin.z as int),
            0 <= slice <= 16,
            mask@.len() == 256,
            rss.len() == slice,
            forall|s: int| 0 <= s < slice ==> greedy_tiling(face_mask(*chunk, *neighbors, face, s), 16, 16, #[trigger] rss[s]),
            mesh.vertices@ == start + slices_vertices(face, o, rss, slice as int),
            mesh.vertices.len() % 4 == 0,
            start.len() <= 81920,
            mesh.vertices.len() <= start.len() + slice * 1024,
            mesh.indices@ == quad_indices(mesh.vertices.len() as nat / 4),
        decreases 16 - slice,
    {
        fill_face_mask(&mut mask, chunk, neighbors, face, slice);
        let ghost m = mask@;
        let rects = greedy_merge_mask(&mut mask, 16, 16);
        let ghost before = mesh.vertices@;
        let mut k: usize = 0;
        while k < rects.len()
            invariant
                chunk_origin.x % 16 == 0,
                chunk_origin.y % 16 == 0,
                chunk_origin.z % 16 == 0,
                o == (chunk_origin.x as int, chunk_origin.y as int, chunk_origin.z as int),
                0 <= slice < 16,
                rects@.len() <= 256,
                greedy_tiling(m, 16, 16, rects@),
                k <= rects.len(),
                mesh.vertices@ == before + rects_vertices(face, o, slice as int, rects@, k as int),
                before.len() % 4 == 0,
                before.len() <= 81920 + slice * 1024,
                mesh.vertices.len() == before.len() + 4 * k,
                mesh.indices@ == quad_indices(mesh.vertices.len() as nat / 4),
            decreases rects.len() - k,
        {
            let r = rects[k];
            assert(crate::world::greedy::rect_fits(m, 16, 16, rects@[k as int]));
            let local = face.local_coord(slice, r.a, r.b);
            let base_world = chunk_origin.offset(local);
            append_merged_face(mesh, face, base_world, r.width, r.height, r.material);
            k = k + 1;
        }
        proof {
            let new_rss = rss.push(rects@);
            assert(slices_vertices(face, o, new_rss, slice + 1) == slices_vertices(face, o, rss, slice as int)
                + rects_vertices(face, o, slice as int, rects@, rects@.len() as int)) by {
                assert(new_rss[slice as int] == rects@);
                assert(slices_vertices(face, o, new_rss, slice as int) == slices_vertices(face, o, rss, slice as int)) by {
                    lemma_slices_prefix(face, o, rss, new_rss, slice as int);
                }
            }
            rss = new_rss;
        }
        slice = slice + 1;
    }
    Ghost(rss)
}

proof fn lemma_slices_prefix(f: FaceDir, o: (int, int, int), rss: Seq<Seq<MaskRect>>, rss2: Seq<Seq<MaskRect>>, n: int)
    requires
        0 <= n <= rss.len(),
        n <= rss2.len(),
        forall|s: int| 0 <= s < n ==> rss[s] == rss2[s],
    ensures
        slices_vertices(f, o, rss, n) == slices_vertices(f, o, rss2, n),
    decreases n,
{
    if n > 0 {
        lemma_slices_prefix(f, o, rss, rss2, n - 1);
    }
}

proof fn lemma_faces_prefix(o: (int, int, int), rsss: Seq<Seq<Seq<MaskRect>>>, rsss2: Seq<Seq<Seq<MaskRect>>>, n: int)
    requires
        0 <= n <= rsss.len(),
        n <= rsss2.len(),
        forall|s: int| 0 <= s < n ==> rsss[s] == rsss2[s],
    ensures
        faces_vertices(o, rsss, n) == faces_vertices(o, rsss2, n),
    decreases n,
{
    if n > 0 {
        lemma_faces_prefix(o, rsss, rsss2, n - 1);
    }
}

/// The mesh of `chunk` with nothing solid around it.
pub fn build_chunk_mesh(chunk: &ChunkData) -> (mesh: ChunkMesh)
    requires
        chunk.wf(),
        origin_fits(chunk.spec_coord()),
    ensures
        exists|nb: ChunkNeighborSolidity, rsss: Seq<Seq<Seq<MaskRect>>>| #![trigger chunk_tilings(*chunk, nb, rsss)]
            nb.wf() && nb.all_clear() && chunk_tilings(*chunk, nb, rsss) && mesh_of(
                chunk_origin_of(*chunk),
                rsss,
                mesh.vertices@,
                mesh.indices@,
            ),
{
    let neighbors = ChunkNeighborSolidity::new();
    build_chunk_mesh_with_neighbors(chunk, &neighbors)
}

/// World position of the first block of `chunk`.
pub open spec fn chunk_origin_of(chunk: ChunkData) -> (int, int, int) {
    (16 * chunk.spec_coord().x, 16 * chunk.spec_coord().y, 16 * chunk.spec_coord().z)
}

/// The mesh of `chunk`: for each face direction and each slice, one quad per rectangle of the
/// greedy merging of the slice's visible faces. A face is visible where its block is solid and
/// the block in front of it, inside the chunk or as `neighbors` tells, is not.
pub fn build_chunk_mesh_with_neighbors(chunk: &ChunkData, neighbors: &ChunkNeighborSolidity) -> (mesh: ChunkMesh)
    requires
        chunk.wf(),
        neighbors.wf(),
        origin_fits(chunk.spec_coord()),
    ensures
        exists|rsss: Seq<Seq<Seq<MaskRect>>>| #![trigger chunk_tilings(*chunk, *neighbors, rsss)]
            chunk_tilings(*chunk, *neighbors, rsss) && mesh_of(
                chunk_origin_of(*chunk),
                rsss,
                mesh.vertices@,
                mesh.indices@,
            ),
{
    let mut mesh = ChunkMesh::new();
    let chunk_origin = chunk.coord().origin_world();
    let ghost o = (chunk_origin.x as int, chunk_origin.y as int, chunk_origin.z as int);
    let ghost mut rsss: Seq<Seq<Seq<MaskRect>>> = Seq::empty();
    let mut i: usize = 0;
    while i < 6
        invariant
            chunk.wf(),
            neighbors.wf(),
            chunk_origin.x % 16 == 0,
            chunk_origin.y % 16 == 0,
            chunk_origin.z % 16 == 0,
            o == (chunk_origin.x as int, chunk_origin.y as int, chunk_origin.z as int),
            o == chunk_origin_of(*chunk),
            i <= 6,
            rsss.len() == i,
            forall|j: int| 0 <= j < i ==> face_tilings(*chunk, *neighbors, face_at(j), #[trigger] rsss[j]),
            mesh.vertices@ == faces_vertices(o, rsss, i as int),
            mesh.vertices.len() % 4 == 0,
            mesh.vertices.len() <= i * 16384,
            mesh.indices@ == quad_indices(mesh.vertices.len() as nat / 4),
        decreases 6 - i,
    {
        let face = face_dir_at(i);
        let rss = mesh_face_direction(chunk, neighbors, chunk_origin, face, &mut mesh);
        proof {
            let new_rsss = rsss.push(rss@);
            lemma_faces_prefix(o, rsss, new_rsss, i as int);
            assert(new_rsss[i as int] == rss@);
            rsss = new_rsss;
        }
        i = i + 1;
    }
    proof {
        assert(chunk_tilings(*chunk, *neighbors, rsss));
    }
    mesh
}

} // verus!
