//! Chunks of 16 × 16 × 16 blocks and the coordinates that address them.
use vstd::prelude::*;

use crate::geometry::IVec3;
use crate::world::block::{BlockType, solid};

verus! {

pub const CHUNK_SIZE_X: i32 = 16;

pub const CHUNK_SIZE_Y: i32 = 16;

pub const CHUNK_SIZE_Z: i32 = 16;

/// Number of blocks in a chunk.
pub const CHUNK_VOLUME: usize = 4096;

/// `v` divided by 16, rounded towards negative infinity.
pub fn floor_div16(v: i32) -> (q: i32)
    ensures
        q == (v as int) / 16,
{
    if v >= 0 {
        v / 16
    } else {
        let n = -(v + 1);
        let q = -(n / 16) - 1;
        assert(q == (v as int) / 16) by (nonlinear_arith)
            requires
                n == -(v + 1),
                0 <= n,
                q == -(n / 16) - 1,
        ;
        q
    }
}

/// `v` modulo 16, in `0 .. 16`.
pub fn rem16(v: i32) -> (r: i32)
    ensures
        r == (v as int) % 16,
        0 <= r < 16,
{
    let q = floor_div16(v);
    let r = (v as i64 - 16 * (q as i64)) as i32;
    assert(r == (v as int) % 16) by (nonlinear_arith)
        requires
            q == (v as int) / 16,
            r == v - 16 * q,
    ;
    r
}

/// Position of a chunk in the grid of chunks.
#[derive(Clone, Copy, Debug, PartialEq, Eq, Hash, Structural)]
pub struct ChunkCoord {
    pub x: i32,
    pub y: i32,
    pub z: i32,
}

/// The chunk grid position of a block's first corner, `16 * coord`, fits in `i32`.
pub open spec fn origin_fits(c: ChunkCoord) -> bool {
    i32::MIN <= 16 * c.x <= i32::MAX && i32::MIN <= 16 * c.y <= i32::MAX && i32::MIN <= 16 * c.z
        <= i32::MAX
}

/// The chunk that holds world block `w`.
pub open spec fn chunk_of(w: IVec3) -> ChunkCoord {
    ChunkCoord { x: (w.x / 16) as i32, y: (w.y / 16) as i32, z: (w.z / 16) as i32 }
}

/// The position of world block `w` inside its chunk.
pub open spec fn local_of(w: IVec3) -> LocalCoord {
    LocalCoord { x: (w.x % 16) as u8, y: (w.y % 16) as u8, z: (w.z % 16) as u8 }
}

impl ChunkCoord {
    pub fn new(x: i32, y: i32, z: i32) -> (c: Self)
        ensures
            c.x == x,
            c.y == y,
            c.z == z,
    {
        ChunkCoord { x, y, z }
    }

    /// The chunk that holds world block `world`.
    pub fn from_world(world: IVec3) -> (c: Self)
        ensures
            c == chunk_of(world),
            origin_fits(c),
    {
        let c = ChunkCoord { x: floor_div16(world.x), y: floor_div16(world.y), z: floor_div16(world.z) };
        assert(origin_fits(c)) by (nonlinear_arith)
            requires
                c.x == (world.x as int) / 16,
                c.y == (world.y as int) / 16,
                c.z == (world.z as int) / 16,
        ;
        c
    }

    /// The world position of the chunk's first block.
    pub fn origin_world(self) -> (w: IVec3)
        requires
            origin_fits(self),
        ensures
            w.x == 16 * self.x,
            w.y == 16 * self.y,
            w.z == 16 * self.z,
    {
        IVec3 { x: self.x * CHUNK_SIZE_X, y: self.y * CHUNK_SIZE_Y, z: self.z * CHUNK_SIZE_Z }
    }

    /// The world position of block `local` of this chunk.
    pub fn world_from_local(self, local: LocalCoord) -> (w: IVec3)
        requires
            origin_fits(self),
            i32::MIN <= 16 * self.x + local.x <= i32::MAX,
            i32::MIN <= 16 * self.y + local.y <= i32::MAX,
            i32::MIN <= 16 * self.z + local.z <= i32::MAX,
        ensures
            w.x == 16 * self.x + local.x,
            w.y == 16 * self.y + local.y,
            w.z == 16 * self.z + local.z,
    {
        let o = self.origin_world();
        let l = local.as_ivec3();
        IVec3 { x: o.x + l.x, y: o.y + l.y, z: o.z + l.z }
    }
}

/// Position of a block inside its chunk.
#[derive(Clone, Copy, Debug, PartialEq, Eq, Hash, Structural)]
pub struct LocalCoord {
    pub x: u8,
    pub y: u8,
    pub z: u8,
}

impl LocalCoord {
    /// The coordinate addresses a block of a chunk.
    pub open spec fn in_chunk(self) -> bool {
        self.x < 16 && self.y < 16 && self.z < 16
    }

    pub fn new(x: u8, y: u8, z: u8) -> (l: Self)
        ensures
            l.x == x,
            l.y == y,
            l.z == z,
    {
        LocalCoord { x, y, z }
    }

    pub fn as_ivec3(self) -> (v: IVec3)
        ensures
            v.x == self.x,
            v.y == self.y,
            v.z == self.z,
    {
        IVec3 { x: self.x as i32, y: self.y as i32, z: self.z as i32 }
    }

    /// The local coordinate with the same components, when they all lie in `0 .. 16`.
    pub fn try_from_ivec3(value: IVec3) -> (l: Option<Self>)
        ensures
            l == (if 0 <= value.x < 16 && 0 <= value.y < 16 && 0 <= value.z < 16 {
                Some(LocalCoord { x: value.x as u8, y: value.y as u8, z: value.z as u8 })
            } else {
                None
            }),
    {
        if value.x < 0 || value.x >= CHUNK_SIZE_X || value.y < 0 || value.y >= CHUNK_SIZE_Y
            || value.z < 0 || value.z >= CHUNK_SIZE_Z {
            return None;
        }
        Some(LocalCoord { x: value.x as u8, y: value.y as u8, z: value.z as u8 })
    }
}

/// Position of block `l` in a chunk's block list: x fastest, then z, then y.
pub open spec fn index_of(l: LocalCoord) -> int {
    (l.y * 16 + l.z) * 16 + l.x
}

/// The block at position `i` of a chunk's block list.
pub open spec fn local_at(i: int) -> LocalCoord {
    LocalCoord { x: (i % 16) as u8, y: (i / 256) as u8, z: ((i / 16) % 16) as u8 }
}

/// The entries `(position, block)` of the solid blocks among the first `n` of `blocks`, in order.
pub open spec fn solid_entries(blocks: Seq<BlockType>, n: int) -> Seq<(LocalCoord, BlockType)>
    decreases n,
{
    if n <= 0 {
        Seq::empty()
    } else if solid(blocks[n - 1]) {
        solid_entries(blocks, n - 1).push((local_at(n - 1), blocks[n - 1]))
    } else {
        solid_entries(blocks, n - 1)
    }
}

pub proof fn lemma_index_of_in_range(l: LocalCoord)
    requires
        l.in_chunk(),
    ensures
        0 <= index_of(l) < 4096,
        local_at(index_of(l)) == l,
{
    let i = index_of(l);
    assert(i % 16 == l.x && (i / 16) % 16 == l.z && i / 256 == l.y && 0 <= i < 4096) by (nonlinear_arith)
        requires
            i == (l.y * 16 + l.z) * 16 + l.x,
            0 <= l.x < 16,
            0 <= l.y < 16,
            0 <= l.z < 16,
    ;
}

pub proof fn lemma_local_at_in_range(i: int)
    requires
        0 <= i < 4096,
    ensures
        local_at(i).in_chunk(),
        index_of(local_at(i)) == i,
{
    assert(0 <= i % 16 < 16 && 0 <= (i / 16) % 16 < 16 && 0 <= i / 256 < 16 && ((i / 256) * 16 + (i
        / 16) % 16) * 16 + i % 16 == i) by (nonlinear_arith)
        requires
            0 <= i < 4096,
    ;
}

/// The blocks of one chunk.
#[derive(Clone, Debug)]
pub struct ChunkData {
    coord: ChunkCoord,
    blocks: Vec<BlockType>,
}

impl ChunkData {
    /// The chunk holds one block per position.
    pub open spec fn wf(&self) -> bool {
        self.blocks().len() == 4096
    }

    /// The chunk's blocks, in block-list order.
    pub closed spec fn blocks(&self) -> Seq<BlockType> {
        self.blocks@
    }

    pub closed spec fn spec_coord(&self) -> ChunkCoord {
        self.coord
    }

    /// The block at `l`.
    pub open spec fn block_at(&self, l: LocalCoord) -> BlockType {
        self.blocks()[index_of(l)]
    }

    /// A chunk of air at `coord`.
    pub fn new(coord: ChunkCoord) -> (c: Self)
        ensures
            c.wf(),
            c.spec_coord() == coord,
            c.blocks() == Seq::new(4096, |i: int| BlockType::Air),
    {
        let mut blocks: Vec<BlockType> = Vec::new();
        let mut i: usize = 0;
        while i < CHUNK_VOLUME
            invariant
                i <= 4096,
                blocks@ == Seq::new(i as nat, |j: int| BlockType::Air),
            decreases 4096 - i,
        {
            blocks.push(BlockType::Air);
            i = i + 1;
        }
        ChunkData { coord, blocks }
    }

    pub fn coord(&self) -> (c: ChunkCoord)
        ensures
            c == self.spec_coord(),
    {
        self.coord
    }

    /// The block at `local`. Components past the chunk's edge still address the block list by
    /// their flat position, which must lie within it.
    pub fn block(&self, local: LocalCoord) -> (b: BlockType)
        requires
            self.wf(),
            index_of(local) < 4096,
        ensures
            b == self.block_at(local),
    {
        let i = Self::index(local);
        self.blocks[i]
    }

    /// Sets the block at `local`, addressed by its flat position as in `block`.
    pub fn set_block(&mut self, local: LocalCoord, block: BlockType)
        requires
            old(self).wf(),
            index_of(local) < 4096,
        ensures
            final(self).wf(),
            final(self).spec_coord() == old(self).spec_coord(),
            final(self).blocks() == old(self).blocks().update(index_of(local), block),
    {
        let i = Self::index(local);
        self.blocks.set(i, block);
    }

    pub fn fill(&mut self, block: BlockType)
        requires
            old(self).wf(),
        ensures
            final(self).wf(),
            final(self).spec_coord() == old(self).spec_coord(),
            final(self).blocks() == Seq::new(4096, |i: int| block),
    {
        let mut i: usize = 0;
        while i < self.blocks.len()
            invariant
                self.blocks.len() == 4096,
                i <= 4096,
                self.coord == old(self).coord,
                forall|j: int| 0 <= j < i ==> self.blocks@[j] == block,
            decreases 4096 - i,
        {
            self.blocks.set(i, block);
            i = i + 1;
        }
        assert(self.blocks@ == Seq::new(4096, |i: int| block));
    }

    /// A copy of the chunk.
    pub fn duplicate(&self) -> (c: Self)
        ensures
            c.spec_coord() == self.spec_coord(),
            c.blocks() == self.blocks(),
    {
        let mut blocks: Vec<BlockType> = Vec::new();
        let mut i: usize = 0;
        while i < self.blocks.len()
            invariant
                i <= self.blocks@.len(),
                blocks@ == self.blocks@.take(i as int),
            decreases self.blocks@.len() - i,
        {
            blocks.push(self.blocks[i]);
            i = i + 1;
            assert(blocks@ == self.blocks@.take(i as int));
        }
        assert(self.blocks@.take(self.blocks@.len() as int) == self.blocks@);
        ChunkData { coord: self.coord, blocks }
    }

    /// Whether `other` is the same chunk with the same blocks.
    pub fn same_as(&self, other: &ChunkData) -> (b: bool)
        ensures
            b == (self.spec_coord() == other.spec_coord() && self.blocks() == other.blocks()),
    {
        if self.coord != other.coord || self.blocks.len() != other.blocks.len() {
            return false;
        }
        let mut i: usize = 0;
        while i < self.blocks.len()
            invariant
                self.blocks@.len() == other.blocks@.len(),
                i <= self.blocks@.len(),
                forall|j: int| 0 <= j < i ==> self.blocks@[j] == other.blocks@[j],
            decreases self.blocks@.len() - i,
        {
            if self.blocks[i] != other.blocks[i] {
                return false;
            }
            i = i + 1;
        }
        assert(self.blocks@ =~= other.blocks@);
        true
    }

    /// Whether the chunk holds no solid block.
    pub fn is_empty(&self) -> (e: bool)
        requires
            self.wf(),
        ensures
            e == forall|i: int| 0 <= i < 4096 ==> !solid(#[trigger] self.blocks()[i]),
    {
        let mut i: usize = 0;
        while i < self.blocks.len()
            invariant
                self.blocks.len() == 4096,
                i <= 4096,
                forall|j: int| 0 <= j < i ==> !solid(#[trigger] self.blocks@[j]),
            decreases 4096 - i,
        {
            if self.blocks[i].is_solid() {
                assert(solid(self.blocks()[i as int]));
                return false;
            }
            i = i + 1;
        }
        true
    }

    /// The position of world block `world` inside its chunk.
    pub fn world_to_local(world: IVec3) -> (l: LocalCoord)
        ensures
            l == local_of(world),
            l.in_chunk(),
    {
        LocalCoord { x: rem16(world.x) as u8, y: rem16(world.y) as u8, z: rem16(world.z) as u8 }
    }

    /// The block at world position `world`, when this chunk holds it.
    pub fn block_world(&self, world: IVec3) -> (b: Option<BlockType>)
        requires
            self.wf(),
        ensures
            b == (if chunk_of(world) == self.spec_coord() {
                Some(self.block_at(local_of(world)))
            } else {
                None
            }),
    {
        let coord = ChunkCoord::from_world(world);
        if coord != self.coord {
            return None;
        }
        Some(self.block(Self::world_to_local(world)))
    }

    /// The solid blocks with their positions, in block-list order.
    pub fn iter_solid_blocks(&self) -> (v: Vec<(LocalCoord, BlockType)>)
        requires
            self.wf(),
        ensures
            v@ == solid_entries(self.blocks(), 4096),
    {
        let mut v: Vec<(LocalCoord, BlockType)> = Vec::new();
        let mut i: usize = 0;
        while i < self.blocks.len()
            invariant
                self.blocks.len() == 4096,
                i <= 4096,
                v@ == solid_entries(self.blocks@, i as int),
            decreases 4096 - i,
        {
            let block = self.blocks[i];
            if block.is_solid() {
                v.push((Self::local_from_index(i), block));
            }
            i = i + 1;
        }
        v
    }

    /// Number of blocks in a chunk.
    pub fn volume() -> (n: usize)
        ensures
            n == 4096,
    {
        CHUNK_VOLUME
    }

    /// Position of `local` in the block list.
    pub fn index(local: LocalCoord) -> (i: usize)
        requires
            index_of(local) < 4096,
        ensures
            i == index_of(local),
            i < 4096,
    {
        (local.y as usize * CHUNK_SIZE_Z as usize + local.z as usize) * CHUNK_SIZE_X as usize
            + local.x as usize
    }

    /// The block position at `index` of the block list.
    pub fn local_from_index(index: usize) -> (l: LocalCoord)
        requires
            index < 4096,
        ensures
            l == local_at(index as int),
            l.in_chunk(),
    {
        proof {
            lemma_local_at_in_range(index as int);
        }
        let x = index % CHUNK_SIZE_X as usize;
        let yz = index / CHUNK_SIZE_X as usize;
        let z = yz % CHUNK_SIZE_Z as usize;
        let y = yz / CHUNK_SIZE_Z as usize;
        assert(y == index / 256) by (nonlinear_arith)
            requires
                yz == index / 16,
                y == yz / 16,
        ;
        LocalCoord { x: x as u8, y: y as u8, z: z as u8 }
    }
}

/// The chunk that holds `world` and the position of `world` inside it.
pub fn split_world_position(world: IVec3) -> (r: (ChunkCoord, LocalCoord))
    ensures
        r.0 == chunk_of(world),
        r.1 == local_of(world),
        origin_fits(r.0),
        r.1.in_chunk(),
{
    let chunk = ChunkCoord::from_world(world);
    let local = ChunkData::world_to_local(world);
    (chunk, local)
}

/// Splitting a world position into chunk and local position, then joining them again, gives
/// the position back.
pub proof fn law_split_then_join(world: IVec3)
    ensures
        16 * chunk_of(world).x + local_of(world).x == world.x,
        16 * chunk_of(world).y + local_of(world).y == world.y,
        16 * chunk_of(world).z + local_of(world).z == world.z,
{
    let (x, y, z) = (world.x as int, world.y as int, world.z as int);
    assert(16 * (x / 16) + x % 16 == x && 0 <= x % 16 < 16 && i32::MIN <= x / 16 <= i32::MAX) by (nonlinear_arith)
        requires
            i32::MIN <= x <= i32::MAX,
    ;
    assert(16 * (y / 16) + y % 16 == y && 0 <= y % 16 < 16 && i32::MIN <= y / 16 <= i32::MAX) by (nonlinear_arith)
        requires
            i32::MIN <= y <= i32::MAX,
    ;
    assert(16 * (z / 16) + z % 16 == z && 0 <= z % 16 < 16 && i32::MIN <= z / 16 <= i32::MAX) by (nonlinear_arith)
        requires
            i32::MIN <= z <= i32::MAX,
    ;
}

/// Block-list positions and block positions correspond one to one.
pub proof fn law_index_roundtrip(l: LocalCoord, i: int)
    ensures
        l.in_chunk() ==> local_at(index_of(l)) == l && 0 <= index_of(l) < 4096,
        0 <= i < 4096 ==> index_of(local_at(i)) == i && local_at(i).in_chunk(),
{
    if l.in_chunk() {
        lemma_index_of_in_range(l);
    }
    if 0 <= i < 4096 {
        lemma_local_at_in_range(i);
    }
}

} // verus!
