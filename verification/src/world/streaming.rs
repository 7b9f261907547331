//! Streaming the voxel world around the camera: which chunks are loaded, which are being built
//! or rebuilt by the worker pipeline, which results are taken in, and the mesh changes handed to
//! the renderer.
//!
//! The worker pipeline itself runs outside: the world hands out the jobs it decides on
//! (`take_jobs`) and is handed back the finished builds (`tick`).
use vstd::prelude::*;

use crate::geometry::IVec3;
use crate::keyed::{
    distinct_keys, keyed, lemma_keyed_at, lemma_keyed_dom, lemma_keyed_index, lemma_keyed_len,
    lemma_keyed_push, lemma_keyed_remove, lemma_keyed_update,
};
use crate::world::block::BlockType;
use crate::world::chunk::{
    chunk_of, index_of, local_of, origin_fits, split_world_position, ChunkCoord, ChunkData, LocalCoord,
};
use crate::world::greedy::MaskRect;
use crate::world::meshing::{
    build_chunk_mesh_with_neighbors, chunk_origin_of, chunk_tilings, mesh_of, side_xy, side_xz, side_yz, ChunkMesh,
    ChunkNeighborSolidity, MeshVertex,
};

verus! {

/// Whether a chunk's blocks are in memory for the world.
#[derive(Clone, Copy, Debug, PartialEq, Eq, Structural)]
pub enum ChunkResidentState {
    Absent,
    Resident,
}

/// Build bookkeeping of one chunk: the newest revision asked for, the newest taken in, the one
/// a worker is building now, and whether another rebuild must follow the one under way.
#[derive(Clone, Copy, Debug, PartialEq, Eq, Structural)]
pub struct ChunkRuntimeState {
    pub requested_revision: u64,
    pub integrated_revision: u64,
    pub pending_revision: Option<u64>,
    pub needs_remesh_after_pending: bool,
    pub resident_state: ChunkResidentState,
}

/// A chunk nothing was asked of yet.
pub open spec fn fresh_state() -> ChunkRuntimeState {
    ChunkRuntimeState {
        requested_revision: 0,
        integrated_revision: 0,
        pending_revision: None,
        needs_remesh_after_pending: false,
        resident_state: ChunkResidentState::Absent,
    }
}

/// A chunk whose blocks are loaded, with nothing asked of it yet.
pub open spec fn loaded_state() -> ChunkRuntimeState {
    ChunkRuntimeState { resident_state: ChunkResidentState::Resident, ..fresh_state() }
}

impl Default for ChunkRuntimeState {
    fn default() -> (s: Self)
        ensures
            s == fresh_state(),
    {
        ChunkRuntimeState {
            requested_revision: 0,
            integrated_revision: 0,
            pending_revision: None,
            needs_remesh_after_pending: false,
            resident_state: ChunkResidentState::Absent,
        }
    }
}

/// `r + 1`, saturating at `u64::MAX`.
pub open spec fn bump(r: u64) -> u64 {
    if r == u64::MAX {
        u64::MAX
    } else {
        (r + 1) as u64
    }
}

/// The state after asking a worker for revision `revision`.
pub open spec fn after_request(s: ChunkRuntimeState, revision: u64) -> ChunkRuntimeState {
    ChunkRuntimeState {
        requested_revision: revision,
        pending_revision: Some(revision),
        needs_remesh_after_pending: false,
        ..s
    }
}

/// Whether a rebuild can be booked to follow the build under way: one is under way and none is
/// booked yet.
pub open spec fn can_defer(s: ChunkRuntimeState) -> bool {
    s.pending_revision is Some && !s.needs_remesh_after_pending
}

/// The state after booking a rebuild to follow the build under way: the next revision goes past
/// both the requested and the pending one.
pub open spec fn deferred(s: ChunkRuntimeState) -> ChunkRuntimeState {
    let p = match s.pending_revision {
        Some(p) => p,
        None => 0,
    };
    let top = if s.requested_revision >= p {
        s.requested_revision
    } else {
        p
    };
    ChunkRuntimeState { requested_revision: bump(top), needs_remesh_after_pending: true, ..s }
}

/// Whether a finished build of `revision` is taken in: it must be newer than what was taken in,
/// and not older than what was asked for, unless a booked rebuild is still to come.
pub open spec fn accepts(s: ChunkRuntimeState, revision: u64) -> bool {
    let waiting_for_followup = s.needs_remesh_after_pending && revision < s.requested_revision;
    !(revision <= s.integrated_revision || (revision < s.requested_revision && !waiting_for_followup))
}

/// What a worker made of a build.
#[derive(Debug)]
pub enum ChunkBuildOutput {
    BuiltMesh(ChunkMesh),
    BuiltEmptyButValid,
    SkippedOrNotReady,
    Failed,
}

/// A finished build of a chunk at some revision.
#[derive(Debug)]
pub struct ChunkBuildResult {
    pub coord: ChunkCoord,
    pub revision: u64,
    pub chunk: ChunkData,
    pub output: ChunkBuildOutput,
}

/// A change for the renderer: a chunk's new mesh, or its mesh gone.
#[derive(Debug)]
pub enum ChunkMeshUpdate {
    Upsert { coord: ChunkCoord, mesh: ChunkMesh },
    Remove { coord: ChunkCoord },
}

pub open spec fn update_coord(u: ChunkMeshUpdate) -> ChunkCoord {
    match u {
        ChunkMeshUpdate::Upsert { coord, .. } => coord,
        ChunkMeshUpdate::Remove { coord } => coord,
    }
}

/// Work for the pipeline: generate a chunk, or mesh a copy of a loaded one again.
#[derive(Debug)]
pub enum ChunkJob {
    Generate { coord: ChunkCoord, revision: u64, neighbors: ChunkNeighborSolidity },
    Remesh { coord: ChunkCoord, revision: u64, chunk: ChunkData, neighbors: ChunkNeighborSolidity },
}

pub open spec fn job_coord(j: ChunkJob) -> ChunkCoord {
    match j {
        ChunkJob::Generate { coord, .. } => coord,
        ChunkJob::Remesh { coord, .. } => coord,
    }
}

pub open spec fn job_revision(j: ChunkJob) -> u64 {
    match j {
        ChunkJob::Generate { revision, .. } => revision,
        ChunkJob::Remesh { revision, .. } => revision,
    }
}

/// Numbers of one tick.
#[derive(Clone, Copy, Debug, PartialEq, Eq, Structural)]
pub struct VoxelTickReport {
    pub requested: usize,
    pub completed: usize,
    pub loaded_chunks: usize,
    pub pending_chunks: usize,
    pub mesh_updates_queued: usize,
}

/// The build bookkeeping of one chunk.
#[derive(Clone, Copy, Debug)]
pub struct ChunkStateEntry {
    pub coord: ChunkCoord,
    pub state: ChunkRuntimeState,
}

pub open spec fn chunk_key() -> spec_fn(ChunkData) -> ChunkCoord {
    |c: ChunkData| c.spec_coord()
}

pub open spec fn state_key() -> spec_fn(ChunkStateEntry) -> ChunkCoord {
    |e: ChunkStateEntry| e.coord
}

/// Every coordinate of `c` is at most 2^28 away from zero: where the camera can take the world.
pub open spec fn near_origin(c: ChunkCoord) -> bool {
    &&& -0x1000_0000 <= c.x <= 0x1000_0000
    &&& -0x1000_0000 <= c.y <= 0x1000_0000
    &&& -0x1000_0000 <= c.z <= 0x1000_0000
}

/// A finished build that can be taken in: its chunk is well formed, lies where the build says,
/// and near the origin.
pub open spec fn result_ok(b: ChunkBuildResult) -> bool {
    &&& b.chunk.wf()
    &&& b.chunk.spec_coord() == b.coord
    &&& near_origin(b.coord)
}

/// `vertices` and `indices` are the greedy mesh of `chunk` against the facing sides `nb` of
/// its neighbours.
pub open spec fn meshes_to(chunk: ChunkData, nb: ChunkNeighborSolidity, vertices: Seq<MeshVertex>, indices: Seq<u32>) -> bool {
    exists|rsss: Seq<Seq<Seq<MaskRect>>>| #![trigger chunk_tilings(chunk, nb, rsss)]
        chunk_tilings(chunk, nb, rsss) && mesh_of(chunk_origin_of(chunk), rsss, vertices, indices)
}

/// What a worker makes of a job once it holds the chunk's blocks: the chunk meshed against the
/// facing sides of its neighbours. A chunk without a visible face is built, but empty.
pub fn build_result(coord: ChunkCoord, revision: u64, chunk: ChunkData, neighbors: &ChunkNeighborSolidity) -> (r: ChunkBuildResult)
    requires
        chunk.wf(),
        neighbors.wf(),
        chunk.spec_coord() == coord,
        near_origin(coord),
        origin_fits(coord),
    ensures
        result_ok(r),
        r.coord == coord,
        r.revision == revision,
        r.chunk == chunk,
        match r.output {
            ChunkBuildOutput::BuiltMesh(mesh) => mesh.indices@.len() > 0 && meshes_to(chunk, *neighbors, mesh.vertices@, mesh.indices@),
            ChunkBuildOutput::BuiltEmptyButValid => exists|vertices: Seq<MeshVertex>| meshes_to(chunk, *neighbors, vertices, Seq::empty()),
            _ => false,
        },
{
    let mesh = build_chunk_mesh_with_neighbors(&chunk, neighbors);
    let output = if mesh.is_empty() {
        proof {
            assert(mesh.indices@ == Seq::<u32>::empty());
            assert(meshes_to(chunk, *neighbors, mesh.vertices@, Seq::empty()));
        }
        ChunkBuildOutput::BuiltEmptyButValid
    } else {
        ChunkBuildOutput::BuiltMesh(mesh)
    };
    ChunkBuildResult { coord, revision, chunk, output }
}

/// The neighbour of `c` one step along an axis.
pub open spec fn shifted(c: ChunkCoord, dx: int, dy: int, dz: int) -> ChunkCoord {
    ChunkCoord { x: (c.x + dx) as i32, y: (c.y + dy) as i32, z: (c.z + dz) as i32 }
}

/// A side of the loaded chunk at `c`, or a side with nothing solid.
pub open spec fn side_or_clear(
    loaded: Map<ChunkCoord, ChunkData>,
    c: ChunkCoord,
    side: spec_fn(ChunkData) -> Seq<bool>,
) -> Seq<bool> {
    if loaded.dom().contains(c) {
        side(loaded[c])
    } else {
        Seq::new(256, |i: int| false)
    }
}

/// `nb` holds, for each side of `coord`, the facing side of the loaded neighbour there.
pub open spec fn neighbors_of(loaded: Map<ChunkCoord, ChunkData>, coord: ChunkCoord, nb: ChunkNeighborSolidity) -> bool {
    &&& nb.wf()
    &&& nb.pos_x() == side_or_clear(loaded, shifted(coord, 1, 0, 0), |ch: ChunkData| side_yz(ch, 15))
    &&& nb.neg_x() == side_or_clear(loaded, shifted(coord, -1, 0, 0), |ch: ChunkData| side_yz(ch, 0))
    &&& nb.pos_y() == side_or_clear(loaded, shifted(coord, 0, 1, 0), |ch: ChunkData| side_xz(ch, 15))
    &&& nb.neg_y() == side_or_clear(loaded, shifted(coord, 0, -1, 0), |ch: ChunkData| side_xz(ch, 0))
    &&& nb.pos_z() == side_or_clear(loaded, shifted(coord, 0, 0, 1), |ch: ChunkData| side_xy(ch, 15))
    &&& nb.neg_z() == side_or_clear(loaded, shifted(coord, 0, 0, -1), |ch: ChunkData| side_xy(ch, 0))
}

/// `coord` lies within `h` chunks of `center` across and `v` chunks up or down.
pub open spec fn within_bounds(center: ChunkCoord, coord: ChunkCoord, h: u32, v: u32) -> bool {
    &&& abs_diff(center.x, coord.x) <= h
    &&& abs_diff(center.y, coord.y) <= v
    &&& abs_diff(center.z, coord.z) <= h
}

/// The retention bounds are a box around the centre: a chunk lies within them exactly when it
/// is at most `h` chunks away along x and along z, and at most `v` chunks away along y.
pub proof fn law_retention_is_a_box(center: ChunkCoord, coord: ChunkCoord, h: u32, v: u32)
    ensures
        within_bounds(center, coord, h, v) <==> {
            &&& coord.x - center.x <= h && center.x - coord.x <= h
            &&& coord.y - center.y <= v && center.y - coord.y <= v
            &&& coord.z - center.z <= h && center.z - coord.z <= h
        },
{
}

pub open spec fn abs_diff(a: i32, b: i32) -> int {
    if a >= b {
        a - b
    } else {
        b - a
    }
}

/// Whether `coord` lies within the retention bounds `h` (across) and `v` (up and down) of
/// `center`.
pub fn is_within_retention_bounds(center: ChunkCoord, coord: ChunkCoord, horizontal_radius: u32, vertical_radius: u32) -> (b: bool)
    ensures
        b == within_bounds(center, coord, horizontal_radius, vertical_radius),
{
    distance_along(center.x, coord.x) <= horizontal_radius as u64 && distance_along(center.y, coord.y)
        <= vertical_radius as u64 && distance_along(center.z, coord.z) <= horizontal_radius as u64
}

/// `|a - b|`.
fn distance_along(a: i32, b: i32) -> (d: u64)
    ensures
        d == abs_diff(a, b),
{
    if a >= b {
        (a as i64 - b as i64) as u64
    } else {
        (b as i64 - a as i64) as u64
    }
}

/// The loaded chunks, their build states and what waits for the pipeline and the renderer.
pub struct VoxelWorld {
    chunks: Vec<ChunkData>,
    meshed: Vec<ChunkCoord>,
    states: Vec<ChunkStateEntry>,
    integration_backlog: Vec<ChunkBuildResult>,
    mesh_updates: Vec<ChunkMeshUpdate>,
    dirty_remesh_queue: Vec<ChunkCoord>,
    jobs: Vec<ChunkJob>,
    pipeline_open: bool,
    horizontal_radius: i32,
    vertical_radius: i32,
    chunk_retention_horizontal_radius: u32,
    chunk_retention_vertical_radius: u32,
    max_chunk_integrations_per_tick: usize,
    max_dirty_remesh_requests_per_tick: usize,
}

impl VoxelWorld {
    /// Loaded chunks are well formed and found by position; bookkeeping, meshes and the dirty
    /// queue hold each chunk at most once.
    pub closed spec fn wf(&self) -> bool {
        &&& distinct_keys(self.chunks@, chunk_key())
        &&& forall|i: int| 0 <= i < self.chunks@.len() ==> (#[trigger] self.chunks@[i]).wf() && near_origin(
            self.chunks@[i].spec_coord(),
        )
        &&& distinct_keys(self.states@, state_key())
        &&& self.meshed@.no_duplicates()
        &&& forall|i: int| 0 <= i < self.meshed@.len() ==> near_origin(#[trigger] self.meshed@[i])
        &&& self.dirty_remesh_queue@.no_duplicates()
        &&& forall|i: int| 0 <= i < self.integration_backlog@.len() ==> result_ok(#[trigger] self.integration_backlog@[i])
        &&& -1 <= self.horizontal_radius <= 1_048_576
        &&& -1 <= self.vertical_radius <= 1_048_576
    }

    /// The loaded chunks by position.
    pub closed spec fn loaded(&self) -> Map<ChunkCoord, ChunkData> {
        keyed(self.chunks@, chunk_key())
    }

    /// The build bookkeeping by position.
    pub closed spec fn states(&self) -> Map<ChunkCoord, ChunkStateEntry> {
        keyed(self.states@, state_key())
    }

    /// The chunks that have a mesh on the renderer's side.
    pub closed spec fn meshed(&self) -> Seq<ChunkCoord> {
        self.meshed@
    }

    /// Chunks waiting to be meshed again, oldest first.
    pub closed spec fn dirty(&self) -> Seq<ChunkCoord> {
        self.dirty_remesh_queue@
    }

    /// Finished builds waiting to be taken in, oldest first.
    pub closed spec fn backlog(&self) -> Seq<ChunkBuildResult> {
        self.integration_backlog@
    }

    /// Mesh changes waiting for the renderer, oldest first.
    pub closed spec fn updates(&self) -> Seq<ChunkMeshUpdate> {
        self.mesh_updates@
    }

    /// Jobs waiting to be sent to the pipeline, oldest first.
    pub closed spec fn jobs(&self) -> Seq<ChunkJob> {
        self.jobs@
    }

    /// Whether the pipeline takes jobs.
    pub closed spec fn accepting(&self) -> bool {
        self.pipeline_open
    }

    pub closed spec fn request_radii(&self) -> (i32, i32) {
        (self.horizontal_radius, self.vertical_radius)
    }

    pub closed spec fn retention(&self) -> (u32, u32) {
        (self.chunk_retention_horizontal_radius, self.chunk_retention_vertical_radius)
    }

    pub closed spec fn limits(&self) -> (usize, usize) {
        (self.max_chunk_integrations_per_tick, self.max_dirty_remesh_requests_per_tick)
    }

    /// Whether a build of `c` is under way.
    pub open spec fn pending(&self, c: ChunkCoord) -> bool {
        self.states().dom().contains(c) && self.states()[c].state.pending_revision is Some
    }

    /// A world with nothing loaded that requests chunks up to `horizontal_radius` across and
    /// `vertical_radius` up and down around the camera, keeps them within the retention radii,
    /// and per tick takes in at most `max_integrations` builds and asks for at most
    /// `max_dirty_requests` rebuilds (at least one of each). The pipeline takes jobs.
    pub fn with_limits(
        horizontal_radius: i32,
        vertical_radius: i32,
        retention_horizontal_radius: u32,
        retention_vertical_radius: u32,
        max_integrations: usize,
        max_dirty_requests: usize,
    ) -> (w: Self)
        requires
            -1 <= horizontal_radius <= 1_048_576,
            -1 <= vertical_radius <= 1_048_576,
        ensures
            w.wf(),
            w.loaded() == Map::<ChunkCoord, ChunkData>::empty(),
            w.states() == Map::<ChunkCoord, ChunkStateEntry>::empty(),
            w.meshed().len() == 0,
            w.dirty().len() == 0,
            w.backlog().len() == 0,
            w.updates().len() == 0,
            w.jobs().len() == 0,
            w.accepting(),
            w.request_radii() == (horizontal_radius, vertical_radius),
            w.retention() == (retention_horizontal_radius, retention_vertical_radius),
            w.limits() == (max_integrations, max_dirty_requests),
    {
        let w = VoxelWorld {
            chunks: Vec::new(),
            meshed: Vec::new(),
            states: Vec::new(),
            integration_backlog: Vec::new(),
            mesh_updates: Vec::new(),
            dirty_remesh_queue: Vec::new(),
            jobs: Vec::new(),
            pipeline_open: true,
            horizontal_radius,
            vertical_radius,
            chunk_retention_horizontal_radius: retention_horizontal_radius,
            chunk_retention_vertical_radius: retention_vertical_radius,
            max_chunk_integrations_per_tick: max_integrations,
            max_dirty_remesh_requests_per_tick: max_dirty_requests,
        };
        assert(w.loaded() =~= Map::<ChunkCoord, ChunkData>::empty());
        assert(w.states() =~= Map::<ChunkCoord, ChunkStateEntry>::empty());
        w
    }

    /// The game's world: chunks requested 4 across and 2 up and down, kept 5 across and 3 up
    /// and down, at most 16 builds taken in and 8 rebuilds asked for per tick.
    pub fn new() -> (w: Self)
        ensures
            w.wf(),
            w.loaded() == Map::<ChunkCoord, ChunkData>::empty(),
            w.states() == Map::<ChunkCoord, ChunkStateEntry>::empty(),
            w.meshed().len() == 0,
            w.dirty().len() == 0,
            w.backlog().len() == 0,
            w.updates().len() == 0,
            w.jobs().len() == 0,
            w.accepting(),
            w.request_radii() == (4i32, 2i32),
            w.retention() == (5u32, 3u32),
            w.limits() == (16usize, 8usize),
    {
        Self::with_limits(4, 2, 5, 3, 16, 8)
    }

    /// Tells the world whether the pipeline takes jobs; while it does not, nothing is requested.
    pub fn set_pipeline_open(&mut self, open: bool)
        requires
            old(self).wf(),
        ensures
            final(self).wf(),
            final(self).accepting() == open,
            final(self).loaded() == old(self).loaded(),
            final(self).states() == old(self).states(),
            final(self).meshed() == old(self).meshed(),
            final(self).dirty() == old(self).dirty(),
            final(self).backlog() == old(self).backlog(),
            final(self).updates() == old(self).updates(),
            final(self).jobs() == old(self).jobs(),
            final(self).request_radii() == old(self).request_radii(),
            final(self).retention() == old(self).retention(),
            final(self).limits() == old(self).limits(),
    {
        self.pipeline_open = open;
    }

    fn chunk_index(&self, coord: ChunkCoord) -> (r: Option<usize>)
        requires
            self.wf(),
        ensures
            match r {
                Some(i) => i < self.chunks@.len() && self.chunks@[i as int].spec_coord() == coord
                    && self.loaded().dom().contains(coord) && self.loaded()[coord] == self.chunks@[i as int],
                None => !self.loaded().dom().contains(coord),
            },
    {
        let mut i: usize = 0;
        while i < self.chunks.len()
            invariant
                self.wf(),
                i <= self.chunks@.len(),
                forall|j: int| 0 <= j < i ==> (#[trigger] self.chunks@[j]).spec_coord() != coord,
            decreases self.chunks@.len() - i,
        {
            if self.chunks[i].coord() == coord {
                proof {
                    lemma_keyed_at(self.chunks@, chunk_key(), i as int);
                }
                return Some(i);
            }
            i = i + 1;
        }
        proof {
            lemma_keyed_dom(self.chunks@, chunk_key(), coord);
        }
        None
    }

    fn state_index(&self, coord: ChunkCoord) -> (r: Option<usize>)
        requires
            self.wf(),
        ensures
            match r {
                Some(i) => i < self.states@.len() && self.states@[i as int].coord == coord
                    && self.states().dom().contains(coord) && self.states()[coord] == self.states@[i as int],
                None => !self.states().dom().contains(coord),
            },
    {
        let mut i: usize = 0;
        while i < self.states.len()
            invariant
                self.wf(),
                i <= self.states@.len(),
                forall|j: int| 0 <= j < i ==> (#[trigger] self.states@[j]).coord != coord,
            decreases self.states@.len() - i,
        {
            if self.states[i].coord == coord {
                proof {
                    lemma_keyed_at(self.states@, state_key(), i as int);
                }
                return Some(i);
            }
            i = i + 1;
        }
        proof {
            lemma_keyed_dom(self.states@, state_key(), coord);
        }
        None
    }

    /// Whether `coord` is loaded.
    pub fn is_loaded(&self, coord: ChunkCoord) -> (b: bool)
        requires
            self.wf(),
        ensures
            b == self.loaded().dom().contains(coord),
    {
        self.chunk_index(coord).is_some()
    }

    /// Whether a build of `coord` is under way.
    pub fn has_pending_request(&self, coord: ChunkCoord) -> (b: bool)
        requires
            self.wf(),
        ensures
            b == self.pending(coord),
    {
        match self.state_index(coord) {
            Some(i) => self.states[i].state.pending_revision.is_some(),
            None => false,
        }
    }

    /// The build bookkeeping of `coord`, if it has any.
    pub fn chunk_state(&self, coord: ChunkCoord) -> (s: Option<ChunkRuntimeState>)
        requires
            self.wf(),
        ensures
            match s {
                Some(st) => self.states().dom().contains(coord) && self.states()[coord].state == st,
                None => !self.states().dom().contains(coord),
            },
    {
        match self.state_index(coord) {
            Some(i) => Some(self.states[i].state),
            None => None,
        }
    }
}

/// The bookkeeping of `c`, or `d` when it has none.
pub open spec fn state_or(states: Map<ChunkCoord, ChunkStateEntry>, c: ChunkCoord, d: ChunkRuntimeState) -> ChunkRuntimeState {
    if states.dom().contains(c) {
        states[c].state
    } else {
        d
    }
}

/// `states` with the bookkeeping of `c` set to `s`.
pub open spec fn with_state(
    states: Map<ChunkCoord, ChunkStateEntry>,
    c: ChunkCoord,
    s: ChunkRuntimeState,
) -> Map<ChunkCoord, ChunkStateEntry> {
    states.insert(c, ChunkStateEntry { coord: c, state: s })
}

/// The revision the next request for `c` asks for.
pub open spec fn next_revision(states: Map<ChunkCoord, ChunkStateEntry>, c: ChunkCoord) -> u64 {
    if states.dom().contains(c) {
        bump(states[c].state.requested_revision)
    } else {
        1
    }
}

/// Every coordinate of `c` has a neighbour on both sides within `i32`.
pub open spec fn inner(c: ChunkCoord) -> bool {
    &&& i32::MIN < c.x < i32::MAX
    &&& i32::MIN < c.y < i32::MAX
    &&& i32::MIN < c.z < i32::MAX
}

impl VoxelWorld {
    /// Only the build bookkeeping and the jobs may differ from `other`.
    pub open spec fn same_but_bookkeeping(&self, other: &Self) -> bool {
        &&& self.loaded() == other.loaded()
        &&& self.meshed() == other.meshed()
        &&& self.dirty() == other.dirty()
        &&& self.backlog() == other.backlog()
        &&& self.updates() == other.updates()
        &&& self.accepting() == other.accepting()
        &&& self.request_radii() == other.request_radii()
        &&& self.retention() == other.retention()
        &&& self.limits() == other.limits()
    }

    /// The solidity of the loaded chunks around `coord`, facing it.
    fn collect_neighbor_solidity(&self, coord: ChunkCoord) -> (nb: ChunkNeighborSolidity)
        requires
            self.wf(),
            inner(coord),
        ensures
            neighbors_of(self.loaded(), coord, nb),
    {
        let mut nb = ChunkNeighborSolidity::new();
        match self.chunk_index(ChunkCoord::new(coord.x + 1, coord.y, coord.z)) {
            Some(i) => nb.set_positive_x(&self.chunks[i]),
            None => {},
        }
        match self.chunk_index(ChunkCoord::new(coord.x - 1, coord.y, coord.z)) {
            Some(i) => nb.set_negative_x(&self.chunks[i]),
            None => {},
        }
        match self.chunk_index(ChunkCoord::new(coord.x, coord.y + 1, coord.z)) {
            Some(i) => nb.set_positive_y(&self.chunks[i]),
            None => {},
        }
        match self.chunk_index(ChunkCoord::new(coord.x, coord.y - 1, coord.z)) {
            Some(i) => nb.set_negative_y(&self.chunks[i]),
            None => {},
        }
        match self.chunk_index(ChunkCoord::new(coord.x, coord.y, coord.z + 1)) {
            Some(i) => nb.set_positive_z(&self.chunks[i]),
            None => {},
        }
        match self.chunk_index(ChunkCoord::new(coord.x, coord.y, coord.z - 1)) {
            Some(i) => nb.set_negative_z(&self.chunks[i]),
            None => {},
        }
        nb
    }

    /// Sets the bookkeeping of `coord` to `state`.
    fn put_state(&mut self, coord: ChunkCoord, state: ChunkRuntimeState)
        requires
            old(self).wf(),
        ensures
            final(self).wf(),
            final(self).states() == with_state(old(self).states(), coord, state),
            final(self).same_but_bookkeeping(old(self)),
            final(self).jobs() == old(self).jobs(),
    {
        let entry = ChunkStateEntry { coord, state };
        match self.state_index(coord) {
            Some(i) => {
                proof {
                    lemma_keyed_update(self.states@, state_key(), i as int, entry);
                }
                self.states.set(i, entry);
            },
            None => {
                proof {
                    lemma_keyed_push(self.states@, state_key(), entry);
                }
                self.states.push(entry);
            },
        }
    }

    /// Books a rebuild of `coord` to follow the build under way, when one is under way and none
    /// is booked yet. A chunk without bookkeeping gets that of a loaded chunk first.
    fn defer_remesh_until_pending_finishes(&mut self, coord: ChunkCoord) -> (booked: bool)
        requires
            old(self).wf(),
        ensures
            final(self).wf(),
            final(self).same_but_bookkeeping(old(self)),
            final(self).jobs() == old(self).jobs(),
            ({
                let s = state_or(old(self).states(), coord, loaded_state());
                &&& booked == can_defer(s)
                &&& final(self).states() == with_state(old(self).states(), coord, if can_defer(s) { deferred(s) } else { s })
            }),
    {
        let state = match self.state_index(coord) {
            Some(i) => self.states[i].state,
            None => ChunkRuntimeState {
                requested_revision: 0,
                integrated_revision: 0,
                pending_revision: None,
                needs_remesh_after_pending: false,
                resident_state: ChunkResidentState::Resident,
            },
        };
        if state.pending_revision.is_none() || state.needs_remesh_after_pending {
            self.put_state(coord, state);
            proof {
                if old(self).states().dom().contains(coord) {
                    assert(with_state(old(self).states(), coord, state) =~= old(self).states());
                }
            }
            return false;
        }
        let pending = match state.pending_revision {
            Some(p) => p,
            None => 0,
        };
        let top = if state.requested_revision >= pending { state.requested_revision } else { pending };
        let next = top.saturating_add(1);
        self.put_state(
            coord,
            ChunkRuntimeState { requested_revision: next, needs_remesh_after_pending: true, ..state },
        );
        true
    }

    /// Marks a loaded chunk to be meshed again. While a build of it is under way, a rebuild is
    /// booked to follow instead. Returns whether anything was marked or booked: a chunk that is
    /// not loaded, already marked, or already booked is left as it is.
    pub fn mark_chunk_dirty_for_remesh(&mut self, coord: ChunkCoord) -> (marked: bool)
        requires
            old(self).wf(),
        ensures
            final(self).wf(),
            final(self).jobs() == old(self).jobs(),
            final(self).loaded() == old(self).loaded(),
            final(self).meshed() == old(self).meshed(),
            final(self).backlog() == old(self).backlog(),
            final(self).updates() == old(self).updates(),
            final(self).accepting() == old(self).accepting(),
            final(self).request_radii() == old(self).request_radii(),
            final(self).retention() == old(self).retention(),
            final(self).limits() == old(self).limits(),
            !old(self).loaded().dom().contains(coord) ==> !marked && final(self).states() == old(self).states()
                && final(self).dirty() == old(self).dirty(),
            old(self).loaded().dom().contains(coord) && old(self).pending(coord) ==> {
                let s = old(self).states()[coord].state;
                &&& marked == can_defer(s)
                &&& final(self).dirty() == old(self).dirty()
                &&& final(self).states() == with_state(old(self).states(), coord, if can_defer(s) { deferred(s) } else { s })
            },
            old(self).loaded().dom().contains(coord) && !old(self).pending(coord) && old(self).dirty().contains(coord)
                ==> !marked && final(self).states() == old(self).states() && final(self).dirty() == old(self).dirty(),
            old(self).loaded().dom().contains(coord) && !old(self).pending(coord) && !old(self).dirty().contains(coord)
                ==> {
                &&& marked
                &&& final(self).dirty() == old(self).dirty().push(coord)
                &&& final(self).states() == with_state(old(self).states(), coord, state_or(old(self).states(), coord, loaded_state()))
            },
    {
        if !self.is_loaded(coord) {
            return false;
        }
        if self.has_pending_request(coord) {
            return self.defer_remesh_until_pending_finishes(coord);
        }
        if crate::world::upload_queue::contains_coord(&self.dirty_remesh_queue, coord) {
            return false;
        }
        let state = match self.state_index(coord) {
            Some(i) => self.states[i].state,
            None => ChunkRuntimeState {
                requested_revision: 0,
                integrated_revision: 0,
                pending_revision: None,
                needs_remesh_after_pending: false,
                resident_state: ChunkResidentState::Resident,
            },
        };
        self.put_state(coord, state);
        self.dirty_remesh_queue.push(coord);
        true
    }

    /// Asks the pipeline to generate `coord` at the next revision, with the solidity of its
    /// loaded neighbours. Nothing happens while the pipeline takes no jobs.
    fn request_generate_chunk(&mut self, coord: ChunkCoord) -> (sent: bool)
        requires
            old(self).wf(),
            inner(coord),
        ensures
            final(self).wf(),
            final(self).same_but_bookkeeping(old(self)),
            sent == old(self).accepting(),
            !sent ==> final(self).states() == old(self).states() && final(self).jobs() == old(self).jobs(),
            sent ==> {
                let rev = next_revision(old(self).states(), coord);
                &&& final(self).jobs().len() == old(self).jobs().len() + 1
                &&& final(self).jobs().drop_last() == old(self).jobs()
                &&& final(self).jobs().last() matches ChunkJob::Generate { coord: c, revision: r, neighbors }
                    && c == coord && r == rev && neighbors_of(old(self).loaded(), coord, neighbors)
                &&& final(self).states() == with_state(
                    old(self).states(),
                    coord,
                    after_request(state_or(old(self).states(), coord, fresh_state()), rev),
                )
            },
    {
        if !self.pipeline_open {
            return false;
        }
        let state = match self.state_index(coord) {
            Some(i) => self.states[i].state,
            None => ChunkRuntimeState {
                requested_revision: 0,
                integrated_revision: 0,
                pending_revision: None,
                needs_remesh_after_pending: false,
                resident_state: ChunkResidentState::Absent,
            },
        };
        let revision = match self.state_index(coord) {
            Some(i) => self.states[i].state.requested_revision.saturating_add(1),
            None => 1,
        };
        let neighbors = self.collect_neighbor_solidity(coord);
        self.jobs.push(ChunkJob::Generate { coord, revision, neighbors });
        self.put_state(
            coord,
            ChunkRuntimeState {
                requested_revision: revision,
                pending_revision: Some(revision),
                needs_remesh_after_pending: false,
                ..state
            },
        );
        true
    }

    /// Asks the pipeline to mesh a copy of the loaded chunk `coord` again at the next revision.
    /// Nothing happens for a chunk that is not loaded or while the pipeline takes no jobs.
    fn request_remesh_chunk(&mut self, coord: ChunkCoord) -> (sent: bool)
        requires
            old(self).wf(),
        ensures
            final(self).wf(),
            final(self).same_but_bookkeeping(old(self)),
            sent == (old(self).accepting() && old(self).loaded().dom().contains(coord)),
            !sent ==> final(self).states() == old(self).states() && final(self).jobs() == old(self).jobs(),
            sent ==> {
                let rev = next_revision(old(self).states(), coord);
                &&& final(self).jobs().len() == old(self).jobs().len() + 1
                &&& final(self).jobs().drop_last() == old(self).jobs()
                &&& final(self).jobs().last() matches ChunkJob::Remesh { coord: c, revision: r, chunk, neighbors }
                    && c == coord && r == rev && neighbors_of(old(self).loaded(), coord, neighbors)
                    && chunk.spec_coord() == coord && chunk.blocks() == old(self).loaded()[coord].blocks()
                &&& final(self).states() == with_state(
                    old(self).states(),
                    coord,
                    ChunkRuntimeState {
                        resident_state: ChunkResidentState::Resident,
                        ..after_request(state_or(old(self).states(), coord, loaded_state()), rev)
                    },
                )
            },
    {
        let k = match self.chunk_index(coord) {
            Some(k) => k,
            None => return false,
        };
        if !self.pipeline_open {
            return false;
        }
        let snapshot = self.chunks[k].duplicate();
        let state = match self.state_index(coord) {
            Some(i) => self.states[i].state,
            None => ChunkRuntimeState {
                requested_revision: 0,
                integrated_revision: 0,
                pending_revision: None,
                needs_remesh_after_pending: false,
                resident_state: ChunkResidentState::Resident,
            },
        };
        let revision = state.requested_revision.saturating_add(1);
        let revision = match self.state_index(coord) {
            Some(_) => revision,
            None => 1,
        };
        let neighbors = self.collect_neighbor_solidity(coord);
        self.jobs.push(ChunkJob::Remesh { coord, revision, chunk: snapshot, neighbors });
        self.put_state(
            coord,
            ChunkRuntimeState {
                requested_revision: revision,
                pending_revision: Some(revision),
                needs_remesh_after_pending: false,
                resident_state: ChunkResidentState::Resident,
                ..state
            },
        );
        true
    }

    /// After a build of `coord` was taken in: sends the booked rebuild, at the revision booked,
    /// when one is booked, nothing is under way, the booked revision is newer than the one taken
    /// in, and the chunk is loaded. Nothing happens otherwise or while the pipeline takes no jobs.
    fn queue_deferred_remesh_if_needed(&mut self, coord: ChunkCoord) -> (sent: bool)
        requires
            old(self).wf(),
        ensures
            final(self).wf(),
            final(self).same_but_bookkeeping(old(self)),
            sent == (old(self).accepting() && old(self).states().dom().contains(coord) && ({
                let s = old(self).states()[coord].state;
                s.needs_remesh_after_pending && s.pending_revision is None && s.requested_revision
                    > s.integrated_revision && old(self).loaded().dom().contains(coord)
            })),
            !sent ==> final(self).states() == old(self).states() && final(self).jobs() == old(self).jobs(),
            sent ==> {
                let s = old(self).states()[coord].state;
                &&& final(self).jobs().len() == old(self).jobs().len() + 1
                &&& final(self).jobs().drop_last() == old(self).jobs()
                &&& final(self).jobs().last() matches ChunkJob::Remesh { coord: c, revision: r, chunk, neighbors }
                    && c == coord && r == s.requested_revision && neighbors_of(old(self).loaded(), coord, neighbors)
                    && chunk.spec_coord() == coord && chunk.blocks() == old(self).loaded()[coord].blocks()
                &&& final(self).states() == with_state(
                    old(self).states(),
                    coord,
                    ChunkRuntimeState {
                        pending_revision: Some(s.requested_revision),
                        needs_remesh_after_pending: false,
                        ..s
                    },
                )
            },
    {
        let state = match self.state_index(coord) {
            Some(i) => self.states[i].state,
            None => return false,
        };
        let k = match self.chunk_index(coord) {
            Some(k) => k,
            None => return false,
        };
        if !(state.needs_remesh_after_pending && state.pending_revision.is_none()
            && state.requested_revision > state.integrated_revision) {
            return false;
        }
        if !self.pipeline_open {
            return false;
        }
        let snapshot = self.chunks[k].duplicate();
        let neighbors = self.collect_neighbor_solidity(coord);
        let revision = state.requested_revision;
        self.jobs.push(ChunkJob::Remesh { coord, revision, chunk: snapshot, neighbors });
        self.put_state(
            coord,
            ChunkRuntimeState { pending_revision: Some(revision), needs_remesh_after_pending: false, ..state },
        );
        true
    }
}

/// The six chunks that share a side with `c`.
pub open spec fn is_neighbor(c: ChunkCoord, n: ChunkCoord) -> bool {
    ||| n == shifted(c, 1, 0, 0)
    ||| n == shifted(c, -1, 0, 0)
    ||| n == shifted(c, 0, 1, 0)
    ||| n == shifted(c, 0, -1, 0)
    ||| n == shifted(c, 0, 0, 1)
    ||| n == shifted(c, 0, 0, -1)
}

/// The bookkeeping of `c` after a build of `revision` was taken in, before a booked rebuild is
/// sent: the build under way is over if it was this one, and the chunk counts as loaded when the
/// build brought blocks.
pub open spec fn integrated(s: ChunkRuntimeState, revision: u64, brought_blocks: bool) -> ChunkRuntimeState {
    ChunkRuntimeState {
        pending_revision: if s.pending_revision == Some(revision) {
            None
        } else {
            s.pending_revision
        },
        integrated_revision: revision,
        resident_state: if brought_blocks {
            ChunkResidentState::Resident
        } else {
            s.resident_state
        },
        ..s
    }
}

/// The build brought blocks to take in.
pub open spec fn brings_blocks(o: ChunkBuildOutput) -> bool {
    o is BuiltMesh || o is BuiltEmptyButValid
}

/// A booked rebuild is due: booked, nothing under way, newer than what was taken in.
pub open spec fn followup_due(s: ChunkRuntimeState) -> bool {
    s.needs_remesh_after_pending && s.pending_revision is None && s.requested_revision > s.integrated_revision
}

impl VoxelWorld {
    /// How marking the neighbours of `coord` dirty changed `old` into `self`: the dirty queue only
    /// grew, by neighbours of `coord`; every loaded neighbour with nothing under way is marked; a
    /// loaded neighbour under way has a rebuild booked if it can; no other chunk's bookkeeping
    /// changed.
    pub open spec fn marked_neighbors_of(&self, old: &Self, coord: ChunkCoord) -> bool {
        &&& self.loaded() == old.loaded()
        &&& self.meshed() == old.meshed()
        &&& self.backlog() == old.backlog()
        &&& self.updates() == old.updates()
        &&& self.jobs() == old.jobs()
        &&& self.accepting() == old.accepting()
        &&& self.request_radii() == old.request_radii()
        &&& self.retention() == old.retention()
        &&& self.limits() == old.limits()
        &&& self.dirty_marks(old, coord)
        &&& self.neighbor_bookings(old, coord)
        &&& forall|c: ChunkCoord| !is_neighbor(coord, c) ==> #[trigger] self.same_state_at(old, c)
        &&& self.touches_loaded_only(old)
    }

    /// Only loaded chunks were marked dirty, and only they and `c` had their bookkeeping changed.
    #[verifier::opaque]
    pub open spec fn touches_loaded_or(&self, old: &Self, c: ChunkCoord) -> bool {
        &&& forall|i: int| old.dirty().len() <= i < self.dirty().len() ==> old.loaded().dom().contains(#[trigger] self.dirty()[i])
        &&& forall|d: ChunkCoord| d != c && !old.loaded().dom().contains(d) ==> #[trigger] self.same_state_at(old, d)
    }

    /// Only loaded chunks were marked dirty or had their bookkeeping changed.
    #[verifier::opaque]
    pub open spec fn touches_loaded_only(&self, old: &Self) -> bool {
        &&& forall|i: int| old.dirty().len() <= i < self.dirty().len() ==> old.loaded().dom().contains(#[trigger] self.dirty()[i])
        &&& forall|c: ChunkCoord| !old.loaded().dom().contains(c) ==> #[trigger] self.same_state_at(old, c)
    }

    /// The dirty queue only grew, by neighbours of `coord`, and every loaded neighbour with nothing
    /// under way is in it.
    pub open spec fn dirty_marks(&self, old: &Self, coord: ChunkCoord) -> bool {
        &&& old.dirty().len() <= self.dirty().len()
        &&& self.dirty().take(old.dirty().len() as int) == old.dirty()
        &&& forall|i: int| old.dirty().len() <= i < self.dirty().len() ==> is_neighbor(coord, #[trigger] self.dirty()[i])
        &&& forall|n: ChunkCoord|
            is_neighbor(coord, n) && old.loaded().dom().contains(n) && !old.pending(n) && !old.dirty().contains(n)
                ==> #[trigger] self.dirty().contains(n)
    }

    /// Every loaded neighbour of `coord` with a build under way has a rebuild booked, if it can.
    pub open spec fn neighbor_bookings(&self, old: &Self, coord: ChunkCoord) -> bool {
        forall|n: ChunkCoord|
            is_neighbor(coord, n) && old.loaded().dom().contains(n) && old.pending(n) ==> {
                let s = old.states()[n].state;
                &&& #[trigger] self.states().dom().contains(n)
                &&& self.states()[n].state == if can_defer(s) { deferred(s) } else { s }
            }
    }

    /// The bookkeeping of `c` is as in `old`.
    pub open spec fn same_state_at(&self, old: &Self, c: ChunkCoord) -> bool {
        &&& self.states().dom().contains(c) == old.states().dom().contains(c)
        &&& self.states().dom().contains(c) ==> self.states()[c] == old.states()[c]
    }

    /// Marks the six neighbours of `coord` to be meshed again.
    fn mark_adjacent_chunks_dirty_for_remesh(&mut self, coord: ChunkCoord)
        requires
            old(self).wf(),
            inner(coord),
        ensures
            final(self).wf(),
            final(self).marked_neighbors_of(old(self), coord),
    {
        let mut around: Vec<ChunkCoord> = Vec::new();
        around.push(ChunkCoord::new(coord.x + 1, coord.y, coord.z));
        around.push(ChunkCoord::new(coord.x - 1, coord.y, coord.z));
        around.push(ChunkCoord::new(coord.x, coord.y + 1, coord.z));
        around.push(ChunkCoord::new(coord.x, coord.y - 1, coord.z));
        around.push(ChunkCoord::new(coord.x, coord.y, coord.z + 1));
        around.push(ChunkCoord::new(coord.x, coord.y, coord.z - 1));
        proof {
            assert forall|n: ChunkCoord| is_neighbor(coord, n) <==> around@.contains(n) by {
                if is_neighbor(coord, n) {
                    if n == shifted(coord, 1, 0, 0) { assert(around@[0] == n); }
                    else if n == shifted(coord, -1, 0, 0) { assert(around@[1] == n); }
                    else if n == shifted(coord, 0, 1, 0) { assert(around@[2] == n); }
                    else if n == shifted(coord, 0, -1, 0) { assert(around@[3] == n); }
                    else if n == shifted(coord, 0, 0, 1) { assert(around@[4] == n); }
                    else { assert(around@[5] == n); }
                }
            }
            assert(around@.no_duplicates());
        }
        let ghost start = *self;
        assert(self.touches_loaded_only(&start)) by {
            reveal(VoxelWorld::touches_loaded_only);
        }
        let mut k: usize = 0;
        while k < around.len()
            invariant
                self.wf(),
                0 <= k <= 6,
                around@.len() == 6,
                around@.no_duplicates(),
                forall|n: ChunkCoord| is_neighbor(coord, n) <==> around@.contains(n),
                self.loaded() == start.loaded(),
                self.meshed() == start.meshed(),
                self.backlog() == start.backlog(),
                self.updates() == start.updates(),
                self.jobs() == start.jobs(),
                self.accepting() == start.accepting(),
                self.request_radii() == start.request_radii(),
                self.retention() == start.retention(),
                self.limits() == start.limits(),
                start.dirty().len() <= self.dirty().len(),
                self.dirty().take(start.dirty().len() as int) == start.dirty(),
                forall|i: int| start.dirty().len() <= i < self.dirty().len() ==> exists|j: int| 0 <= j < k && around@[j] == #[trigger] self.dirty()[i],
                forall|j: int|
                    0 <= j < k && start.loaded().dom().contains(#[trigger] around@[j]) && !start.pending(around@[j])
                        && !start.dirty().contains(around@[j]) ==> self.dirty().contains(around@[j]),
                forall|j: int|
                    0 <= j < k && start.loaded().dom().contains(#[trigger] around@[j]) && start.pending(around@[j]) ==> {
                        let s = start.states()[around@[j]].state;
                        &&& self.states().dom().contains(around@[j])
                        &&& self.states()[around@[j]].state == if can_defer(s) { deferred(s) } else { s }
                    },
                forall|c: ChunkCoord|
                    !(exists|j: int| 0 <= j < k && around@[j] == c) ==> (#[trigger] self.states().dom().contains(c)
                        == start.states().dom().contains(c) && (self.states().dom().contains(c) ==> self.states()[c]
                        == start.states()[c])),
                self.touches_loaded_only(&start),
            decreases 6 - k,
        {
            let n = around[k];
            let ghost before = *self;
            proof {
                assert(forall|j: int| 0 <= j < k ==> around@[j] != n);
                assert(before.states().dom().contains(n) == start.states().dom().contains(n));
                assert(before.dirty().contains(n) == start.dirty().contains(n)) by {
                    if before.dirty().contains(n) && !start.dirty().contains(n) {
                        let i = choose|i: int| 0 <= i < before.dirty().len() && before.dirty()[i] == n;
                        if i < start.dirty().len() {
                            assert(before.dirty().take(start.dirty().len() as int)[i] == n);
                        } else {
                            let j = choose|j: int| 0 <= j < k && around@[j] == #[trigger] before.dirty()[i];
                            assert(around@[j] == around@[k as int]);
                        }
                    }
                    if start.dirty().contains(n) {
                        let i = choose|i: int| 0 <= i < start.dirty().len() && start.dirty()[i] == n;
                        assert(before.dirty().take(start.dirty().len() as int)[i] == n);
                    }
                }
            }
            self.mark_chunk_dirty_for_remesh(n);
            proof {
                assert(self.touches_loaded_only(&start)) by {
                    reveal(VoxelWorld::touches_loaded_only);
                    assert forall|i: int| start.dirty().len() <= i < self.dirty().len() implies start.loaded().dom().contains(
                        #[trigger] self.dirty()[i],
                    ) by {
                        if i < before.dirty().len() {
                            assert(self.dirty()[i] == before.dirty()[i]);
                        } else {
                            assert(self.dirty()[i] == n);
                        }
                    }
                    assert forall|c: ChunkCoord| !start.loaded().dom().contains(c) implies #[trigger] self.same_state_at(&start, c) by {
                        assert(before.same_state_at(&start, c));
                        if c != n {
                            assert(self.states().dom().contains(c) == before.states().dom().contains(c));
                        }
                    }
                }
                assert(self.dirty().take(start.dirty().len() as int) =~= start.dirty());
                assert forall|j: int|
                    0 <= j < k + 1 && start.loaded().dom().contains(#[trigger] around@[j]) && !start.pending(around@[j])
                        && !start.dirty().contains(around@[j]) implies self.dirty().contains(around@[j]) by {
                    if j < k {
                        let i = choose|i: int| 0 <= i < before.dirty().len() && before.dirty()[i] == around@[j];
                        assert(self.dirty()[i] == around@[j]);
                    } else {
                        assert(self.dirty().last() == n);
                    }
                }
                assert forall|i: int| start.dirty().len() <= i < self.dirty().len() implies exists|j: int|
                    0 <= j < k + 1 && around@[j] == #[trigger] self.dirty()[i] by {
                    if i < before.dirty().len() {
                        assert(self.dirty()[i] == before.dirty()[i]);
                        let j = choose|j: int| 0 <= j < k && around@[j] == #[trigger] before.dirty()[i];
                        assert(around@[j] == self.dirty()[i]);
                    } else {
                        assert(self.dirty()[i] == n);
                        assert(around@[k as int] == n);
                    }
                }
            }
            k = k + 1;
        }
        proof {
            assert forall|i: int| start.dirty().len() <= i < self.dirty().len() implies is_neighbor(coord, #[trigger] self.dirty()[i]) by {
                let j = choose|j: int| 0 <= j < 6 && around@[j] == #[trigger] self.dirty()[i];
                assert(around@.contains(self.dirty()[i]));
            }
            assert forall|n: ChunkCoord|
                is_neighbor(coord, n) && start.loaded().dom().contains(n) && !start.pending(n) && !start.dirty().contains(n)
                    implies #[trigger] self.dirty().contains(n) by {
                let j = choose|j: int| 0 <= j < 6 && around@[j] == n;
            }
            assert forall|n: ChunkCoord|
                is_neighbor(coord, n) && start.loaded().dom().contains(n) && start.pending(n) implies {
                    let s = start.states()[n].state;
                    &&& #[trigger] self.states().dom().contains(n)
                    &&& self.states()[n].state == if can_defer(s) { deferred(s) } else { s }
                } by {
                let j = choose|j: int| 0 <= j < 6 && around@[j] == n;
            }
            assert forall|c: ChunkCoord| !is_neighbor(coord, c) implies #[trigger] self.same_state_at(&start, c) by {
                assert(!around@.contains(c));
            }
        }
    }

    /// Adds `coord` to the chunks with a mesh.
    fn add_meshed(&mut self, coord: ChunkCoord)
        requires
            old(self).wf(),
            near_origin(coord),
        ensures
            final(self).wf(),
            final(self).meshed().to_set() == old(self).meshed().to_set().insert(coord),
            final(self).loaded() == old(self).loaded(),
            final(self).states() == old(self).states(),
            final(self).dirty() == old(self).dirty(),
            final(self).backlog() == old(self).backlog(),
            final(self).updates() == old(self).updates(),
            final(self).jobs() == old(self).jobs(),
            final(self).accepting() == old(self).accepting(),
            final(self).request_radii() == old(self).request_radii(),
            final(self).retention() == old(self).retention(),
            final(self).limits() == old(self).limits(),
    {
        if crate::world::upload_queue::contains_coord(&self.meshed, coord) {
            assert(self.meshed@.to_set() =~= self.meshed@.to_set().insert(coord));
            return;
        }
        let ghost s = self.meshed@;
        self.meshed.push(coord);
        proof {
            assert forall|c: ChunkCoord| #[trigger] self.meshed@.to_set().contains(c) == s.to_set().insert(coord).contains(c) by {
                if s.to_set().contains(c) {
                    let j = choose|j: int| 0 <= j < s.len() && s[j] == c;
                    assert(self.meshed@[j] == c);
                }
                if c == coord {
                    assert(self.meshed@[s.len() as int] == c);
                }
                if self.meshed@.to_set().contains(c) {
                    let j = choose|j: int| 0 <= j < self.meshed@.len() && self.meshed@[j] == c;
                    if j < s.len() {
                        assert(s[j] == c);
                    }
                }
            }
            assert(self.meshed@.to_set() =~= s.to_set().insert(coord));
        }
    }

    /// Drops `coord` from the chunks with a mesh.
    fn remove_meshed(&mut self, coord: ChunkCoord)
        requires
            old(self).wf(),
        ensures
            final(self).wf(),
            final(self).meshed().to_set() == old(self).meshed().to_set().remove(coord),
            final(self).loaded() == old(self).loaded(),
            final(self).states() == old(self).states(),
            final(self).dirty() == old(self).dirty(),
            final(self).backlog() == old(self).backlog(),
            final(self).updates() == old(self).updates(),
            final(self).jobs() == old(self).jobs(),
            final(self).accepting() == old(self).accepting(),
            final(self).request_radii() == old(self).request_radii(),
            final(self).retention() == old(self).retention(),
            final(self).limits() == old(self).limits(),
    {
        let mut i: usize = 0;
        while i < self.meshed.len()
            invariant
                self.wf(),
                *self == *old(self),
                i <= self.meshed@.len(),
                forall|j: int| 0 <= j < i ==> self.meshed@[j] != coord,
            decreases self.meshed@.len() - i,
        {
            if self.meshed[i] == coord {
                let ghost s = self.meshed@;
                self.meshed.remove(i);
                proof {
                    assert forall|a: int, b: int| 0 <= a < b < self.meshed@.len() implies self.meshed@[a] != self.meshed@[b] by {
                        let sa = if a < i { a } else { a + 1 };
                        let sb = if b < i { b } else { b + 1 };
                        assert(self.meshed@[a] == s[sa] && self.meshed@[b] == s[sb]);
                    }
                    assert forall|c: ChunkCoord| #[trigger] self.meshed@.to_set().contains(c) == s.to_set().remove(coord).contains(c) by {
                        if s.to_set().remove(coord).contains(c) {
                            let j = choose|j: int| 0 <= j < s.len() && s[j] == c;
                            if j < i { assert(self.meshed@[j] == c); } else { assert(self.meshed@[j - 1] == c); }
                        }
                        if self.meshed@.to_set().contains(c) {
                            let j = choose|j: int| 0 <= j < self.meshed@.len() && self.meshed@[j] == c;
                            let sj = if j < i { j } else { j + 1 };
                            assert(s[sj] == c);
                        }
                    }
                    assert(self.meshed@.to_set() =~= s.to_set().remove(coord));
                }
                return;
            }
            i = i + 1;
        }
        assert(self.meshed@.to_set() =~= old(self).meshed@.to_set().remove(coord));
    }

    /// Puts `chunk` among the loaded chunks at its position, replacing what was there.
    fn store_chunk(&mut self, chunk: ChunkData)
        requires
            old(self).wf(),
            chunk.wf(),
            near_origin(chunk.spec_coord()),
        ensures
            final(self).wf(),
            final(self).loaded() == old(self).loaded().insert(chunk.spec_coord(), chunk),
            final(self).meshed() == old(self).meshed(),
            final(self).states() == old(self).states(),
            final(self).dirty() == old(self).dirty(),
            final(self).backlog() == old(self).backlog(),
            final(self).updates() == old(self).updates(),
            final(self).jobs() == old(self).jobs(),
            final(self).accepting() == old(self).accepting(),
            final(self).request_radii() == old(self).request_radii(),
            final(self).retention() == old(self).retention(),
            final(self).limits() == old(self).limits(),
    {
        let ghost c = chunk;
        match self.chunk_index(chunk.coord()) {
            Some(i) => {
                proof {
                    lemma_keyed_update(self.chunks@, chunk_key(), i as int, c);
                }
                self.chunks.set(i, chunk);
                proof {
                    assert forall|j: int| 0 <= j < self.chunks@.len() implies (#[trigger] self.chunks@[j]).wf() && near_origin(
                        self.chunks@[j].spec_coord(),
                    ) by {
                        if j != i {
                            assert(self.chunks@[j] == old(self).chunks@[j]);
                        }
                    }
                }
            },
            None => {
                proof {
                    lemma_keyed_push(self.chunks@, chunk_key(), c);
                }
                self.chunks.push(chunk);
                proof {
                    assert forall|j: int| 0 <= j < self.chunks@.len() implies (#[trigger] self.chunks@[j]).wf() && near_origin(
                        self.chunks@[j].spec_coord(),
                    ) by {
                        if j < old(self).chunks@.len() {
                            assert(self.chunks@[j] == old(self).chunks@[j]);
                        }
                    }
                }
            },
        }
    }
}

/// The bookkeeping of a chunk after a build of `revision` was taken in and a booked rebuild, if
/// due, was sent (`send` says whether it could be: the pipeline takes jobs and the chunk is
/// loaded).
pub open spec fn after_integration(s: ChunkRuntimeState, revision: u64, brought_blocks: bool, send: bool) -> ChunkRuntimeState {
    let s2 = integrated(s, revision, brought_blocks);
    if send && followup_due(s2) {
        ChunkRuntimeState { pending_revision: Some(s2.requested_revision), needs_remesh_after_pending: false, ..s2 }
    } else {
        s2
    }
}

/// A build that is no newer than what was already taken in is refused.
pub proof fn law_stale_build_refused(s: ChunkRuntimeState, revision: u64)
    requires
        revision <= s.integrated_revision,
    ensures
        !accepts(s, revision),
{
}

/// A build is taken in at most once: after it was taken in, the same revision is refused.
pub proof fn law_build_taken_once(s: ChunkRuntimeState, revision: u64, brought_blocks: bool, send: bool)
    requires
        accepts(s, revision),
    ensures
        !accepts(after_integration(s, revision, brought_blocks, send), revision),
{
}

/// What a fresh request asks for is taken in when it comes back, as long as nothing newer was
/// taken in meanwhile.
pub proof fn law_requested_build_accepted(s: ChunkRuntimeState)
    requires
        s.integrated_revision <= s.requested_revision < u64::MAX,
    ensures
        accepts(after_request(s, bump(s.requested_revision)), bump(s.requested_revision)),
{
}

/// Booking a rebuild while one is already booked books nothing more.
pub proof fn law_booking_once(s: ChunkRuntimeState)
    requires
        can_defer(s),
    ensures
        !can_defer(deferred(s)),
{
}

/// A rebuild booked while a build is under way does not make that build stale, and is due as
/// soon as that build is taken in.
pub proof fn law_booked_rebuild_follows(s: ChunkRuntimeState, pending: u64, brought_blocks: bool)
    requires
        s.pending_revision == Some(pending),
        !s.needs_remesh_after_pending,
        s.integrated_revision < pending,
        s.requested_revision < u64::MAX,
        pending < u64::MAX,
    ensures
        accepts(deferred(s), pending),
        followup_due(integrated(deferred(s), pending, brought_blocks)),
        integrated(deferred(s), pending, brought_blocks).requested_revision > pending,
{
}

/// A build that brought no blocks leaves the chunk as resident as it was.
pub proof fn law_failed_build_keeps_residency(s: ChunkRuntimeState, revision: u64, send: bool)
    ensures
        after_integration(s, revision, false, send).resident_state == s.resident_state,
        after_integration(s, revision, false, send).integrated_revision == revision,
{
}

impl VoxelWorld {
    /// How taking in `built` changed `old` into `self`, with `counted` the answer: see
    /// `integrate_chunk_result`.
    pub open spec fn takes_in(&self, old: &Self, center: ChunkCoord, built: ChunkBuildResult, counted: bool) -> bool {
        let c = built.coord;
        let taken = old.states().dom().contains(c) && accepts(old.states()[c].state, built.revision);
        let brought = brings_blocks(built.output);
        let changed = brought && (!old.loaded().dom().contains(c) || old.loaded()[c].blocks()
            != built.chunk.blocks());
        let now_loaded = brought || old.loaded().dom().contains(c);
        let s2 = integrated(old.states()[c].state, built.revision, brought);
        let send = old.accepting() && now_loaded && followup_due(s2);
        &&& !taken ==> {
            &&& !counted
            &&& self.loaded() == old.loaded()
            &&& self.meshed() == old.meshed()
            &&& self.states() == old.states()
            &&& self.dirty() == old.dirty()
            &&& self.updates() == old.updates()
            &&& self.jobs() == old.jobs()
        }
        &&& taken ==> {
            &&& counted == within_bounds(center, c, old.retention().0, old.retention().1)
            &&& self.loaded() == if brought { old.loaded().insert(c, built.chunk) } else { old.loaded() }
            &&& self.meshed().to_set() == match built.output {
                ChunkBuildOutput::BuiltMesh(_) => old.meshed().to_set().insert(c),
                ChunkBuildOutput::BuiltEmptyButValid => old.meshed().to_set().remove(c),
                _ => old.meshed().to_set(),
            }
            &&& self.updates() == match built.output {
                ChunkBuildOutput::BuiltMesh(mesh) => old.updates().push(ChunkMeshUpdate::Upsert { coord: c, mesh }),
                ChunkBuildOutput::BuiltEmptyButValid => old.updates().push(ChunkMeshUpdate::Remove { coord: c }),
                _ => old.updates(),
            }
            &&& self.states().dom().contains(c)
            &&& self.states()[c].state == after_integration(old.states()[c].state, built.revision, brought, old.accepting() && now_loaded)
            &&& !send ==> self.jobs() == old.jobs()
            &&& send ==> self.jobs().len() > 0 && self.jobs().drop_last() == old.jobs()
                && (self.jobs().last() matches ChunkJob::Remesh { coord: jc, revision: jr, .. }
                && jc == c && jr == s2.requested_revision)
            &&& changed ==> self.dirty_marks(old, c) && self.neighbor_bookings(old, c)
            &&& !changed ==> self.dirty() == old.dirty()
            &&& forall|d: ChunkCoord| d != c && (!changed || !is_neighbor(c, d)) ==> #[trigger] self.same_state_at(old, d)
            &&& self.touches_loaded_or(old, c)
        }
        }
}

impl VoxelWorld {
    /// Takes in a finished build of a chunk, if its bookkeeping accepts the revision: the blocks it
    /// brought replace the loaded ones, a new mesh or the loss of the mesh is queued for the
    /// renderer, the neighbours are marked to be meshed again when the blocks changed, and a
    /// booked rebuild is sent when due. A build that is not accepted changes nothing. Returns
    /// whether the build was taken in and its chunk lies within the retention bounds of `center`.
    #[verifier::spinoff_prover]
    pub fn integrate_chunk_result(&mut self, center: ChunkCoord, built: ChunkBuildResult) -> (counted: bool)
        requires
            old(self).wf(),
            result_ok(built),
        ensures
            final(self).wf(),
            final(self).backlog() == old(self).backlog(),
            final(self).accepting() == old(self).accepting(),
            final(self).request_radii() == old(self).request_radii(),
            final(self).retention() == old(self).retention(),
            final(self).limits() == old(self).limits(),
            final(self).takes_in(old(self), center, built, counted),
    {
        let ChunkBuildResult { coord, revision, chunk, output } = built;
        let snapshot = match self.state_index(coord) {
            Some(i) => self.states[i].state,
            None => return false,
        };
        let waiting_for_followup = snapshot.needs_remesh_after_pending && revision < snapshot.requested_revision;
        if revision <= snapshot.integrated_revision || (revision < snapshot.requested_revision && !waiting_for_followup) {
            return false;
        }
        let ghost start = *self;
        let mut state = snapshot;
        match state.pending_revision {
            Some(p) => {
                if p == revision {
                    state.pending_revision = None;
                }
            },
            None => {},
        }
        let mut changed = false;
        let brought = match output {
            ChunkBuildOutput::BuiltMesh(mesh) => {
                changed = match self.chunk_index(coord) {
                    Some(k) => !self.chunks[k].same_as(&chunk),
                    None => true,
                };
                self.store_chunk(chunk);
                self.add_meshed(coord);
                self.mesh_updates.push(ChunkMeshUpdate::Upsert { coord, mesh });
                true
            },
            ChunkBuildOutput::BuiltEmptyButValid => {
                changed = match self.chunk_index(coord) {
                    Some(k) => !self.chunks[k].same_as(&chunk),
                    None => true,
                };
                self.store_chunk(chunk);
                self.remove_meshed(coord);
                self.mesh_updates.push(ChunkMeshUpdate::Remove { coord });
                true
            },
            _ => false,
        };
        if brought {
            state.resident_state = ChunkResidentState::Resident;
        }
        state.integrated_revision = revision;
        self.put_state(coord, state);
        let ghost before_marks = *self;
        if changed {
            self.mark_adjacent_chunks_dirty_for_remesh(coord);
        }
        proof {
            assert(!is_neighbor(coord, coord));
            assert(self.same_state_at(&before_marks, coord));
        }
        let ghost before_followup = *self;
        self.queue_deferred_remesh_if_needed(coord);
        proof {
            assert forall|d: ChunkCoord| d != coord implies #[trigger] before_marks.same_state_at(&start, d) by {}
            assert forall|d: ChunkCoord| d != coord implies #[trigger] self.same_state_at(&before_followup, d) by {}
            assert forall|d: ChunkCoord| d != coord && (!changed || !is_neighbor(coord, d)) implies #[trigger] self.same_state_at(&start, d) by {
                assert(before_marks.same_state_at(&start, d));
                if changed {
                    assert(before_followup.same_state_at(&before_marks, d));
                }
            }
            if changed {
                assert forall|n: ChunkCoord| is_neighbor(coord, n) implies n != coord && before_marks.loaded().dom().contains(n)
                    == start.loaded().dom().contains(n) && before_marks.pending(n) == start.pending(n) && (start.pending(n)
                    ==> before_marks.states()[n] == start.states()[n]) by {
                    assert(before_marks.same_state_at(&start, n));
                }
                assert(before_followup.neighbor_bookings(&before_marks, coord));
                assert(self.neighbor_bookings(&start, coord)) by {
                    assert forall|n: ChunkCoord|
                        is_neighbor(coord, n) && start.loaded().dom().contains(n) && start.pending(n) implies {
                            let s = start.states()[n].state;
                            &&& #[trigger] self.states().dom().contains(n)
                            &&& self.states()[n].state == if can_defer(s) { deferred(s) } else { s }
                        } by {
                        assert(self.same_state_at(&before_followup, n));
                        assert(before_marks.loaded().dom().contains(n));
                        assert(before_marks.pending(n));
                        assert(before_followup.states().dom().contains(n));
                    }
                }
                assert(self.dirty_marks(&start, coord)) by {
                    assert(before_followup.dirty_marks(&before_marks, coord));
                    assert(before_marks.dirty() == start.dirty());
                    assert forall|n: ChunkCoord|
                        is_neighbor(coord, n) && start.loaded().dom().contains(n) && !start.pending(n) && !start.dirty().contains(n)
                            implies #[trigger] self.dirty().contains(n) by {
                    }
                }
            }
        }
        proof {
            assert(self.touches_loaded_or(&start, coord)) by {
                reveal(VoxelWorld::touches_loaded_or);
                reveal(VoxelWorld::touches_loaded_only);
                assert(before_marks.dirty() == start.dirty());
                assert forall|i: int| start.dirty().len() <= i < self.dirty().len() implies start.loaded().dom().contains(
                    #[trigger] self.dirty()[i],
                ) by {
                    if changed {
                        assert(before_followup.touches_loaded_only(&before_marks));
                        assert(before_followup.dirty_marks(&before_marks, coord));
                        assert(is_neighbor(coord, self.dirty()[i]));
                        assert(!is_neighbor(coord, coord));
                    }
                }
                assert forall|d: ChunkCoord| d != coord && !start.loaded().dom().contains(d) implies #[trigger] self.same_state_at(&start, d) by {
                    assert(before_marks.same_state_at(&start, d));
                    assert(self.same_state_at(&before_followup, d));
                    if changed {
                        assert(!before_marks.loaded().dom().contains(d));
                        assert(before_followup.touches_loaded_only(&before_marks));
                        assert(before_followup.same_state_at(&before_marks, d));
                    }
                }
            }
        }
        is_within_retention_bounds(center, coord, self.chunk_retention_horizontal_radius, self.chunk_retention_vertical_radius)
    }
}

/// The chunks within the retention bounds `h`, `v` of `center`.
pub open spec fn retained(center: ChunkCoord, h: u32, v: u32) -> spec_fn(ChunkCoord) -> bool {
    |c: ChunkCoord| within_bounds(center, c, h, v)
}

/// The chunks outside the retention bounds `h`, `v` of `center`.
pub open spec fn dropped(center: ChunkCoord, h: u32, v: u32) -> spec_fn(ChunkCoord) -> bool {
    |c: ChunkCoord| !within_bounds(center, c, h, v)
}

/// A queued mesh change survives eviction when it removes a mesh or is for a retained chunk.
pub open spec fn update_kept(center: ChunkCoord, h: u32, v: u32) -> spec_fn(ChunkMeshUpdate) -> bool {
    |u: ChunkMeshUpdate| match u {
        ChunkMeshUpdate::Upsert { coord, .. } => within_bounds(center, coord, h, v),
        ChunkMeshUpdate::Remove { .. } => true,
    }
}

pub open spec fn result_kept(center: ChunkCoord, h: u32, v: u32) -> spec_fn(ChunkBuildResult) -> bool {
    |b: ChunkBuildResult| within_bounds(center, b.coord, h, v)
}

pub open spec fn removal_of(c: ChunkCoord) -> ChunkMeshUpdate {
    ChunkMeshUpdate::Remove { coord: c }
}

proof fn lemma_no_duplicates_filter(s: Seq<ChunkCoord>, p: spec_fn(ChunkCoord) -> bool)
    requires
        s.no_duplicates(),
    ensures
        s.filter(p).no_duplicates(),
{
    let id = |c: ChunkCoord| c;
    assert(distinct_keys(s, id)) by {
        assert forall|i: int, j: int| 0 <= i < j < s.len() implies id(#[trigger] s[i]) != id(#[trigger] s[j]) by {}
    }
    crate::keyed::lemma_keyed_filter(s, id, p);
    assert(s.filter(crate::keyed::on_key(id, p)) =~= s.filter(p)) by {
        assert(crate::keyed::on_key(id, p) =~= p);
    }
    let f = s.filter(p);
    assert forall|i: int, j: int| 0 <= i < f.len() && 0 <= j < f.len() && i != j implies f[i] != f[j] by {
        if i < j {
            assert(id(f[i]) != id(f[j]));
        } else {
            assert(id(f[j]) != id(f[i]));
        }
    }
}

/// Whether an entry of the streaming state survives eviction around a centre.
pub trait Retention: Sized {
    spec fn survives(&self, center: ChunkCoord, h: u32, v: u32) -> bool;

    fn check_survives(&self, center: ChunkCoord, h: u32, v: u32) -> (b: bool)
        ensures
            b == self.survives(center, h, v);
}

pub open spec fn survivors<T: Retention>(center: ChunkCoord, h: u32, v: u32) -> spec_fn(T) -> bool {
    |x: T| x.survives(center, h, v)
}

impl Retention for ChunkData {
    open spec fn survives(&self, center: ChunkCoord, h: u32, v: u32) -> bool {
        within_bounds(center, self.spec_coord(), h, v)
    }

    fn check_survives(&self, center: ChunkCoord, h: u32, v: u32) -> (b: bool) {
        is_within_retention_bounds(center, self.coord(), h, v)
    }
}

impl Retention for ChunkCoord {
    open spec fn survives(&self, center: ChunkCoord, h: u32, v: u32) -> bool {
        within_bounds(center, *self, h, v)
    }

    fn check_survives(&self, center: ChunkCoord, h: u32, v: u32) -> (b: bool) {
        is_within_retention_bounds(center, *self, h, v)
    }
}

impl Retention for ChunkStateEntry {
    open spec fn survives(&self, center: ChunkCoord, h: u32, v: u32) -> bool {
        within_bounds(center, self.coord, h, v)
    }

    fn check_survives(&self, center: ChunkCoord, h: u32, v: u32) -> (b: bool) {
        is_within_retention_bounds(center, self.coord, h, v)
    }
}

impl Retention for ChunkBuildResult {
    open spec fn survives(&self, center: ChunkCoord, h: u32, v: u32) -> bool {
        within_bounds(center, self.coord, h, v)
    }

    fn check_survives(&self, center: ChunkCoord, h: u32, v: u32) -> (b: bool) {
        is_within_retention_bounds(center, self.coord, h, v)
    }
}

impl Retention for ChunkMeshUpdate {
    /// A removal always survives; a new mesh survives with its chunk.
    open spec fn survives(&self, center: ChunkCoord, h: u32, v: u32) -> bool {
        match *self {
            ChunkMeshUpdate::Upsert { coord, .. } => within_bounds(center, coord, h, v),
            ChunkMeshUpdate::Remove { .. } => true,
        }
    }

    fn check_survives(&self, center: ChunkCoord, h: u32, v: u32) -> (b: bool) {
        match self {
            ChunkMeshUpdate::Upsert { coord, .. } => is_within_retention_bounds(center, *coord, h, v),
            ChunkMeshUpdate::Remove { .. } => true,
        }
    }
}

/// Keeps, in order, the entries of `v` that survive eviction around `center`.
fn retain_within<T: Retention>(v: &mut Vec<T>, center: ChunkCoord, h: u32, vr: u32)
    ensures
        final(v)@ == old(v)@.filter(survivors::<T>(center, h, vr)),
{
    let ghost start = v@;
    let ghost pred = survivors::<T>(center, h, vr);
    let mut i: usize = 0;
    let mut j: usize = 0;
    proof {
        reveal(Seq::filter);
        assert(start.take(0).filter(pred) == Seq::<T>::empty());
        assert(start.skip(0) == start);
        assert(v@ == start.take(0).filter(pred) + start.skip(0));
    }
    assert(start.len() == v.len());
    while i < v.len()
        invariant
            pred == survivors::<T>(center, h, vr),
            start.len() <= usize::MAX,
            j <= start.len(),
            i == start.take(j as int).filter(pred).len(),
            v@ == start.take(j as int).filter(pred) + start.skip(j as int),
        decreases v@.len() - i,
    {
        proof {
            reveal(Seq::filter);
            assert(v@.len() == i + start.skip(j as int).len());
            assert(v@[i as int] == start[j as int]);
            assert(start.take(j + 1).drop_last() == start.take(j as int));
            assert(start.take(j + 1).last() == start[j as int]);
            assert(start.skip(j as int).drop_first() == start.skip(j + 1));
        }
        let ghost kept = start.take(j as int).filter(pred);
        if v[i].check_survives(center, h, vr) {
            i = i + 1;
            proof {
                assert(start.take(j + 1).filter(pred) == kept.push(start[j as int]));
                assert(v@ == start.take(j + 1).filter(pred) + start.skip(j + 1));
            }
        } else {
            v.remove(i);
            proof {
                assert(start.take(j + 1).filter(pred) == kept);
                assert(v@ == start.take(j + 1).filter(pred) + start.skip(j + 1));
            }
        }
        j = j + 1;
    }
    proof {
        assert(j == start.len()) by {
            assert(v@.len() == i + start.skip(j as int).len());
        }
        assert(start.take(start.len() as int) == start);
    }
}

impl VoxelWorld {
    /// Drops everything outside the retention bounds of `center`: loaded chunks, bookkeeping,
    /// waiting builds, marks, and queued new meshes; the renderer is told to drop each mesh that
    /// lay outside.
    pub fn evict_outside_retention(&mut self, center: ChunkCoord)
        requires
            old(self).wf(),
        ensures
            final(self).wf(),
            ({
                let (h, v) = old(self).retention();
                let keep = retained(center, h, v);
                &&& forall|c: ChunkCoord| #[trigger] final(self).loaded().dom().contains(c) == (old(self).loaded().dom().contains(c) && keep(c))
                &&& forall|c: ChunkCoord| final(self).loaded().dom().contains(c) ==> #[trigger] final(self).loaded()[c] == old(self).loaded()[c]
                &&& forall|c: ChunkCoord| #[trigger] final(self).states().dom().contains(c) == (old(self).states().dom().contains(c) && keep(c))
                &&& forall|c: ChunkCoord| final(self).states().dom().contains(c) ==> #[trigger] final(self).states()[c] == old(self).states()[c]
                &&& final(self).meshed() == old(self).meshed().filter(keep)
                &&& final(self).dirty() == old(self).dirty().filter(keep)
                &&& final(self).backlog() == old(self).backlog().filter(result_kept(center, h, v))
                &&& final(self).updates() == old(self).updates().filter(update_kept(center, h, v))
                    + old(self).meshed().filter(dropped(center, h, v)).map_values(|c: ChunkCoord| removal_of(c))
            }),
            final(self).jobs() == old(self).jobs(),
            final(self).accepting() == old(self).accepting(),
            final(self).request_radii() == old(self).request_radii(),
            final(self).retention() == old(self).retention(),
            final(self).limits() == old(self).limits(),
    {
        let h = self.chunk_retention_horizontal_radius;
        let vr = self.chunk_retention_vertical_radius;
        let ghost keep = retained(center, h, vr);
        let ghost start = *self;

        let mut removed_meshes: Vec<ChunkCoord> = Vec::new();
        let mut i: usize = 0;
        while i < self.meshed.len()
            invariant
                i <= self.meshed@.len(),
                self.meshed@ == start.meshed@,
                removed_meshes@ == self.meshed@.take(i as int).filter(dropped(center, h, vr)),
            decreases self.meshed@.len() - i,
        {
            let c = self.meshed[i];
            proof {
                assert(self.meshed@.take(i + 1) == self.meshed@.take(i as int).push(c));
                self.meshed@.take(i as int).lemma_filter_push(c, dropped(center, h, vr));
            }
            if !is_within_retention_bounds(center, c, h, vr) {
                removed_meshes.push(c);
            }
            i = i + 1;
        }
        proof {
            assert(self.meshed@.take(self.meshed@.len() as int) == self.meshed@);
        }

        retain_within(&mut self.chunks, center, h, vr);
        retain_within(&mut self.meshed, center, h, vr);
        retain_within(&mut self.states, center, h, vr);
        retain_within(&mut self.integration_backlog, center, h, vr);
        retain_within(&mut self.mesh_updates, center, h, vr);
        retain_within(&mut self.dirty_remesh_queue, center, h, vr);
        proof {
            assert(survivors::<ChunkData>(center, h, vr) =~= crate::keyed::on_key(chunk_key(), keep));
            assert(survivors::<ChunkStateEntry>(center, h, vr) =~= crate::keyed::on_key(state_key(), keep));
            assert(survivors::<ChunkCoord>(center, h, vr) =~= keep);
            assert(survivors::<ChunkBuildResult>(center, h, vr) =~= result_kept(center, h, vr));
            assert(survivors::<ChunkMeshUpdate>(center, h, vr) =~= update_kept(center, h, vr));
            assert(self.chunks@ == start.chunks@.filter(crate::keyed::on_key(chunk_key(), keep)));
            assert(self.states@ == start.states@.filter(crate::keyed::on_key(state_key(), keep)));
            assert(self.meshed@ == start.meshed@.filter(keep));
            assert(self.dirty_remesh_queue@ == start.dirty_remesh_queue@.filter(keep));
        }

        let mut removals: Vec<ChunkMeshUpdate> = Vec::new();
        let mut k: usize = 0;
        while k < removed_meshes.len()
            invariant
                k <= removed_meshes@.len(),
                removals@ == removed_meshes@.take(k as int).map_values(|c: ChunkCoord| removal_of(c)),
            decreases removed_meshes@.len() - k,
        {
            let c = removed_meshes[k];
            removals.push(ChunkMeshUpdate::Remove { coord: c });
            k = k + 1;
            proof {
                assert(removed_meshes@.take(k as int).map_values(|c: ChunkCoord| removal_of(c)) =~= removed_meshes@.take(
                    k - 1,
                ).map_values(|c: ChunkCoord| removal_of(c)).push(removal_of(c)));
            }
        }
        self.mesh_updates.append(&mut removals);
        proof {
            assert(removed_meshes@.take(removed_meshes@.len() as int) == removed_meshes@);
            crate::keyed::lemma_keyed_filter(start.chunks@, chunk_key(), keep);
            crate::keyed::lemma_keyed_filter(start.states@, state_key(), keep);
            lemma_no_duplicates_filter(start.meshed@, keep);
            lemma_no_duplicates_filter(start.dirty_remesh_queue@, keep);
            assert forall|i: int| 0 <= i < self.chunks@.len() implies (#[trigger] self.chunks@[i]).wf() && near_origin(
                self.chunks@[i].spec_coord(),
            ) by {
                assert(self.chunks@.contains(self.chunks@[i]));
                assert(start.chunks@.filter(crate::keyed::on_key(chunk_key(), keep)).contains(self.chunks@[i]));
                start.chunks@.lemma_filter_contains_rev(crate::keyed::on_key(chunk_key(), keep), self.chunks@[i]);
                let j = choose|j: int| 0 <= j < start.chunks@.len() && start.chunks@[j] == self.chunks@[i];
                assert(start.chunks@[j].wf());
            }
            assert forall|i: int| 0 <= i < self.meshed@.len() implies near_origin(#[trigger] self.meshed@[i]) by {
                assert(self.meshed@.contains(self.meshed@[i]));
                start.meshed@.lemma_filter_contains_rev(keep, self.meshed@[i]);
                let j = choose|j: int| 0 <= j < start.meshed@.len() && start.meshed@[j] == self.meshed@[i];
                assert(near_origin(start.meshed@[j]));
            }
            assert forall|i: int| 0 <= i < self.integration_backlog@.len() implies result_ok(#[trigger] self.integration_backlog@[i]) by {
                assert(self.integration_backlog@.contains(self.integration_backlog@[i]));
                start.integration_backlog@.lemma_filter_contains_rev(result_kept(center, h, vr), self.integration_backlog@[i]);
                let j = choose|j: int| 0 <= j < start.integration_backlog@.len() && start.integration_backlog@[j] == self.integration_backlog@[i];
                assert(result_ok(start.integration_backlog@[j]));
            }
        }
    }
}

/// `c` lies in the request box of `center`: at most `h` chunks away across and `v` up or down.
pub open spec fn in_box(center: ChunkCoord, h: int, v: int, c: ChunkCoord) -> bool {
    &&& center.x - h <= c.x <= center.x + h
    &&& center.y - v <= c.y <= center.y + v
    &&& center.z - h <= c.z <= center.z + h
}

/// The request box of `center` lies inside `i32` with a neighbour to spare on every side.
pub open spec fn box_fits(center: ChunkCoord, h: int, v: int) -> bool {
    &&& h > i32::MIN
    &&& v > i32::MIN
    &&& h >= 0 ==> i32::MIN < center.x - h && center.x + h < i32::MAX && i32::MIN < center.z - h && center.z + h
        < i32::MAX
    &&& v >= 0 ==> i32::MIN < center.y - v && center.y + v < i32::MAX
}

/// Box positions visited before (`y`, `z`, `x`) in the request order: by layer, then row, then
/// column.
pub open spec fn visited_before(center: ChunkCoord, c: ChunkCoord, y: int, z: int, x: int) -> bool {
    (c.y - center.y) < y || ((c.y - center.y) == y && ((c.z - center.z) < z || ((c.z - center.z) == z
        && (c.x - center.x) < x)))
}

/// The positions of the request box of `center`, layer by layer from the bottom, each layer row
/// by row and each row column by column.
fn box_positions(center: ChunkCoord, h: i32, v: i32) -> (cs: Vec<ChunkCoord>)
    requires
        box_fits(center, h as int, v as int),
    ensures
        cs@.no_duplicates(),
        forall|c: ChunkCoord| cs@.contains(c) <==> in_box(center, h as int, v as int, c),
{
    let mut cs: Vec<ChunkCoord> = Vec::new();
    if h < 0 || v < 0 {
        assert forall|c: ChunkCoord| cs@.contains(c) <==> in_box(center, h as int, v as int, c) by {}
        return cs;
    }
    let mut y: i32 = -v;
    while y <= v
        invariant
            box_fits(center, h as int, v as int),
            h >= 0,
            v >= 0,
            -v <= y <= v + 1,
            cs@.no_duplicates(),
            forall|c: ChunkCoord| cs@.contains(c) <==> (in_box(center, h as int, v as int, c) && visited_before(center, c, y as int, -h as int, -h as int)),
        decreases v + 1 - y,
    {
        let mut z: i32 = -h;
        while z <= h
            invariant
                box_fits(center, h as int, v as int),
                h >= 0,
                v >= 0,
                -v <= y <= v,
                -h <= z <= h + 1,
                cs@.no_duplicates(),
                forall|c: ChunkCoord| cs@.contains(c) <==> (in_box(center, h as int, v as int, c) && visited_before(center, c, y as int, z as int, -h as int)),
            decreases h + 1 - z,
        {
            let mut x: i32 = -h;
            while x <= h
                invariant
                    box_fits(center, h as int, v as int),
                    h >= 0,
                    v >= 0,
                    -v <= y <= v,
                    -h <= z <= h,
                    -h <= x <= h + 1,
                    cs@.no_duplicates(),
                    forall|c: ChunkCoord| cs@.contains(c) <==> (in_box(center, h as int, v as int, c) && visited_before(center, c, y as int, z as int, x as int)),
                decreases h + 1 - x,
            {
                let c = ChunkCoord::new(center.x + x, center.y + y, center.z + z);
                let ghost before = cs@;
                proof {
                    assert(!before.contains(c));
                }
                cs.push(c);
                proof {
                    assert forall|d: ChunkCoord| #[trigger] cs@.contains(d) <==> (before.contains(d) || d == c) by {
                        if cs@.contains(d) {
                            let i = choose|i: int| 0 <= i < cs@.len() && cs@[i] == d;
                            if i < before.len() {
                                assert(before[i] == d);
                            }
                        }
                        if before.contains(d) {
                            let i = choose|i: int| 0 <= i < before.len() && before[i] == d;
                            assert(cs@[i] == d);
                        }
                        if d == c {
                            assert(cs@[before.len() as int] == c);
                        }
                    }
                    assert forall|i: int, j: int| 0 <= i < cs@.len() && 0 <= j < cs@.len() && i != j implies cs@[i] != cs@[j] by {
                        if i < before.len() && j < before.len() {
                            assert(cs@[i] == before[i] && cs@[j] == before[j]);
                        } else if i < before.len() {
                            assert(cs@[i] == before[i]);
                            assert(before.contains(cs@[i]));
                        } else if j < before.len() {
                            assert(cs@[j] == before[j]);
                            assert(before.contains(cs@[j]));
                        }
                    }
                }
                x = x + 1;
            }
            z = z + 1;
        }
        y = y + 1;
    }
    assert forall|c: ChunkCoord| cs@.contains(c) <==> in_box(center, h as int, v as int, c) by {}
    cs
}

impl VoxelWorld {
    /// `c` is neither loaded nor being built.
    pub open spec fn missing(&self, c: ChunkCoord) -> bool {
        !self.loaded().dom().contains(c) && !self.pending(c)
    }

    /// Job `j` generates `c`, which `old` was missing, at the next revision, with the solidity of
    /// its loaded neighbours in `old`.
    pub open spec fn generates_missing(&self, old: &Self, j: ChunkJob, center: ChunkCoord) -> bool {
        &&& j matches ChunkJob::Generate { coord, revision, neighbors }
        &&& in_box(center, old.request_radii().0 as int, old.request_radii().1 as int, coord)
        &&& old.missing(coord)
        &&& revision == next_revision(old.states(), coord)
        &&& neighbors_of(old.loaded(), coord, neighbors)
    }

    /// Asks the pipeline to generate every chunk of the request box of `center` that is neither
    /// loaded nor being built, in box order. Returns the number of requests sent.
    fn request_missing_chunks(&mut self, center: ChunkCoord) -> (requested: usize)
        requires
            old(self).wf(),
            box_fits(center, old(self).request_radii().0 as int, old(self).request_radii().1 as int),
        ensures
            final(self).wf(),
            final(self).same_but_bookkeeping(old(self)),
            final(self).jobs().len() == old(self).jobs().len() + requested,
            final(self).jobs().take(old(self).jobs().len() as int) == old(self).jobs(),
            forall|i: int| old(self).jobs().len() <= i < final(self).jobs().len() ==> final(self).generates_missing(
                old(self),
                #[trigger] final(self).jobs()[i],
                center,
            ),
            !old(self).accepting() ==> requested == 0,
            forall|c: ChunkCoord| {
                let (h, v) = old(self).request_radii();
                if old(self).accepting() && in_box(center, h as int, v as int, c) && old(self).missing(c) {
                    &&& #[trigger] final(self).states().dom().contains(c)
                    &&& final(self).states()[c].state == after_request(
                        state_or(old(self).states(), c, fresh_state()),
                        next_revision(old(self).states(), c),
                    )
                } else {
                    final(self).same_state_at(old(self), c)
                }
            },
    {
        let box_list = box_positions(center, self.horizontal_radius, self.vertical_radius);
        let ghost start = *self;
        let ghost h = self.horizontal_radius as int;
        let ghost v = self.vertical_radius as int;
        let mut requested: usize = 0;
        let mut k: usize = 0;
        while k < box_list.len()
            invariant
                self.wf(),
                self.same_but_bookkeeping(&start),
                start.request_radii() == (h as i32, v as i32),
                box_fits(center, h, v),
                k <= box_list@.len(),
                box_list@.no_duplicates(),
                forall|c: ChunkCoord| box_list@.contains(c) <==> in_box(center, h, v, c),
                self.jobs().len() == start.jobs().len() + requested,
                requested <= k,
                self.jobs().take(start.jobs().len() as int) == start.jobs(),
                forall|i: int| start.jobs().len() <= i < self.jobs().len() ==> self.generates_missing(
                    &start,
                    #[trigger] self.jobs()[i],
                    center,
                ),
                !start.accepting() ==> requested == 0,
                forall|c: ChunkCoord|
                    if start.accepting() && box_list@.take(k as int).contains(c) && start.missing(c) {
                        &&& #[trigger] self.states().dom().contains(c)
                        &&& self.states()[c].state == after_request(
                            state_or(start.states(), c, fresh_state()),
                            next_revision(start.states(), c),
                        )
                    } else {
                        self.same_state_at(&start, c)
                    },
            decreases box_list@.len() - k,
        {
            let c = box_list[k];
            let ghost before = *self;
            proof {
                assert(box_list@.contains(c));
                assert(!box_list@.take(k as int).contains(c)) by {
                    if box_list@.take(k as int).contains(c) {
                        let prev = box_list@.take(k as int);
                        let i = choose|i: int| 0 <= i < prev.len() && #[trigger] prev[i] == c;
                        assert(box_list@[i] == box_list@[k as int]);
                    }
                }
                assert(self.same_state_at(&start, c));
                assert(inner(c));
                assert forall|d: ChunkCoord| #[trigger] box_list@.take(k + 1).contains(d) <==> (box_list@.take(k as int).contains(d) || d == c) by {
                    let next = box_list@.take(k + 1);
                    let prev = box_list@.take(k as int);
                    if next.contains(d) {
                        let i = choose|i: int| 0 <= i < next.len() && #[trigger] next[i] == d;
                        if i < k {
                            assert(prev[i] == d);
                        }
                    }
                    if prev.contains(d) {
                        let i = choose|i: int| 0 <= i < prev.len() && #[trigger] prev[i] == d;
                        assert(next[i] == d);
                    }
                    if d == c {
                        assert(box_list@.take(k + 1)[k as int] == d);
                    }
                }
            }
            if !self.is_loaded(c) && !self.has_pending_request(c) {
                if self.request_generate_chunk(c) {
                    requested = requested + 1;
                    proof {
                        assert(self.jobs().take(start.jobs().len() as int) =~= start.jobs()) by {
                            assert(self.jobs().drop_last() == before.jobs());
                        }
                        assert forall|i: int| start.jobs().len() <= i < self.jobs().len() implies self.generates_missing(
                            &start,
                            #[trigger] self.jobs()[i],
                            center,
                        ) by {
                            if i < before.jobs().len() {
                                assert(self.jobs()[i] == before.jobs()[i]);
                            }
                        }
                    }
                }
            }
            proof {
                assert forall|d: ChunkCoord|
                    if start.accepting() && box_list@.take(k + 1).contains(d) && start.missing(d) {
                        &&& #[trigger] self.states().dom().contains(d)
                        &&& self.states()[d].state == after_request(
                            state_or(start.states(), d, fresh_state()),
                            next_revision(start.states(), d),
                        )
                    } else {
                        self.same_state_at(&start, d)
                    } by {
                    if d != c {
                        assert(self.same_state_at(&before, d));
                    } else {
                        assert(before.same_state_at(&start, c));
                        assert(state_or(before.states(), c, fresh_state()) == state_or(start.states(), c, fresh_state()));
                        assert(next_revision(before.states(), c) == next_revision(start.states(), c));
                    }
                }
            }
            k = k + 1;
        }
        proof {
            assert(box_list@.take(box_list@.len() as int) == box_list@);
        }
        requested
    }
}

impl VoxelWorld {
    /// What working through the dirty mark of `c` did to its bookkeeping: a loaded chunk within
    /// the retention bounds gets a rebuild booked when a build is under way, or else a rebuild
    /// asked for while the pipeline takes jobs; anything else is left alone.
    pub open spec fn remesh_effect(&self, old: &Self, c: ChunkCoord, center: ChunkCoord) -> bool {
        let (h, v) = old.retention();
        let eligible = old.loaded().dom().contains(c) && within_bounds(center, c, h, v);
        if eligible && old.pending(c) {
            let s = old.states()[c].state;
            &&& self.states().dom().contains(c)
            &&& self.states()[c].state == if can_defer(s) { deferred(s) } else { s }
        } else if eligible && old.accepting() {
            &&& self.states().dom().contains(c)
            &&& self.states()[c].state == ChunkRuntimeState {
                resident_state: ChunkResidentState::Resident,
                ..after_request(state_or(old.states(), c, loaded_state()), next_revision(old.states(), c))
            }
        } else {
            self.same_state_at(old, c)
        }
    }

    /// Job `j` meshes again a loaded chunk within the retention bounds, with nothing under way in
    /// `old`, at its next revision.
    pub open spec fn remeshes_marked(&self, old: &Self, j: ChunkJob, center: ChunkCoord) -> bool {
        &&& j matches ChunkJob::Remesh { coord, revision, chunk, neighbors }
        &&& old.loaded().dom().contains(coord)
        &&& within_bounds(center, coord, old.retention().0, old.retention().1)
        &&& !old.pending(coord)
        &&& revision == next_revision(old.states(), coord)
        &&& chunk.spec_coord() == coord && chunk.blocks() == old.loaded()[coord].blocks()
        &&& neighbors_of(old.loaded(), coord, neighbors)
    }

    /// Works through the oldest dirty marks, at most the per-tick limit (at least one): see
    /// `remesh_effect`. Returns the number of rebuilds booked or asked for.
    fn process_dirty_remeshes(&mut self, center: ChunkCoord) -> (requested: usize)
        requires
            old(self).wf(),
        ensures
            final(self).wf(),
            final(self).dirty_worked_from(old(self), center, requested),
            forall|c: ChunkCoord| !old(self).loaded().dom().contains(c) ==> #[trigger] final(self).same_state_at(old(self), c),
    {
        let budget: usize = if self.max_dirty_remesh_requests_per_tick < 1 { 1 } else { self.max_dirty_remesh_requests_per_tick };
        let ghost start = *self;
        let mut requested: usize = 0;
        let mut n: usize = 0;
        while n < budget && self.dirty_remesh_queue.len() > 0
            invariant
                self.wf(),
                budget as int == if start.limits().1 < 1 { 1 } else { start.limits().1 as int },
                n <= budget,
                n <= start.dirty().len(),
                requested <= n,
                self.dirty() == start.dirty().skip(n as int),
                self.loaded() == start.loaded(),
                self.meshed() == start.meshed(),
                self.backlog() == start.backlog(),
                self.updates() == start.updates(),
                self.accepting() == start.accepting(),
                self.request_radii() == start.request_radii(),
                self.retention() == start.retention(),
                self.limits() == start.limits(),
                start.wf(),
                start.jobs().len() <= self.jobs().len(),
                self.jobs().len() - start.jobs().len() <= requested,
                self.jobs().take(start.jobs().len() as int) == start.jobs(),
                forall|i: int| start.jobs().len() <= i < self.jobs().len() ==> self.remeshes_marked(
                    &start,
                    #[trigger] self.jobs()[i],
                    center,
                ),
                forall|c: ChunkCoord| #[trigger] start.dirty().take(n as int).contains(c) ==> self.remesh_effect(&start, c, center),
                forall|c: ChunkCoord| !start.dirty().take(n as int).contains(c) ==> #[trigger] self.same_state_at(&start, c),
                forall|c: ChunkCoord| !start.loaded().dom().contains(c) ==> #[trigger] self.same_state_at(&start, c),
            decreases budget - n,
        {
            let ghost before = *self;
            let coord = self.dirty_remesh_queue.remove(0);
            proof {
                assert(coord == start.dirty()[n as int]);
                assert(self.dirty() =~= start.dirty().skip(n + 1));
                assert(!start.dirty().take(n as int).contains(coord)) by {
                    if start.dirty().take(n as int).contains(coord) {
                        let prev = start.dirty().take(n as int);
                        let i = choose|i: int| 0 <= i < prev.len() && #[trigger] prev[i] == coord;
                        assert(start.dirty()[i] == start.dirty()[n as int]);
                    }
                }
                assert(before.same_state_at(&start, coord));
                assert(self.states() == before.states());
                assert(self.same_state_at(&start, coord));
                assert forall|d: ChunkCoord| #[trigger] start.dirty().take(n + 1).contains(d) <==> (start.dirty().take(n as int).contains(d) || d == coord) by {
                    let next = start.dirty().take(n + 1);
                    let prev = start.dirty().take(n as int);
                    if next.contains(d) {
                        let i = choose|i: int| 0 <= i < next.len() && #[trigger] next[i] == d;
                        if i < n {
                            assert(prev[i] == d);
                        }
                    }
                    if prev.contains(d) {
                        let i = choose|i: int| 0 <= i < prev.len() && #[trigger] prev[i] == d;
                        assert(next[i] == d);
                    }
                    if d == coord {
                        assert(next[n as int] == d);
                    }
                }
            }
            n = n + 1;
            let ghost mid = *self;
            let loaded = self.is_loaded(coord);
            if loaded && is_within_retention_bounds(center, coord, self.chunk_retention_horizontal_radius, self.chunk_retention_vertical_radius) {
                if self.has_pending_request(coord) {
                    if self.defer_remesh_until_pending_finishes(coord) {
                        requested = requested + 1;
                    }
                } else {
                    if self.request_remesh_chunk(coord) {
                        requested = requested + 1;
                        proof {
                            assert(self.jobs().drop_last() == mid.jobs());
                            assert(mid.jobs() == before.jobs());
                            assert(self.jobs().take(start.jobs().len() as int) =~= mid.jobs().take(start.jobs().len() as int));
                            assert(self.jobs().take(start.jobs().len() as int) =~= start.jobs());
                            assert forall|i: int| start.jobs().len() <= i < self.jobs().len() implies self.remeshes_marked(
                                &start,
                                #[trigger] self.jobs()[i],
                                center,
                            ) by {
                                if i < mid.jobs().len() {
                                    assert(self.jobs()[i] == mid.jobs()[i]);
                                } else {
                                    assert(mid.same_state_at(&start, coord));
                                    assert(next_revision(mid.states(), coord) == next_revision(start.states(), coord));
                                }
                            }
                        }
                    }
                }
            }
            proof {
                assert forall|d: ChunkCoord| d != coord implies #[trigger] self.same_state_at(&mid, d) by {}
                assert forall|d: ChunkCoord| #[trigger] start.dirty().take(n as int).contains(d) implies self.remesh_effect(&start, d, center) by {
                    if d != coord {
                        assert(self.same_state_at(&mid, d));
                        assert(before.remesh_effect(&start, d, center));
                    } else {
                        assert(mid.same_state_at(&start, coord));
                        assert(state_or(mid.states(), coord, loaded_state()) == state_or(start.states(), coord, loaded_state()));
                        assert(next_revision(mid.states(), coord) == next_revision(start.states(), coord));
                    }
                }
                assert(mid.states() == before.states());
                assert forall|d: ChunkCoord| !start.dirty().take(n as int).contains(d) implies #[trigger] self.same_state_at(&start, d) by {
                    assert(d != coord);
                    assert(!start.dirty().take(n - 1).contains(d));
                    assert(before.same_state_at(&start, d));
                    assert(self.same_state_at(&mid, d));
                }
                assert forall|d: ChunkCoord| !start.loaded().dom().contains(d) implies #[trigger] self.same_state_at(&start, d) by {
                    assert(self.same_state_at(&mid, d));
                    if d != coord {
                        assert(before.same_state_at(&start, d));
                    } else {
                        assert(mid.same_state_at(&start, coord));
                    }
                }
            }
        }
        requested
    }
}

/// Number of `true` entries of `s`.
pub open spec fn count_true(s: Seq<bool>) -> nat
    decreases s.len(),
{
    if s.len() == 0 {
        0
    } else {
        count_true(s.drop_last()) + if s.last() { 1nat } else { 0nat }
    }
}

impl VoxelWorld {
    /// The pipeline's state and the limits are as in `old`.
    pub open spec fn same_settings(&self, old: &Self) -> bool {
        &&& self.accepting() == old.accepting()
        &&& self.request_radii() == old.request_radii()
        &&& self.retention() == old.retention()
        &&& self.limits() == old.limits()
    }

    /// Only the waiting builds may differ from `old`.
    pub open spec fn same_but_backlog(&self, old: &Self) -> bool {
        &&& self.loaded() == old.loaded()
        &&& self.meshed() == old.meshed()
        &&& self.states() == old.states()
        &&& self.dirty() == old.dirty()
        &&& self.updates() == old.updates()
        &&& self.jobs() == old.jobs()
        &&& self.same_settings(old)
    }

    /// One step of taking in waiting builds: the oldest waiting build leaves the queue and, when
    /// its chunk lies within the retention bounds of `center`, is taken in
    /// (`integrate_chunk_result`); `counted` tells whether it counts as completed.
    pub open spec fn backlog_step(&self, prev: &Self, center: ChunkCoord, counted: bool) -> bool {
        let b = prev.backlog()[0];
        let (h, v) = prev.retention();
        &&& prev.backlog().len() > 0
        &&& self.backlog() == prev.backlog().skip(1)
        &&& self.same_settings(prev)
        &&& if within_bounds(center, b.coord, h, v) {
            self.takes_in(prev, center, b, counted)
        } else {
            &&& !counted
            &&& self.loaded() == prev.loaded()
            &&& self.meshed() == prev.meshed()
            &&& self.states() == prev.states()
            &&& self.dirty() == prev.dirty()
            &&& self.updates() == prev.updates()
            &&& self.jobs() == prev.jobs()
        }
    }

    /// How dropping everything outside the retention bounds of `center` changed `old` into
    /// `self` (`evict_outside_retention`): every mesh dropped is queued for removal.
    pub open spec fn evicted_from(&self, old: &Self, center: ChunkCoord) -> bool {
        let (h, v) = old.retention();
        let keep = retained(center, h, v);
        &&& forall|c: ChunkCoord| #[trigger] self.loaded().dom().contains(c) == (old.loaded().dom().contains(c) && keep(c))
        &&& forall|c: ChunkCoord| self.loaded().dom().contains(c) ==> #[trigger] self.loaded()[c] == old.loaded()[c]
        &&& forall|c: ChunkCoord| #[trigger] self.states().dom().contains(c) == (old.states().dom().contains(c) && keep(c))
        &&& forall|c: ChunkCoord| self.states().dom().contains(c) ==> #[trigger] self.states()[c] == old.states()[c]
        &&& self.meshed() == old.meshed().filter(keep)
        &&& self.dirty() == old.dirty().filter(keep)
        &&& self.backlog() == old.backlog().filter(result_kept(center, h, v))
        &&& self.updates() == old.updates().filter(update_kept(center, h, v)) + old.meshed().filter(
            dropped(center, h, v),
        ).map_values(|c: ChunkCoord| removal_of(c))
        &&& self.jobs() == old.jobs()
        &&& self.same_settings(old)
    }

    /// How asking for every missing chunk of the request box around `center` changed `old`
    /// into `self`, with `requested` jobs handed out.
    pub open spec fn requested_from(&self, old: &Self, center: ChunkCoord, requested: usize) -> bool {
        &&& self.same_but_bookkeeping(old)
        &&& self.jobs().len() == old.jobs().len() + requested
        &&& self.jobs().take(old.jobs().len() as int) == old.jobs()
        &&& forall|i: int| old.jobs().len() <= i < self.jobs().len() ==> self.generates_missing(old, #[trigger] self.jobs()[i], center)
        &&& !old.accepting() ==> requested == 0
        &&& forall|c: ChunkCoord| {
            let (h, v) = old.request_radii();
            if old.accepting() && in_box(center, h as int, v as int, c) && old.missing(c) {
                &&& #[trigger] self.states().dom().contains(c)
                &&& self.states()[c].state == after_request(state_or(old.states(), c, fresh_state()), next_revision(old.states(), c))
            } else {
                self.same_state_at(old, c)
            }
        }
    }

    /// How many of the oldest dirty marks one tick works through: all of them, up to the
    /// per-tick limit (at least one).
    pub open spec fn dirty_taken(&self) -> int {
        let budget = if self.limits().1 < 1 { 1 } else { self.limits().1 as int };
        if self.dirty().len() < budget { self.dirty().len() as int } else { budget }
    }

    /// How working through the oldest dirty marks changed `old` into `self`, with `requested`
    /// rebuilds asked for or booked.
    pub open spec fn dirty_worked_from(&self, old: &Self, center: ChunkCoord, requested: usize) -> bool {
        let taken = old.dirty_taken();
        &&& self.dirty() == old.dirty().skip(taken)
        &&& requested <= taken
        &&& forall|c: ChunkCoord| #[trigger] old.dirty().take(taken).contains(c) ==> self.remesh_effect(old, c, center)
        &&& forall|c: ChunkCoord| !old.dirty().take(taken).contains(c) ==> #[trigger] self.same_state_at(old, c)
        &&& old.jobs().len() <= self.jobs().len()
        &&& self.jobs().len() - old.jobs().len() <= requested
        &&& self.jobs().take(old.jobs().len() as int) == old.jobs()
        &&& forall|i: int| old.jobs().len() <= i < self.jobs().len() ==> self.remeshes_marked(old, #[trigger] self.jobs()[i], center)
        &&& self.loaded() == old.loaded()
        &&& self.meshed() == old.meshed()
        &&& self.backlog() == old.backlog()
        &&& self.updates() == old.updates()
        &&& self.same_settings(old)
    }

    /// How sorting the finished builds `done` changed `old` into `self`.
    pub open spec fn sorted_from(&self, old: &Self, center: ChunkCoord, done: Seq<ChunkBuildResult>) -> bool {
        let (h, v) = old.retention();
        let r = sort_completed(old.states(), done, center, h, v);
        &&& self.states() == r.0
        &&& self.backlog() == old.backlog() + r.1
        &&& self.loaded() == old.loaded()
        &&& self.meshed() == old.meshed()
        &&& self.dirty() == old.dirty()
        &&& self.updates() == old.updates()
        &&& self.jobs() == old.jobs()
        &&& self.same_settings(old)
    }
}

/// Taking in a build depends on the world before only through what `same_but_backlog`
/// compares.
proof fn lemma_takes_in_ignores_backlog(after: VoxelWorld, x: VoxelWorld, y: VoxelWorld, center: ChunkCoord, built: ChunkBuildResult, counted: bool)
    requires
        x.same_but_backlog(&y),
        after.takes_in(&x, center, built, counted),
    ensures
        after.takes_in(&y, center, built, counted),
{
    let c = built.coord;
    assert(after.dirty_marks(&x, c) == after.dirty_marks(&y, c));
    assert(after.neighbor_bookings(&x, c) == after.neighbor_bookings(&y, c));
    assert(after.touches_loaded_or(&x, c) ==> after.touches_loaded_or(&y, c)) by {
        reveal(VoxelWorld::touches_loaded_or);
        if after.touches_loaded_or(&x, c) {
            assert forall|i: int| y.dirty().len() <= i < after.dirty().len() implies y.loaded().dom().contains(
                #[trigger] after.dirty()[i],
            ) by {}
            assert forall|d: ChunkCoord| d != c && !y.loaded().dom().contains(d) implies #[trigger] after.same_state_at(&y, d) by {
                assert(after.same_state_at(&x, d));
            }
        }
    }
    assert forall|d: ChunkCoord|
        #![trigger after.same_state_at(&x, d)]
        #![trigger after.same_state_at(&y, d)]
        after.same_state_at(&x, d) == after.same_state_at(&y, d) by {}
}

impl VoxelWorld {
    /// Everything the world keeps track of lies within the retention bounds `h`, `v` of
    /// `center`: the loaded chunks, the build bookkeeping, the meshes, the dirty marks and the
    /// waiting builds.
    pub open spec fn kept_within(&self, center: ChunkCoord, h: u32, v: u32) -> bool {
        &&& forall|c: ChunkCoord| #[trigger] self.loaded().dom().contains(c) ==> within_bounds(center, c, h, v)
        &&& forall|c: ChunkCoord| #[trigger] self.states().dom().contains(c) ==> within_bounds(center, c, h, v)
        &&& forall|i: int| 0 <= i < self.meshed().len() ==> within_bounds(center, #[trigger] self.meshed()[i], h, v)
        &&& forall|i: int| 0 <= i < self.dirty().len() ==> within_bounds(center, #[trigger] self.dirty()[i], h, v)
        &&& forall|i: int| 0 <= i < self.backlog().len() ==> within_bounds(center, #[trigger] self.backlog()[i].coord, h, v)
    }
}

/// Sorting finished builds keeps the chunks that have bookkeeping, and every build it keeps
/// waiting lies within the retention bounds.
proof fn lemma_sort_completed_within(
    states: Map<ChunkCoord, ChunkStateEntry>,
    done: Seq<ChunkBuildResult>,
    center: ChunkCoord,
    h: u32,
    v: u32,
)
    ensures
        sort_completed(states, done, center, h, v).0.dom() == states.dom(),
        forall|i: int|
            0 <= i < sort_completed(states, done, center, h, v).1.len() ==> within_bounds(
                center,
                (#[trigger] sort_completed(states, done, center, h, v).1[i]).coord,
                h,
                v,
            ),
    decreases done.len(),
{
    if done.len() > 0 {
        lemma_sort_completed_within(states, done.drop_last(), center, h, v);
        let prior = sort_completed(states, done.drop_last(), center, h, v);
        let b = done.last();
        let st = prior.0;
        if st.dom().contains(b.coord) && st[b.coord].state.pending_revision == Some(b.revision) {
            assert(with_state(st, b.coord, ChunkRuntimeState { pending_revision: None, ..st[b.coord].state }).dom() =~= st.dom());
        }
    }
}

/// The request box of radii `rh`, `rv` lies within retention bounds at least as wide.
proof fn lemma_box_within(center: ChunkCoord, rh: int, rv: int, h: u32, v: u32, c: ChunkCoord)
    requires
        in_box(center, rh, rv, c),
        rh <= h,
        rv <= v,
    ensures
        within_bounds(center, c, h, v),
{
}

proof fn lemma_evicted_within(w: VoxelWorld, old: VoxelWorld, center: ChunkCoord)
    requires
        w.evicted_from(&old, center),
    ensures
        w.kept_within(center, old.retention().0, old.retention().1),
{
    let (h, v) = old.retention();
    assert forall|i: int| 0 <= i < w.meshed().len() implies within_bounds(center, #[trigger] w.meshed()[i], h, v) by {
        old.meshed().lemma_filter_pred(retained(center, h, v), i);
    }
    assert forall|i: int| 0 <= i < w.dirty().len() implies within_bounds(center, #[trigger] w.dirty()[i], h, v) by {
        old.dirty().lemma_filter_pred(retained(center, h, v), i);
    }
    assert forall|i: int| 0 <= i < w.backlog().len() implies within_bounds(center, #[trigger] w.backlog()[i].coord, h, v) by {
        old.backlog().lemma_filter_pred(result_kept(center, h, v), i);
    }
}

proof fn lemma_requested_within(w: VoxelWorld, old: VoxelWorld, center: ChunkCoord, n: usize)
    requires
        w.requested_from(&old, center, n),
        old.kept_within(center, old.retention().0, old.retention().1),
        old.request_radii().0 <= old.retention().0,
        old.request_radii().1 <= old.retention().1,
    ensures
        w.kept_within(center, old.retention().0, old.retention().1),
{
    let (h, v) = old.retention();
    assert forall|c: ChunkCoord| #[trigger] w.states().dom().contains(c) implies within_bounds(center, c, h, v) by {
        let (rh, rv) = old.request_radii();
        if old.accepting() && in_box(center, rh as int, rv as int, c) && old.missing(c) {
            lemma_box_within(center, rh as int, rv as int, h, v, c);
        } else {
            assert(w.same_state_at(&old, c));
        }
    }
}

proof fn lemma_dirty_worked_within(w: VoxelWorld, old: VoxelWorld, center: ChunkCoord, n: usize)
    requires
        w.dirty_worked_from(&old, center, n),
        old.kept_within(center, old.retention().0, old.retention().1),
    ensures
        w.kept_within(center, old.retention().0, old.retention().1),
{
    let (h, v) = old.retention();
    let taken = old.dirty_taken();
    assert forall|i: int| 0 <= i < w.dirty().len() implies within_bounds(center, #[trigger] w.dirty()[i], h, v) by {
        assert(w.dirty()[i] == old.dirty()[i + taken]);
    }
    assert forall|c: ChunkCoord| #[trigger] w.states().dom().contains(c) implies within_bounds(center, c, h, v) by {
        if old.dirty().take(taken).contains(c) {
            assert(w.remesh_effect(&old, c, center));
            if !(old.loaded().dom().contains(c) && within_bounds(center, c, h, v)) {
                assert(w.same_state_at(&old, c));
            }
        } else {
            assert(w.same_state_at(&old, c));
        }
    }
}

proof fn lemma_sorted_within(w: VoxelWorld, old: VoxelWorld, center: ChunkCoord, done: Seq<ChunkBuildResult>)
    requires
        w.sorted_from(&old, center, done),
        old.kept_within(center, old.retention().0, old.retention().1),
    ensures
        w.kept_within(center, old.retention().0, old.retention().1),
{
    let (h, v) = old.retention();
    lemma_sort_completed_within(old.states(), done, center, h, v);
    let r = sort_completed(old.states(), done, center, h, v);
    assert forall|c: ChunkCoord| #[trigger] w.states().dom().contains(c) implies within_bounds(center, c, h, v) by {
        assert(old.states().dom().contains(c));
    }
    assert forall|i: int| 0 <= i < w.backlog().len() implies within_bounds(center, #[trigger] w.backlog()[i].coord, h, v) by {
        if i < old.backlog().len() {
            assert(w.backlog()[i] == old.backlog()[i]);
        } else {
            assert(w.backlog()[i] == r.1[i - old.backlog().len()]);
        }
    }
}

proof fn lemma_step_within(w: VoxelWorld, prev: VoxelWorld, center: ChunkCoord, counted: bool)
    requires
        w.backlog_step(&prev, center, counted),
        prev.kept_within(center, prev.retention().0, prev.retention().1),
    ensures
        w.kept_within(center, prev.retention().0, prev.retention().1),
{
    let (h, v) = prev.retention();
    let b = prev.backlog()[0];
    let c = b.coord;
    assert forall|i: int| 0 <= i < w.backlog().len() implies within_bounds(center, #[trigger] w.backlog()[i].coord, h, v) by {
        assert(w.backlog()[i] == prev.backlog()[i + 1]);
    }
    if within_bounds(center, c, h, v) {
        assert(w.takes_in(&prev, center, b, counted));
        let taken = prev.states().dom().contains(c) && accepts(prev.states()[c].state, b.revision);
        if taken {
            reveal(VoxelWorld::touches_loaded_or);
            assert forall|i: int| 0 <= i < w.meshed().len() implies within_bounds(center, #[trigger] w.meshed()[i], h, v) by {
                let m = w.meshed()[i];
                assert(w.meshed().to_set().contains(m));
                if m != c {
                    assert(prev.meshed().to_set().contains(m));
                    let j = choose|j: int| 0 <= j < prev.meshed().len() && prev.meshed()[j] == m;
                    assert(within_bounds(center, prev.meshed()[j], h, v));
                }
            }
            assert forall|d: ChunkCoord| #[trigger] w.states().dom().contains(d) implies within_bounds(center, d, h, v) by {
                if d != c && !prev.loaded().dom().contains(d) {
                    assert(w.same_state_at(&prev, d));
                }
            }
            assert forall|i: int| 0 <= i < w.dirty().len() implies within_bounds(center, #[trigger] w.dirty()[i], h, v) by {
                if i < prev.dirty().len() {
                    let brought = brings_blocks(b.output);
                    let changed = brought && (!prev.loaded().dom().contains(c) || prev.loaded()[c].blocks() != b.chunk.blocks());
                    if changed {
                        assert(w.dirty_marks(&prev, c));
                        assert(w.dirty().take(prev.dirty().len() as int)[i] == prev.dirty()[i]);
                    }
                    assert(w.dirty()[i] == prev.dirty()[i]);
                } else {
                    assert(prev.loaded().dom().contains(w.dirty()[i]));
                }
            }
        }
    }
}

proof fn lemma_run_within(run: Seq<VoxelWorld>, counted: Seq<bool>, center: ChunkCoord, h: u32, v: u32, k: int)
    requires
        backlog_run(run, counted, center),
        run[0].kept_within(center, h, v),
        run[0].retention() == (h, v),
        0 <= k < run.len(),
    ensures
        run[k].kept_within(center, h, v),
        run[k].retention() == (h, v),
    decreases k,
{
    if k > 0 {
        lemma_run_within(run, counted, center, h, v, k - 1);
        assert(run_step(run, counted, center, k - 1));
        lemma_step_within(run[k], run[k - 1], center, counted[k - 1]);
    }
}

impl VoxelWorld {
    /// One tick changed `old` into `self` through the worlds `w1` to `w4` and the run `run`:
    /// everything outside the retention bounds dropped, with the dropped meshes queued for
    /// removal (`w1`); the missing chunks of the request box asked for, `from_box` jobs (`w2`);
    /// the oldest dirty marks worked through, `from_dirty` rebuilds asked for or booked
    /// (`w3`); the finished builds `done` sorted into the waiting queue (`w4`); and the oldest
    /// waiting builds taken in one after another, as many as the budget allows, oldest first
    /// (`run`, from `w4` to `self`). `report` counts what was asked for and what was completed.
    pub open spec fn ticked_through(
        &self,
        old: &Self,
        camera_block: IVec3,
        done: Seq<ChunkBuildResult>,
        report: VoxelTickReport,
        w1: VoxelWorld,
        w2: VoxelWorld,
        w3: VoxelWorld,
        w4: VoxelWorld,
        run: Seq<VoxelWorld>,
        counted: Seq<bool>,
        from_box: usize,
        from_dirty: usize,
    ) -> bool {
        let center = chunk_of(camera_block);
        let budget = if old.limits().0 < 1 { 1 } else { old.limits().0 as int };
        let taken = if w4.backlog().len() < budget { w4.backlog().len() as int } else { budget };
        &&& w1.evicted_from(old, center)
        &&& w2.requested_from(&w1, center, from_box)
        &&& w3.dirty_worked_from(&w2, center, from_dirty)
        &&& w4.sorted_from(&w3, center, done)
        &&& backlog_run(run, counted, center)
        &&& run[0] == w4
        &&& run.last() == *self
        &&& counted.len() == taken
        &&& report.completed == count_true(counted)
        &&& report.requested == if from_box + from_dirty > usize::MAX { usize::MAX } else { (from_box + from_dirty) as usize }
    }
}

/// After a tick whose request box is no wider than the retention bounds, everything the world
/// keeps track of (loaded chunks, bookkeeping, meshes, dirty marks, waiting builds) lies within
/// the retention bounds around the camera's chunk.
pub proof fn law_tick_keeps_within_retention(
    after: VoxelWorld,
    old: VoxelWorld,
    camera_block: IVec3,
    done: Seq<ChunkBuildResult>,
    report: VoxelTickReport,
    w1: VoxelWorld,
    w2: VoxelWorld,
    w3: VoxelWorld,
    w4: VoxelWorld,
    run: Seq<VoxelWorld>,
    counted: Seq<bool>,
    from_box: usize,
    from_dirty: usize,
)
    requires
        after.ticked_through(&old, camera_block, done, report, w1, w2, w3, w4, run, counted, from_box, from_dirty),
        old.request_radii().0 <= old.retention().0,
        old.request_radii().1 <= old.retention().1,
    ensures
        after.kept_within(chunk_of(camera_block), old.retention().0, old.retention().1),
{
    let center = chunk_of(camera_block);
    let (h, v) = old.retention();
    lemma_evicted_within(w1, old, center);
    lemma_requested_within(w2, w1, center, from_box);
    lemma_dirty_worked_within(w3, w2, center, from_dirty);
    lemma_sorted_within(w4, w3, center, done);
    lemma_run_within(run, counted, center, h, v, run.len() - 1);
}

/// Step `i` of the run `ws`: `ws[i + 1]` follows `ws[i]` by one `backlog_step`.
pub open spec fn run_step(ws: Seq<VoxelWorld>, counted: Seq<bool>, center: ChunkCoord, i: int) -> bool {
    ws[i + 1].backlog_step(&ws[i], center, counted[i])
}

/// `ws` runs from its first world to its last by `backlog_step`s; `counted[i]` tells whether
/// step `i` counted as completed.
pub open spec fn backlog_run(ws: Seq<VoxelWorld>, counted: Seq<bool>, center: ChunkCoord) -> bool {
    &&& ws.len() == counted.len() + 1
    &&& forall|i: int| 0 <= i < counted.len() ==> #[trigger] run_step(ws, counted, center, i)
}

/// Sorting finished builds in arrival order: a build is kept when a build of its chunk at its
/// revision is under way, which it then ends; a kept build whose chunk lies within the retention
/// bounds waits to be taken in, any other is dropped. (bookkeeping after, builds that wait)
pub open spec fn sort_completed(
    states: Map<ChunkCoord, ChunkStateEntry>,
    done: Seq<ChunkBuildResult>,
    center: ChunkCoord,
    h: u32,
    v: u32,
) -> (Map<ChunkCoord, ChunkStateEntry>, Seq<ChunkBuildResult>)
    decreases done.len(),
{
    if done.len() == 0 {
        (states, Seq::empty())
    } else {
        let prior = sort_completed(states, done.drop_last(), center, h, v);
        let b = done.last();
        let st = prior.0;
        if st.dom().contains(b.coord) && st[b.coord].state.pending_revision == Some(b.revision) {
            (
                with_state(st, b.coord, ChunkRuntimeState { pending_revision: None, ..st[b.coord].state }),
                if within_bounds(center, b.coord, h, v) {
                    prior.1.push(b)
                } else {
                    prior.1
                },
            )
        } else {
            prior
        }
    }
}

pub open spec fn pending_total(s: Seq<ChunkStateEntry>) -> nat
    decreases s.len(),
{
    if s.len() == 0 {
        0
    } else {
        pending_total(s.drop_last()) + if s.last().state.pending_revision is Some {
            1nat
        } else {
            0nat
        }
    }
}

impl VoxelWorld {
    /// The number of chunks with a build under way.
    pub closed spec fn pending_count(&self) -> nat {
        pending_total(self.states@)
    }

    /// Sorts the finished builds `done`, in order: see `sort_completed`.
    fn accept_completed(&mut self, center: ChunkCoord, done: Vec<ChunkBuildResult>)
        requires
            old(self).wf(),
            forall|i: int| 0 <= i < done@.len() ==> result_ok(#[trigger] done@[i]),
        ensures
            final(self).wf(),
            ({
                let (h, v) = old(self).retention();
                let r = sort_completed(old(self).states(), done@, center, h, v);
                &&& final(self).states() == r.0
                &&& final(self).backlog() == old(self).backlog() + r.1
            }),
            final(self).loaded() == old(self).loaded(),
            final(self).meshed() == old(self).meshed(),
            final(self).dirty() == old(self).dirty(),
            final(self).updates() == old(self).updates(),
            final(self).jobs() == old(self).jobs(),
            final(self).accepting() == old(self).accepting(),
            final(self).request_radii() == old(self).request_radii(),
            final(self).retention() == old(self).retention(),
            final(self).limits() == old(self).limits(),
    {
        let ghost all = done@;
        let ghost start = *self;
        let h = self.chunk_retention_horizontal_radius;
        let vr = self.chunk_retention_vertical_radius;
        let mut done = done;
        let mut i: usize = 0;
        assert(all.skip(0) == all);
        assert(all.len() == done.len());
        while done.len() > 0
            invariant
                self.wf(),
                all.len() <= usize::MAX,
                i <= all.len(),
                done@ == all.skip(i as int),
                forall|j: int| 0 <= j < all.len() ==> result_ok(#[trigger] all[j]),
                h == start.retention().0,
                vr == start.retention().1,
                ({
                    let r = sort_completed(start.states(), all.take(i as int), center, h, vr);
                    &&& self.states() == r.0
                    &&& self.backlog() == start.backlog() + r.1
                }),
                self.loaded() == start.loaded(),
                self.meshed() == start.meshed(),
                self.dirty() == start.dirty(),
                self.updates() == start.updates(),
                self.jobs() == start.jobs(),
                self.accepting() == start.accepting(),
                self.request_radii() == start.request_radii(),
                self.retention() == start.retention(),
                self.limits() == start.limits(),
            decreases done@.len(),
        {
            proof {
                assert(done@.len() == all.len() - i);
            }
            let built = done.remove(0);
            proof {
                assert(built == all[i as int]);
                assert(done@ =~= all.skip(i + 1));
                assert(all.take(i + 1).drop_last() =~= all.take(i as int));
                assert(all.take(i + 1).last() == built);
            }
            let ghost prior_backlog = self.backlog();
            match self.state_index(built.coord) {
                Some(k) => {
                    let state = self.states[k].state;
                    let matches_pending = match state.pending_revision {
                        Some(p) => p == built.revision,
                        None => false,
                    };
                    if matches_pending {
                        self.put_state(built.coord, ChunkRuntimeState { pending_revision: None, ..state });
                        if is_within_retention_bounds(center, built.coord, h, vr) {
                            let ghost gb = built;
                            self.integration_backlog.push(built);
                            proof {
                                assert(self.backlog() =~= prior_backlog.push(gb));
                                assert forall|j: int| 0 <= j < self.integration_backlog@.len() implies result_ok(#[trigger] self.integration_backlog@[j]) by {
                                    if j < prior_backlog.len() {
                                        assert(self.integration_backlog@[j] == prior_backlog[j]);
                                    }
                                }
                            }
                        }
                    }
                },
                None => {},
            }
            i = i + 1;
        }
        proof {
            assert(all.take(all.len() as int) == all);
        }
    }

    /// Takes in the oldest waiting builds, at most the per-tick limit (at least one); a build whose
    /// chunk now lies outside the retention bounds of `center` is dropped. Returns the number of
    /// builds taken in.
    fn integrate_backlog(&mut self, center: ChunkCoord) -> (r: (usize, Ghost<Seq<VoxelWorld>>, Ghost<Seq<bool>>))
        requires
            old(self).wf(),
        ensures
            final(self).wf(),
            ({
                let budget = if old(self).limits().0 < 1 { 1 } else { old(self).limits().0 as int };
                let taken = if old(self).backlog().len() < budget { old(self).backlog().len() as int } else { budget };
                let (h, v) = old(self).retention();
                &&& final(self).backlog() == old(self).backlog().skip(taken)
                &&& r.0 <= taken
                &&& backlog_run(r.1@, r.2@, center)
                &&& r.1@[0] == *old(self)
                &&& r.1@.last() == *final(self)
                &&& r.2@.len() == taken
                &&& r.0 == count_true(r.2@)
                &&& forall|c: ChunkCoord| #[trigger] final(self).loaded().dom().contains(c) ==> old(self).loaded().dom().contains(c)
                    || within_bounds(center, c, h, v)
            }),
            old(self).backlog().len() == 0 ==> final(self).states() == old(self).states() && final(self).loaded() == old(self).loaded(),
            old(self).jobs().len() <= final(self).jobs().len(),
            final(self).jobs().take(old(self).jobs().len() as int) == old(self).jobs(),
            final(self).accepting() == old(self).accepting(),
            final(self).request_radii() == old(self).request_radii(),
            final(self).retention() == old(self).retention(),
            final(self).limits() == old(self).limits(),
    {
        let budget: usize = if self.max_chunk_integrations_per_tick < 1 { 1 } else { self.max_chunk_integrations_per_tick };
        let ghost start = *self;
        let h = self.chunk_retention_horizontal_radius;
        let vr = self.chunk_retention_vertical_radius;
        let mut completed: usize = 0;
        let mut n: usize = 0;
        let ghost mut ws: Seq<VoxelWorld> = seq![*self];
        let ghost mut cs: Seq<bool> = Seq::empty();
        while n < budget && self.integration_backlog.len() > 0
            invariant
                self.wf(),
                budget as int == if start.limits().0 < 1 { 1 } else { start.limits().0 as int },
                n <= budget,
                n <= start.backlog().len(),
                completed <= n,
                ws.len() == n + 1,
                cs.len() == n,
                ws[0] == start,
                ws.last() == *self,
                backlog_run(ws, cs, center),
                completed == count_true(cs),
                h == start.retention().0,
                vr == start.retention().1,
                self.backlog() == start.backlog().skip(n as int),
                start.backlog().len() == 0 ==> self.states() == start.states() && self.loaded() == start.loaded(),
                forall|c: ChunkCoord| #[trigger] self.loaded().dom().contains(c) ==> start.loaded().dom().contains(c)
                    || within_bounds(center, c, h, vr),
                start.jobs().len() <= self.jobs().len(),
                self.jobs().take(start.jobs().len() as int) == start.jobs(),
                self.accepting() == start.accepting(),
                self.request_radii() == start.request_radii(),
                self.retention() == start.retention(),
                self.limits() == start.limits(),
            decreases budget - n,
        {
            let ghost before = *self;
            let built = self.integration_backlog.remove(0);
            proof {
                assert(built == before.integration_backlog@[0]);
                assert(result_ok(built));
                assert(self.backlog() =~= start.backlog().skip(n + 1));
                assert forall|j: int| 0 <= j < self.integration_backlog@.len() implies result_ok(#[trigger] self.integration_backlog@[j]) by {
                    assert(self.integration_backlog@[j] == before.integration_backlog@[j + 1]);
                }
            }
            n = n + 1;
            let ghost mid = *self;
            let ghost gb = built;
            let inside = is_within_retention_bounds(center, built.coord, h, vr);
            let mut counted = false;
            if inside {
                counted = self.integrate_chunk_result(center, built);
                if counted {
                    completed = completed + 1;
                }
            }
            proof {
                let after = *self;
                assert(before.backlog()[0] == gb);
                assert(mid.same_but_backlog(&before));
                assert(after.backlog() =~= before.backlog().skip(1));
                assert(before.retention() == (h, vr));
                assert(inside == within_bounds(center, gb.coord, h, vr));
                assert(after.same_settings(&before));
                if inside {
                    assert(after.takes_in(&mid, center, gb, counted));
                    assert(mid.loaded() == before.loaded());
                    assert(mid.meshed() == before.meshed());
                    assert(mid.states() == before.states());
                    assert(mid.dirty() == before.dirty());
                    assert(mid.updates() == before.updates());
                    assert(mid.accepting() == before.accepting());
                    assert(mid.retention() == before.retention());
                    lemma_takes_in_ignores_backlog(after, mid, before, center, gb, counted);
                } else {
                    assert(after == mid);
                }
                assert(after.backlog_step(&before, center, counted));
                let ws2 = ws.push(after);
                let cs2 = cs.push(counted);
                assert forall|i: int| 0 <= i < cs2.len() implies #[trigger] run_step(ws2, cs2, center, i) by {
                    if i < cs.len() {
                        assert(ws2[i] == ws[i] && ws2[i + 1] == ws[i + 1] && cs2[i] == cs[i]);
                        assert(run_step(ws, cs, center, i));
                    } else {
                        assert(ws2[i] == before && ws2[i + 1] == after && cs2[i] == counted);
                    }
                }
                assert(cs2.drop_last() == cs);
                ws = ws2;
                cs = cs2;
            }
            proof {
                assert(mid.loaded() == before.loaded());
                assert(mid.jobs() == before.jobs());
                assert forall|c: ChunkCoord| #[trigger] self.loaded().dom().contains(c) implies start.loaded().dom().contains(c)
                    || within_bounds(center, c, h, vr) by {
                    if !(inside && c == gb.coord) {
                        assert(mid.loaded().dom().contains(c));
                        assert(before.loaded().dom().contains(c));
                    }
                }
                assert(self.jobs().take(start.jobs().len() as int) =~= start.jobs()) by {
                    if self.jobs() != mid.jobs() {
                        assert(self.jobs().drop_last() == mid.jobs());
                        assert(self.jobs().take(start.jobs().len() as int) =~= mid.jobs().take(start.jobs().len() as int));
                    }
                }
            }
        }
        (completed, Ghost(ws), Ghost(cs))
    }

    /// The number of chunks with a build under way.
    fn pending_chunk_count(&self) -> (n: usize)
        ensures
            n == self.pending_count(),
    {
        let mut n: usize = 0;
        let mut i: usize = 0;
        while i < self.states.len()
            invariant
                i <= self.states@.len(),
                n == pending_total(self.states@.take(i as int)),
                n <= i,
            decreases self.states@.len() - i,
        {
            proof {
                assert(self.states@.take(i + 1).drop_last() == self.states@.take(i as int));
            }
            if self.states[i].state.pending_revision.is_some() {
                n = n + 1;
            }
            i = i + 1;
        }
        assert(self.states@.take(self.states@.len() as int) == self.states@);
        n
    }

    /// One step of streaming around the camera, standing in world block `camera_block`, with the
    /// builds `done` that the pipeline finished since the last step: everything outside the
    /// retention bounds is dropped; every missing chunk of the request box is asked for; the
    /// oldest dirty marks are worked through; the finished builds are sorted; and the oldest
    /// waiting builds are taken in.
    pub fn tick(&mut self, camera_block: IVec3, done: Vec<ChunkBuildResult>) -> (report: VoxelTickReport)
        requires
            old(self).wf(),
            near_origin(chunk_of(camera_block)),
            forall|i: int| 0 <= i < done@.len() ==> result_ok(#[trigger] done@[i]),
        ensures
            final(self).wf(),
            ({
                let center = chunk_of(camera_block);
                let (h, v) = old(self).retention();
                let budget = if old(self).limits().0 < 1 { 1 } else { old(self).limits().0 as int };
                &&& forall|c: ChunkCoord| #[trigger] final(self).loaded().dom().contains(c) ==> within_bounds(center, c, h, v)
                &&& forall|c: ChunkCoord| #[trigger] final(self).loaded().dom().contains(c) ==> {
                    &&& c.x - center.x <= h && center.x - c.x <= h
                    &&& c.y - center.y <= v && center.y - c.y <= v
                    &&& c.z - center.z <= h && center.z - c.z <= h
                }
                &&& old(self).request_radii().0 <= h && old(self).request_radii().1 <= v ==> final(self).kept_within(center, h, v)
                &&& report.completed <= budget
                &&& report.loaded_chunks == final(self).loaded().dom().len()
                &&& report.pending_chunks == final(self).pending_count()
                &&& report.mesh_updates_queued == final(self).updates().len()
                &&& old(self).jobs().len() <= final(self).jobs().len()
                &&& final(self).jobs().take(old(self).jobs().len() as int) == old(self).jobs()
                &&& old(self).accepting() && done@.len() == 0 && old(self).backlog().len() == 0 ==> forall|c: ChunkCoord|
                    #[trigger] in_box(center, old(self).request_radii().0 as int, old(self).request_radii().1 as int, c)
                    ==> final(self).loaded().dom().contains(c) || final(self).pending(c)
            }),
            exists|w1: VoxelWorld, w2: VoxelWorld, w3: VoxelWorld, w4: VoxelWorld, run: Seq<VoxelWorld>, counted: Seq<bool>, from_box: usize, from_dirty: usize|
                #[trigger] final(self).ticked_through(old(self), camera_block, done@, report, w1, w2, w3, w4, run, counted, from_box, from_dirty),
            final(self).accepting() == old(self).accepting(),
            final(self).request_radii() == old(self).request_radii(),
            final(self).retention() == old(self).retention(),
            final(self).limits() == old(self).limits(),
    {
        let center = ChunkCoord::from_world(camera_block);
        let ghost start = *self;
        let h = self.chunk_retention_horizontal_radius;
        let vr = self.chunk_retention_vertical_radius;
        self.evict_outside_retention(center);
        let ghost after_evict = *self;
        let from_box = self.request_missing_chunks(center);
        let ghost after_box = *self;
        let from_dirty = self.process_dirty_remeshes(center);
        let requested = from_box.saturating_add(from_dirty);
        let ghost after_dirty = *self;
        let ghost all_done = done@;
        self.accept_completed(center, done);
        let ghost after_sort = *self;
        let (completed, Ghost(run), Ghost(counted)) = self.integrate_backlog(center);
        proof {
            lemma_keyed_len(self.chunks@, chunk_key());
            assert forall|c: ChunkCoord| #[trigger] self.loaded().dom().contains(c) implies within_bounds(center, c, h, vr) by {
                if after_sort.loaded().dom().contains(c) {
                    assert(after_dirty.loaded().dom().contains(c));
                    assert(after_box.loaded().dom().contains(c));
                    assert(after_evict.loaded().dom().contains(c));
                }
            }
            assert(after_evict.jobs() == start.jobs());
            assert(after_box.jobs().take(start.jobs().len() as int) == start.jobs());
            assert(after_dirty.jobs().take(after_box.jobs().len() as int) == after_box.jobs());
            assert(after_dirty.jobs().take(start.jobs().len() as int) =~= start.jobs()) by {
                assert(after_dirty.jobs().take(start.jobs().len() as int) =~= after_dirty.jobs().take(after_box.jobs().len() as int).take(start.jobs().len() as int));
            }
            assert(after_sort.jobs() == after_dirty.jobs());
            if start.accepting() && all_done.len() == 0 && start.backlog().len() == 0 {
                assert(after_evict.backlog() =~= Seq::<ChunkBuildResult>::empty()) by {
                    reveal(Seq::filter);
                }
                assert(after_sort.states() == after_dirty.states());
                assert(after_sort.backlog() =~= after_evict.backlog());
                assert forall|c: ChunkCoord|
                    #[trigger] in_box(center, start.request_radii().0 as int, start.request_radii().1 as int, c)
                    implies self.loaded().dom().contains(c) || self.pending(c) by {
                    assert(after_evict.request_radii() == start.request_radii());
                    if after_evict.missing(c) {
                        assert(after_box.states().dom().contains(c));
                    } else {
                        assert(after_box.states().dom().contains(c) == after_evict.states().dom().contains(c));
                    }
                    assert(after_box.loaded().dom().contains(c) || after_box.pending(c));
                    if !after_box.loaded().dom().contains(c) {
                        assert(after_dirty.same_state_at(&after_box, c));
                        assert(after_dirty.pending(c));
                    }
                }
            }
            assert(self.jobs().take(start.jobs().len() as int) =~= start.jobs()) by {
                assert(self.jobs().take(after_sort.jobs().len() as int) == after_sort.jobs());
                assert(self.jobs().take(start.jobs().len() as int) =~= self.jobs().take(after_sort.jobs().len() as int).take(start.jobs().len() as int));
            }
        }
        let report = VoxelTickReport {
            requested,
            completed,
            loaded_chunks: self.chunks.len(),
            pending_chunks: self.pending_chunk_count(),
            mesh_updates_queued: self.mesh_updates.len(),
        };
        proof {
            assert(after_evict.evicted_from(&start, center));
            assert(after_box.requested_from(&after_evict, center, from_box));
            assert(after_dirty.dirty_worked_from(&after_box, center, from_dirty));
            assert(after_sort.sorted_from(&after_dirty, center, all_done));
            assert(self.ticked_through(&start, camera_block, all_done, report, after_evict, after_box, after_dirty, after_sort, run, counted, from_box, from_dirty));
            if start.request_radii().0 <= h && start.request_radii().1 <= vr {
                law_tick_keeps_within_retention(*self, start, camera_block, all_done, report, after_evict, after_box, after_dirty, after_sort, run, counted, from_box, from_dirty);
            }
        }
        report
    }
}

impl VoxelWorld {
    /// Hands out the oldest mesh changes, at most `max_updates` (at least one).
    pub fn drain_mesh_updates(&mut self, max_updates: usize) -> (out: Vec<ChunkMeshUpdate>)
        requires
            old(self).wf(),
        ensures
            final(self).wf(),
            ({
                let budget = if max_updates < 1 { 1 } else { max_updates as int };
                let taken = if old(self).updates().len() < budget { old(self).updates().len() as int } else { budget };
                &&& out@ == old(self).updates().take(taken)
                &&& final(self).updates() == old(self).updates().skip(taken)
            }),
            final(self).loaded() == old(self).loaded(),
            final(self).states() == old(self).states(),
            final(self).meshed() == old(self).meshed(),
            final(self).dirty() == old(self).dirty(),
            final(self).backlog() == old(self).backlog(),
            final(self).jobs() == old(self).jobs(),
            final(self).accepting() == old(self).accepting(),
            final(self).request_radii() == old(self).request_radii(),
            final(self).retention() == old(self).retention(),
            final(self).limits() == old(self).limits(),
    {
        let budget: usize = if max_updates < 1 { 1 } else { max_updates };
        let mut queue: Vec<ChunkMeshUpdate> = Vec::new();
        queue.append(&mut self.mesh_updates);
        let ghost start = queue@;
        let mut out: Vec<ChunkMeshUpdate> = Vec::new();
        while out.len() < budget && queue.len() > 0
            invariant
                out@.len() <= budget,
                out@.len() <= start.len(),
                out@ == start.take(out@.len() as int),
                queue@ == start.skip(out@.len() as int),
            decreases budget - out@.len(),
        {
            let ghost k = out@.len() as int;
            let u = queue.remove(0);
            out.push(u);
            proof {
                assert(out@ =~= start.take(k + 1));
                assert(queue@ =~= start.skip(k + 1));
            }
        }
        self.mesh_updates.append(&mut queue);
        out
    }

    /// Hands out all jobs waiting for the pipeline, oldest first.
    pub fn take_jobs(&mut self) -> (out: Vec<ChunkJob>)
        requires
            old(self).wf(),
        ensures
            final(self).wf(),
            out@ == old(self).jobs(),
            final(self).jobs().len() == 0,
            final(self).same_but_bookkeeping(old(self)),
            final(self).states() == old(self).states(),
    {
        let mut out: Vec<ChunkJob> = Vec::new();
        out.append(&mut self.jobs);
        out
    }

    pub fn pending_mesh_update_count(&self) -> (n: usize)
        ensures
            n == self.updates().len(),
    {
        self.mesh_updates.len()
    }

    pub fn loaded_chunk_count(&self) -> (n: usize)
        requires
            self.wf(),
        ensures
            n == self.loaded().dom().len(),
    {
        proof {
            lemma_keyed_len(self.chunks@, chunk_key());
        }
        self.chunks.len()
    }

    /// The solid block at world position `world`, if its chunk is loaded.
    pub fn block_at_world(&self, world: IVec3) -> (b: Option<BlockType>)
        requires
            self.wf(),
        ensures
            b == if self.loaded().dom().contains(chunk_of(world)) && crate::world::block::solid(
                self.loaded()[chunk_of(world)].block_at(local_of(world)),
            ) {
                Some(self.loaded()[chunk_of(world)].block_at(local_of(world)))
            } else {
                None
            },
    {
        let (coord, local) = split_world_position(world);
        match self.chunk_index(coord) {
            Some(k) => {
                let block = self.chunks[k].block(local);
                if block.is_solid() {
                    Some(block)
                } else {
                    None
                }
            },
            None => None,
        }
    }

    /// Sets the block at world position `world`, if its chunk is loaded; a change marks the
    /// chunk and its neighbours to be meshed again. Returns whether the chunk is loaded.
    pub fn set_block_world(&mut self, world: IVec3, block: BlockType) -> (loaded: bool)
        requires
            old(self).wf(),
        ensures
            final(self).wf(),
            loaded == old(self).loaded().dom().contains(chunk_of(world)),
            loaded ==> final(self).loaded().dom().contains(chunk_of(world)) && final(self).loaded()[chunk_of(world)].block_at(
                local_of(world),
            ) == block,
            !loaded ==> final(self).loaded() == old(self).loaded() && final(self).states() == old(self).states()
                && final(self).dirty() == old(self).dirty(),
            loaded && old(self).loaded()[chunk_of(world)].block_at(local_of(world)) == block ==> final(self).loaded()
                == old(self).loaded() && final(self).states() == old(self).states() && final(self).dirty() == old(self).dirty(),
            loaded && old(self).loaded()[chunk_of(world)].block_at(local_of(world)) != block ==> {
                let c = chunk_of(world);
                &&& final(self).loaded().dom() == old(self).loaded().dom()
                &&& final(self).loaded()[c].blocks() == old(self).loaded()[c].blocks().update(
                    crate::world::chunk::index_of(local_of(world)),
                    block,
                )
                &&& forall|d: ChunkCoord| d != c && old(self).loaded().dom().contains(d) ==> #[trigger] final(self).loaded()[d]
                    == old(self).loaded()[d]
                &&& old(self).dirty().len() <= final(self).dirty().len()
                &&& final(self).dirty().take(old(self).dirty().len() as int) == old(self).dirty()
                &&& forall|n: ChunkCoord|
                    (n == c || is_neighbor(c, n)) && old(self).loaded().dom().contains(n) && !old(self).pending(n)
                        ==> #[trigger] final(self).dirty().contains(n)
            },
            final(self).meshed() == old(self).meshed(),
            final(self).backlog() == old(self).backlog(),
            final(self).updates() == old(self).updates(),
            final(self).jobs() == old(self).jobs(),
            final(self).accepting() == old(self).accepting(),
            final(self).request_radii() == old(self).request_radii(),
            final(self).retention() == old(self).retention(),
            final(self).limits() == old(self).limits(),
    {
        let (coord, local) = split_world_position(world);
        let k = match self.chunk_index(coord) {
            Some(k) => k,
            None => return false,
        };
        if self.chunks[k].block(local) == block {
            return true;
        }
        proof {
            assert(old(self).chunks@[k as int].wf() && near_origin(old(self).chunks@[k as int].spec_coord()));
            assert(inner(coord));
        }
        let mut chunk = self.chunks[k].duplicate();
        chunk.set_block(local, block);
        let ghost gc = chunk;
        proof {
            lemma_keyed_update(self.chunks@, chunk_key(), k as int, gc);
        }
        self.chunks.set(k, chunk);
        proof {
            assert forall|j: int| 0 <= j < self.chunks@.len() implies (#[trigger] self.chunks@[j]).wf() && near_origin(
                self.chunks@[j].spec_coord(),
            ) by {
                if j != k {
                    assert(self.chunks@[j] == old(self).chunks@[j]);
                } else {
                    assert(old(self).chunks@[j].wf());
                }
            }
            assert(self.loaded().dom() =~= old(self).loaded().dom());
            crate::world::chunk::lemma_index_of_in_range(local);
            assert(self.loaded()[coord].block_at(local) == block);
        }
        let ghost after_set = *self;
        self.mark_chunk_dirty_for_remesh(coord);
        let ghost after_own = *self;
        self.mark_adjacent_chunks_dirty_for_remesh(coord);
        proof {
            assert(!is_neighbor(coord, coord));
            assert(old(self).dirty().len() <= self.dirty().len());
            assert(self.dirty().take(old(self).dirty().len() as int) =~= old(self).dirty()) by {
                assert(after_own.dirty().take(old(self).dirty().len() as int) =~= old(self).dirty());
                assert(self.dirty().take(after_own.dirty().len() as int) == after_own.dirty());
                assert(self.dirty().take(old(self).dirty().len() as int) =~= self.dirty().take(after_own.dirty().len() as int).take(
                    old(self).dirty().len() as int,
                ));
            }
            assert forall|n: ChunkCoord|
                (n == coord || is_neighbor(coord, n)) && old(self).loaded().dom().contains(n) && !old(self).pending(n)
                    implies #[trigger] self.dirty().contains(n) by {
                if n == coord {
                    assert(after_own.dirty().contains(coord)) by {
                        if !after_set.dirty().contains(coord) {
                            assert(after_own.dirty().last() == coord);
                        }
                    }
                    let i = choose|i: int| 0 <= i < after_own.dirty().len() && after_own.dirty()[i] == coord;
                    assert(self.dirty().take(after_own.dirty().len() as int)[i] == coord);
                } else {
                    assert(after_own.same_state_at(&after_set, n)) by {
                        assert(n != coord);
                    }
                    if after_own.dirty().contains(n) {
                        let i = choose|i: int| 0 <= i < after_own.dirty().len() && after_own.dirty()[i] == n;
                        assert(self.dirty().take(after_own.dirty().len() as int)[i] == n);
                    }
                }
            }
        }
        true
    }

    /// The chunks with a mesh.
    pub fn mesh_coords(&self) -> (cs: Vec<ChunkCoord>)
        ensures
            cs@ == self.meshed(),
    {
        self.meshed.clone()
    }

    /// The chunks with a mesh within `max_distance_in_chunks` (at least one) of the chunk of
    /// world block `camera_block`, nearest first: the candidates for drawing, before the view
    /// frustum is applied.
    pub fn chunks_within_distance(&self, camera_block: IVec3, max_distance_in_chunks: u32) -> (cs: Vec<ChunkCoord>)
        requires
            self.wf(),
            near_origin(chunk_of(camera_block)),
            max_distance_in_chunks <= 3_037_000_499,
        ensures
            cs@.no_duplicates(),
            forall|c: ChunkCoord| #[trigger] cs@.contains(c) <==> (self.meshed().contains(c) && crate::world::upload_queue::distance_sq(
                c,
                chunk_of(camera_block),
            ) <= (if max_distance_in_chunks < 1 { 1 } else { max_distance_in_chunks as int }) * (if max_distance_in_chunks < 1 {
                1
            } else {
                max_distance_in_chunks as int
            })),
            forall|p: int, q: int| 0 <= p < q < cs@.len() ==> crate::world::upload_queue::distance_sq(
                #[trigger] cs@[p],
                chunk_of(camera_block),
            ) <= crate::world::upload_queue::distance_sq(#[trigger] cs@[q], chunk_of(camera_block)),
    {
        let center = ChunkCoord::from_world(camera_block);
        let radius: i64 = if max_distance_in_chunks < 1 { 1 } else { max_distance_in_chunks as i64 };
        assert(radius * radius <= i64::MAX) by (nonlinear_arith)
            requires
                1 <= radius <= 3_037_000_499,
        ;
        let radius_sq: i64 = radius * radius;
        let ghost limit = radius_sq as int;
        let mut remaining: Vec<ChunkCoord> = Vec::new();
        let mut i: usize = 0;
        while i < self.meshed.len()
            invariant
                self.wf(),
                near_origin(center),
                radius_sq as int == limit,
                i <= self.meshed@.len(),
                remaining@.no_duplicates(),
                forall|c: ChunkCoord| #[trigger] remaining@.contains(c) <==> (self.meshed@.take(i as int).contains(c)
                    && crate::world::upload_queue::distance_sq(c, center) <= limit),
                forall|j: int| 0 <= j < remaining@.len() ==> near_origin(#[trigger] remaining@[j]),
            decreases self.meshed@.len() - i,
        {
            let c = self.meshed[i];
            proof {
                lemma_near_distance_fits(c, center);
            }
            let ghost before = remaining@;
            if crate::world::upload_queue::chunk_distance_sq(c, center) <= radius_sq {
                proof {
                    assert(!before.contains(c)) by {
                        if before.contains(c) {
                            let prev = self.meshed@.take(i as int);
                            let j = choose|j: int| 0 <= j < prev.len() && #[trigger] prev[j] == c;
                            assert(self.meshed@[j] == self.meshed@[i as int]);
                        }
                    }
                }
                remaining.push(c);
            }
            proof {
                let next = self.meshed@.take(i + 1);
                let prev = self.meshed@.take(i as int);
                assert forall|d: ChunkCoord| #[trigger] remaining@.contains(d) <==> (next.contains(d)
                    && crate::world::upload_queue::distance_sq(d, center) <= limit) by {
                    if next.contains(d) {
                        let j = choose|j: int| 0 <= j < next.len() && #[trigger] next[j] == d;
                        if j < i {
                            assert(prev[j] == d);
                        }
                    }
                    if prev.contains(d) {
                        let j = choose|j: int| 0 <= j < prev.len() && #[trigger] prev[j] == d;
                        assert(next[j] == d);
                    }
                    if d == c {
                        assert(next[i as int] == d);
                    }
                    if remaining@.contains(d) && !before.contains(d) {
                        let j = choose|j: int| 0 <= j < remaining@.len() && #[trigger] remaining@[j] == d;
                        if j < before.len() {
                            assert(before[j] == d);
                        }
                    }
                    if before.contains(d) {
                        let j = choose|j: int| 0 <= j < before.len() && #[trigger] before[j] == d;
                        assert(remaining@[j] == d);
                    }
                    if d == c && remaining@.len() > before.len() {
                        assert(remaining@[before.len() as int] == d);
                    }
                }
                assert forall|a: int, b: int| 0 <= a < remaining@.len() && 0 <= b < remaining@.len() && a != b implies remaining@[a]
                    != remaining@[b] by {
                    if remaining@.len() > before.len() {
                        if a < before.len() && b < before.len() {
                            assert(remaining@[a] == before[a] && remaining@[b] == before[b]);
                        } else if a < before.len() {
                            assert(before.contains(remaining@[a]));
                        } else if b < before.len() {
                            assert(before.contains(remaining@[b]));
                        }
                    }
                }
            }
            i = i + 1;
        }
        proof {
            assert(self.meshed@.take(self.meshed@.len() as int) == self.meshed@);
        }
        let mut sorted: Vec<ChunkCoord> = Vec::new();
        let ghost total = remaining@;
        while remaining.len() > 0
            invariant
                near_origin(center),
                remaining@.no_duplicates(),
                sorted@.no_duplicates(),
                forall|c: ChunkCoord| #[trigger] total.contains(c) <==> (sorted@.contains(c) || remaining@.contains(c)),
                forall|c: ChunkCoord| !(sorted@.contains(c) && remaining@.contains(c)),
                forall|j: int| 0 <= j < remaining@.len() ==> near_origin(#[trigger] remaining@[j]),
                forall|p: int, q: int| 0 <= p < q < sorted@.len() ==> crate::world::upload_queue::distance_sq(
                    #[trigger] sorted@[p],
                    center,
                ) <= crate::world::upload_queue::distance_sq(#[trigger] sorted@[q], center),
                forall|p: int, q: int| 0 <= p < sorted@.len() && 0 <= q < remaining@.len() ==> crate::world::upload_queue::distance_sq(
                    #[trigger] sorted@[p],
                    center,
                ) <= crate::world::upload_queue::distance_sq(#[trigger] remaining@[q], center),
            decreases remaining@.len(),
        {
            let mut best: usize = 0;
            proof {
                lemma_near_distance_fits(remaining@[0], center);
            }
            let mut best_d = crate::world::upload_queue::chunk_distance_sq(remaining[0], center);
            let mut j: usize = 1;
            while j < remaining.len()
                invariant
                    near_origin(center),
                    1 <= j <= remaining@.len(),
                    best < remaining@.len(),
                    forall|k: int| 0 <= k < remaining@.len() ==> near_origin(#[trigger] remaining@[k]),
                    best_d as int == crate::world::upload_queue::distance_sq(remaining@[best as int], center),
                    forall|k: int| 0 <= k < j ==> best_d <= crate::world::upload_queue::distance_sq(#[trigger] remaining@[k], center),
                decreases remaining@.len() - j,
            {
                proof {
                    lemma_near_distance_fits(remaining@[j as int], center);
                }
                let d = crate::world::upload_queue::chunk_distance_sq(remaining[j], center);
                if d < best_d {
                    best = j;
                    best_d = d;
                }
                j = j + 1;
            }
            let ghost before_rem = remaining@;
            let ghost before_sorted = sorted@;
            let c = remaining.remove(best);
            sorted.push(c);
            proof {
                assert(c == before_rem[best as int]);
                assert forall|d: ChunkCoord| #[trigger] remaining@.contains(d) <==> (before_rem.contains(d) && d != c) by {
                    if remaining@.contains(d) {
                        let k = choose|k: int| 0 <= k < remaining@.len() && #[trigger] remaining@[k] == d;
                        let sk = if k < best { k } else { k + 1 };
                        assert(before_rem[sk] == d);
                        assert(sk != best);
                    }
                    if before_rem.contains(d) && d != c {
                        let k = choose|k: int| 0 <= k < before_rem.len() && #[trigger] before_rem[k] == d;
                        if k < best {
                            assert(remaining@[k] == d);
                        } else {
                            assert(k != best);
                            assert(remaining@[k - 1] == d);
                        }
                    }
                }
                assert forall|d: ChunkCoord| #[trigger] sorted@.contains(d) <==> (before_sorted.contains(d) || d == c) by {
                    if sorted@.contains(d) {
                        let k = choose|k: int| 0 <= k < sorted@.len() && #[trigger] sorted@[k] == d;
                        if k < before_sorted.len() {
                            assert(before_sorted[k] == d);
                        }
                    }
                    if before_sorted.contains(d) {
                        let k = choose|k: int| 0 <= k < before_sorted.len() && #[trigger] before_sorted[k] == d;
                        assert(sorted@[k] == d);
                    }
                    if d == c {
                        assert(sorted@[before_sorted.len() as int] == d);
                    }
                }
                assert forall|a: int, b: int| 0 <= a < remaining@.len() && 0 <= b < remaining@.len() && a != b implies remaining@[a]
                    != remaining@[b] by {
                    let sa = if a < best { a } else { a + 1 };
                    let sb = if b < best { b } else { b + 1 };
                    assert(remaining@[a] == before_rem[sa] && remaining@[b] == before_rem[sb]);
                }
                assert forall|a: int, b: int| 0 <= a < sorted@.len() && 0 <= b < sorted@.len() && a != b implies sorted@[a]
                    != sorted@[b] by {
                    if a < before_sorted.len() && b < before_sorted.len() {
                        assert(sorted@[a] == before_sorted[a] && sorted@[b] == before_sorted[b]);
                    } else if a < before_sorted.len() {
                        assert(before_sorted.contains(sorted@[a]));
                        assert(before_rem.contains(c));
                    } else if b < before_sorted.len() {
                        assert(before_sorted.contains(sorted@[b]));
                        assert(before_rem.contains(c));
                    }
                }
                assert forall|k: int| 0 <= k < remaining@.len() implies near_origin(#[trigger] remaining@[k]) by {
                    let sk = if k < best { k } else { k + 1 };
                    assert(remaining@[k] == before_rem[sk]);
                }
                assert forall|p: int, q: int| 0 <= p < q < sorted@.len() implies crate::world::upload_queue::distance_sq(
                    #[trigger] sorted@[p],
                    center,
                ) <= crate::world::upload_queue::distance_sq(#[trigger] sorted@[q], center) by {
                    if q < before_sorted.len() {
                        assert(sorted@[p] == before_sorted[p] && sorted@[q] == before_sorted[q]);
                    } else {
                        assert(sorted@[p] == before_sorted[p]);
                        assert(sorted@[q] == before_rem[best as int]);
                    }
                }
                assert forall|p: int, q: int| 0 <= p < sorted@.len() && 0 <= q < remaining@.len() implies crate::world::upload_queue::distance_sq(
                    #[trigger] sorted@[p],
                    center,
                ) <= crate::world::upload_queue::distance_sq(#[trigger] remaining@[q], center) by {
                    let sq = if q < best { q } else { q + 1 };
                    assert(remaining@[q] == before_rem[sq]);
                    if p < before_sorted.len() {
                        assert(sorted@[p] == before_sorted[p]);
                    } else {
                        assert(sorted@[p] == before_rem[best as int]);
                    }
                }
            }
        }
        proof {
            assert forall|c: ChunkCoord| #[trigger] sorted@.contains(c) <==> (self.meshed().contains(c)
                && crate::world::upload_queue::distance_sq(c, center) <= limit) by {
                assert(total.contains(c) <==> sorted@.contains(c));
            }
        }
        sorted
    }
}

/// Positions near the origin are close enough to one another for `i64` distances.
proof fn lemma_near_distance_fits(a: ChunkCoord, b: ChunkCoord)
    requires
        near_origin(a),
        near_origin(b),
    ensures
        crate::world::upload_queue::distance_fits(a, b),
{
    let dx = a.x - b.x;
    let dy = a.y - b.y;
    let dz = a.z - b.z;
    assert(dx * dx <= 0x0400_0000_0000_0000 && dy * dy <= 0x0400_0000_0000_0000 && dz * dz <= 0x0400_0000_0000_0000) by (nonlinear_arith)
        requires
            -0x2000_0000 <= dx <= 0x2000_0000,
            -0x2000_0000 <= dy <= 0x2000_0000,
            -0x2000_0000 <= dz <= 0x2000_0000,
    ;
}

/// Highest height searched for the ground under a spawn point.
pub const SPAWN_SURFACE_SEARCH_TOP_Y: i32 = 96;

/// Lowest height searched for the ground under a spawn point.
pub const SPAWN_SURFACE_SEARCH_BOTTOM_Y: i32 = -32;

impl VoxelWorld {
    /// A solid block stands at world position `w` in a loaded chunk.
    pub open spec fn solid_at(&self, w: IVec3) -> bool {
        self.loaded().dom().contains(chunk_of(w)) && crate::world::block::solid(
            self.loaded()[chunk_of(w)].block_at(local_of(w)),
        )
    }
}

/// A block written into a loaded chunk is read back: `block_at_world` then gives the block
/// when it is solid, and nothing when it is air.
pub proof fn law_write_then_read(after: VoxelWorld, world: IVec3, block: BlockType)
    requires
        after.loaded().dom().contains(chunk_of(world)),
        after.loaded()[chunk_of(world)].block_at(local_of(world)) == block,
    ensures
        (if after.solid_at(world) { Some(after.loaded()[chunk_of(world)].block_at(local_of(world))) } else { None }) == (if crate::world::block::solid(block) {
            Some(block)
        } else {
            None
        }),
{
}

/// The height of the highest solid block of column (`x`, `z`) between the search bounds, if
/// one is loaded there.
pub fn find_surface_height_in_world(voxel_world: &VoxelWorld, x: i32, z: i32) -> (h: Option<i32>)
    requires
        voxel_world.wf(),
    ensures
        match h {
            Some(y) => SPAWN_SURFACE_SEARCH_BOTTOM_Y <= y <= SPAWN_SURFACE_SEARCH_TOP_Y
                && voxel_world.solid_at(IVec3 { x, y, z })
                && forall|above: i32| y < above <= SPAWN_SURFACE_SEARCH_TOP_Y ==> !#[trigger] voxel_world.solid_at(IVec3 { x, y: above, z }),
            None => forall|y: i32| SPAWN_SURFACE_SEARCH_BOTTOM_Y <= y <= SPAWN_SURFACE_SEARCH_TOP_Y
                ==> !#[trigger] voxel_world.solid_at(IVec3 { x, y, z }),
        },
{
    let mut y: i32 = SPAWN_SURFACE_SEARCH_TOP_Y;
    while y >= SPAWN_SURFACE_SEARCH_BOTTOM_Y
        invariant
            voxel_world.wf(),
            SPAWN_SURFACE_SEARCH_BOTTOM_Y - 1 <= y <= SPAWN_SURFACE_SEARCH_TOP_Y,
            forall|above: i32| y < above <= SPAWN_SURFACE_SEARCH_TOP_Y ==> !#[trigger] voxel_world.solid_at(IVec3 { x, y: above, z }),
        decreases y - SPAWN_SURFACE_SEARCH_BOTTOM_Y + 1,
    {
        if voxel_world.block_at_world(IVec3::new(x, y, z)).is_some() {
            return Some(y);
        }
        y = y - 1;
    }
    None
}

/// A block change waiting for its chunk to be loaded.
#[derive(Clone, Copy, Debug)]
pub struct PendingBlockWrite {
    pub world: IVec3,
    pub block: BlockType,
}

/// Most block changes tried per frame.
pub const MAX_PENDING_BLOCK_WRITES_PER_FRAME: usize = 4096;

/// The block at `p` once `writes` were applied in order to the chunks `loaded`: the last write
/// to `p`, or the block that was there.
pub open spec fn written_block(loaded: Map<ChunkCoord, ChunkData>, writes: Seq<PendingBlockWrite>, p: IVec3) -> BlockType
    decreases writes.len(),
{
    if writes.len() == 0 {
        loaded[chunk_of(p)].block_at(local_of(p))
    } else if writes.last().world == p {
        writes.last().block
    } else {
        written_block(loaded, writes.drop_last(), p)
    }
}

/// The writes among `writes` whose chunk is not among `dom`, in order.
pub open spec fn unloaded_writes(dom: Set<ChunkCoord>, writes: Seq<PendingBlockWrite>) -> Seq<PendingBlockWrite>
    decreases writes.len(),
{
    if writes.len() == 0 {
        Seq::empty()
    } else if dom.contains(chunk_of(writes.last().world)) {
        unloaded_writes(dom, writes.drop_last())
    } else {
        unloaded_writes(dom, writes.drop_last()).push(writes.last())
    }
}

/// Two world positions in the same chunk at the same place within it are the same position.
proof fn lemma_same_place(p: IVec3, q: IVec3)
    requires
        chunk_of(p) == chunk_of(q),
        p != q,
    ensures
        index_of(local_of(p)) != index_of(local_of(q)),
        local_of(p).in_chunk(),
{
    crate::world::chunk::law_split_then_join(p);
    crate::world::chunk::law_split_then_join(q);
    crate::world::chunk::lemma_index_of_in_range(local_of(p));
    crate::world::chunk::lemma_index_of_in_range(local_of(q));
}

/// Applies the oldest waiting block changes, at most a frame's worth: a change whose chunk is
/// loaded is made (marking the chunk and its neighbours to be meshed again); any other goes to
/// the back of the queue to wait for its chunk.
pub fn process_pending_block_writes(voxel_world: &mut VoxelWorld, pending: &mut Vec<PendingBlockWrite>)
    requires
        old(voxel_world).wf(),
    ensures
        final(voxel_world).wf(),
        ({
            let taken = if old(pending)@.len() < MAX_PENDING_BLOCK_WRITES_PER_FRAME { old(pending)@.len() as int } else { MAX_PENDING_BLOCK_WRITES_PER_FRAME as int };
            let applied = old(pending)@.take(taken);
            let dom = old(voxel_world).loaded().dom();
            &&& final(pending)@ == old(pending)@.skip(taken) + unloaded_writes(dom, applied)
            &&& final(voxel_world).loaded().dom() == dom
            &&& forall|p: IVec3| dom.contains(chunk_of(p)) ==> #[trigger] final(voxel_world).loaded()[chunk_of(p)].block_at(local_of(p))
                == written_block(old(voxel_world).loaded(), applied, p)
        }),
        final(voxel_world).meshed() == old(voxel_world).meshed(),
        final(voxel_world).backlog() == old(voxel_world).backlog(),
        final(voxel_world).updates() == old(voxel_world).updates(),
        final(voxel_world).jobs() == old(voxel_world).jobs(),
        final(voxel_world).accepting() == old(voxel_world).accepting(),
        final(voxel_world).request_radii() == old(voxel_world).request_radii(),
        final(voxel_world).retention() == old(voxel_world).retention(),
        final(voxel_world).limits() == old(voxel_world).limits(),
{
    let budget: usize = if pending.len() < MAX_PENDING_BLOCK_WRITES_PER_FRAME { pending.len() } else { MAX_PENDING_BLOCK_WRITES_PER_FRAME };
    let ghost all = pending@;
    let ghost start = *voxel_world;
    let ghost dom = start.loaded().dom();
    let mut k: usize = 0;
    assert(all.skip(0) == all);
    assert(all.take(0) == Seq::<PendingBlockWrite>::empty());
    assert(all.skip(0) + unloaded_writes(dom, all.take(0)) == all);
    while k < budget
        invariant
            voxel_world.wf(),
            budget <= all.len(),
            budget as int == if all.len() < MAX_PENDING_BLOCK_WRITES_PER_FRAME { all.len() as int } else { MAX_PENDING_BLOCK_WRITES_PER_FRAME as int },
            k <= budget,
            dom == start.loaded().dom(),
            pending@ == all.skip(k as int) + unloaded_writes(dom, all.take(k as int)),
            voxel_world.loaded().dom() == dom,
            forall|p: IVec3| dom.contains(chunk_of(p)) ==> #[trigger] voxel_world.loaded()[chunk_of(p)].block_at(local_of(p))
                == written_block(start.loaded(), all.take(k as int), p),
            voxel_world.meshed() == start.meshed(),
            voxel_world.backlog() == start.backlog(),
            voxel_world.updates() == start.updates(),
            voxel_world.jobs() == start.jobs(),
            voxel_world.accepting() == start.accepting(),
            voxel_world.request_radii() == start.request_radii(),
            voxel_world.retention() == start.retention(),
            voxel_world.limits() == start.limits(),
        decreases budget - k,
    {
        let ghost before = *voxel_world;
        let ghost queued = pending@;
        let write = pending.remove(0);
        proof {
            assert(write == all[k as int]);
            assert(all.take(k + 1).drop_last() == all.take(k as int));
            assert(all.take(k + 1).last() == write);
        }
        let loaded = voxel_world.set_block_world(write.world, write.block);
        proof {
            assert forall|p: IVec3| dom.contains(chunk_of(p)) implies #[trigger] voxel_world.loaded()[chunk_of(p)].block_at(local_of(p))
                == written_block(start.loaded(), all.take(k + 1), p) by {
                let c = chunk_of(p);
                let goal = voxel_world.loaded()[c].block_at(local_of(p));
                assert(before.loaded()[c].block_at(local_of(p)) == written_block(start.loaded(), all.take(k as int), p));
                if p == write.world {
                    crate::world::chunk::law_split_then_join(p);
                    crate::world::chunk::lemma_index_of_in_range(local_of(p));
                    assert(written_block(start.loaded(), all.take(k + 1), p) == write.block);
                    let i = lemma_keyed_index(before.chunks@, chunk_key(), c);
                    assert(before.loaded()[c].wf());
                    assert(loaded);
                    if before.loaded()[c].block_at(local_of(p)) == write.block {
                        assert(goal == write.block);
                    } else {
                        assert(voxel_world.loaded()[c].blocks() == before.loaded()[c].blocks().update(index_of(local_of(p)), write.block));
                        assert(goal == write.block);
                    }
                } else {
                    assert(written_block(start.loaded(), all.take(k + 1), p) == written_block(start.loaded(), all.take(k as int), p));
                    if !loaded || before.loaded()[chunk_of(write.world)].block_at(local_of(write.world)) == write.block {
                        assert(goal == before.loaded()[c].block_at(local_of(p)));
                    } else if c == chunk_of(write.world) {
                        lemma_same_place(p, write.world);
                        lemma_same_place(write.world, p);
                        crate::world::chunk::lemma_index_of_in_range(local_of(p));
                        let i = lemma_keyed_index(before.chunks@, chunk_key(), c);
                        assert(before.loaded()[c].wf());
                        assert(voxel_world.loaded()[c].blocks() == before.loaded()[c].blocks().update(index_of(local_of(write.world)), write.block));
                        assert(goal == before.loaded()[c].block_at(local_of(p)));
                    } else {
                        assert(voxel_world.loaded()[c] == before.loaded()[c]);
                        assert(goal == before.loaded()[c].block_at(local_of(p)));
                    }
                }
            }
        }
        if !loaded {
            pending.push(write);
            proof {
                assert(pending@ =~= all.skip(k + 1) + unloaded_writes(dom, all.take(k + 1)));
            }
        } else {
            proof {
                assert(pending@ =~= all.skip(k + 1) + unloaded_writes(dom, all.take(k + 1)));
            }
        }
        k = k + 1;
    }
}

} // verus!
