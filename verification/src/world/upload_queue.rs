//! The queue of chunk meshes waiting to be uploaded to, or removed from, the GPU.
use vstd::prelude::*;

use crate::world::chunk::ChunkCoord;
use crate::world::meshing::ChunkMesh;

verus! {

/// Replace the GPU mesh of a chunk, or drop it.
#[derive(Clone, Debug)]
pub enum ChunkUploadOp {
    Upsert { coord: ChunkCoord, mesh: ChunkMesh, estimated_bytes: usize },
    Remove { coord: ChunkCoord },
}

pub open spec fn op_coord(op: ChunkUploadOp) -> ChunkCoord {
    match op {
        ChunkUploadOp::Upsert { coord, .. } => coord,
        ChunkUploadOp::Remove { coord } => coord,
    }
}

pub open spec fn op_bytes(op: ChunkUploadOp) -> nat {
    match op {
        ChunkUploadOp::Upsert { estimated_bytes, .. } => estimated_bytes as nat,
        ChunkUploadOp::Remove { .. } => 0,
    }
}

impl ChunkUploadOp {
    pub fn coord(&self) -> (c: ChunkCoord)
        ensures
            c == op_coord(*self),
    {
        match self {
            ChunkUploadOp::Upsert { coord, .. } => *coord,
            ChunkUploadOp::Remove { coord } => *coord,
        }
    }

    pub fn estimated_bytes(&self) -> (n: usize)
        ensures
            n == op_bytes(*self),
    {
        match self {
            ChunkUploadOp::Upsert { estimated_bytes, .. } => *estimated_bytes,
            ChunkUploadOp::Remove { .. } => 0,
        }
    }

    pub fn is_remove(&self) -> (b: bool)
        ensures
            b == (*self is Remove),
    {
        match self {
            ChunkUploadOp::Remove { .. } => true,
            _ => false,
        }
    }
}

/// Bytes of one vertex as the GPU receives it: position, normal and texture coordinate as
/// 32-bit floats, and the material number.
pub const GPU_CHUNK_VERTEX_BYTES: usize = 36;

/// The upload a chunk's new mesh turns into: an empty mesh drops the chunk's GPU mesh; any
/// other is uploaded, its size estimated from its vertices as the GPU receives them and its
/// 32-bit indices.
pub fn upload_op_for(coord: ChunkCoord, mesh: ChunkMesh) -> (op: ChunkUploadOp)
    requires
        mesh.vertices@.len() * GPU_CHUNK_VERTEX_BYTES + mesh.indices@.len() * 4 <= usize::MAX,
    ensures
        mesh.indices@.len() == 0 ==> (op == ChunkUploadOp::Remove { coord }),
        mesh.indices@.len() > 0 ==> (op == ChunkUploadOp::Upsert {
            coord,
            mesh,
            estimated_bytes: (mesh.vertices@.len() * GPU_CHUNK_VERTEX_BYTES + mesh.indices@.len() * 4) as usize,
        }),
{
    if mesh.is_empty() {
        return ChunkUploadOp::Remove { coord };
    }
    let estimated_bytes = mesh.vertices.len() * GPU_CHUNK_VERTEX_BYTES + mesh.indices.len() * 4;
    ChunkUploadOp::Upsert { coord, mesh, estimated_bytes }
}

/// A queued operation and the order in which it was queued.
#[derive(Clone, Debug)]
pub struct PendingChunkUploadEntry {
    pub sequence: u64,
    pub op: ChunkUploadOp,
}

pub open spec fn entry_coord(e: PendingChunkUploadEntry) -> ChunkCoord {
    op_coord(e.op)
}

/// Squared distance between two chunk positions.
pub open spec fn distance_sq(a: ChunkCoord, b: ChunkCoord) -> int {
    (a.x - b.x) * (a.x - b.x) + (a.y - b.y) * (a.y - b.y) + (a.z - b.z) * (a.z - b.z)
}

/// The distance fits the `i64` arithmetic it is computed with.
pub open spec fn distance_fits(a: ChunkCoord, b: ChunkCoord) -> bool {
    &&& i32::MIN <= a.x - b.x <= i32::MAX
    &&& i32::MIN <= a.y - b.y <= i32::MAX
    &&& i32::MIN <= a.z - b.z <= i32::MAX
    &&& distance_sq(a, b) <= i64::MAX
}

pub fn chunk_distance_sq(left: ChunkCoord, right: ChunkCoord) -> (d: i64)
    requires
        distance_fits(left, right),
    ensures
        d == distance_sq(left, right),
{
    let dx = (left.x - right.x) as i64;
    let dy = (left.y - right.y) as i64;
    let dz = (left.z - right.z) as i64;
    assert(0 <= dx * dx && 0 <= dy * dy && 0 <= dz * dz) by (nonlinear_arith);
    assert(dx * dx <= i64::MAX && dy * dy <= i64::MAX && dz * dz <= i64::MAX && dx * dx + dy * dy <= i64::MAX) by (nonlinear_arith)
        requires
            0 <= dx * dx,
            0 <= dy * dy,
            0 <= dz * dz,
            dx * dx + dy * dy + dz * dz <= i64::MAX,
    ;
    dx * dx + dy * dy + dz * dz
}

/// Upload order of an entry: removals first, then chunks in view, then the rest; within a
/// class, nearest to the focus first; among equals, the most recently queued first.
pub open spec fn priority(e: PendingChunkUploadEntry, visible: Seq<ChunkCoord>, focus: Option<ChunkCoord>) -> (int, int, int) {
    let class = if e.op is Remove {
        0
    } else if visible.contains(entry_coord(e)) {
        1
    } else {
        2
    };
    let dist = match focus {
        Some(f) => distance_sq(entry_coord(e), f),
        None => i64::MAX / 4,
    };
    (class, dist, e.sequence as int)
}

/// `k1` is served strictly before `k2`.
pub open spec fn before(k1: (int, int, int), k2: (int, int, int)) -> bool {
    k1.0 < k2.0 || (k1.0 == k2.0 && (k1.1 < k2.1 || (k1.1 == k2.1 && k1.2 > k2.2)))
}

/// The entries as a map from chunk to its pending entry.
pub open spec fn to_map(s: Seq<PendingChunkUploadEntry>) -> Map<ChunkCoord, PendingChunkUploadEntry>
    decreases s.len(),
{
    if s.len() == 0 {
        Map::empty()
    } else {
        to_map(s.drop_last()).insert(entry_coord(s.last()), s.last())
    }
}

pub open spec fn distinct_coords(s: Seq<PendingChunkUploadEntry>) -> bool {
    forall|i: int, j: int| 0 <= i < j < s.len() ==> entry_coord(#[trigger] s[i]) != entry_coord(#[trigger] s[j])
}

proof fn lemma_to_map_dom(s: Seq<PendingChunkUploadEntry>, c: ChunkCoord)
    ensures
        to_map(s).dom().contains(c) <==> exists|i: int| 0 <= i < s.len() && entry_coord(#[trigger] s[i]) == c,
    decreases s.len(),
{
    if s.len() > 0 {
        lemma_to_map_dom(s.drop_last(), c);
        if exists|i: int| 0 <= i < s.drop_last().len() && entry_coord(#[trigger] s.drop_last()[i]) == c {
            let i = choose|i: int| 0 <= i < s.drop_last().len() && entry_coord(#[trigger] s.drop_last()[i]) == c;
            assert(s[i] == s.drop_last()[i]);
        }
        if exists|i: int| 0 <= i < s.len() && entry_coord(#[trigger] s[i]) == c {
            let i = choose|i: int| 0 <= i < s.len() && entry_coord(#[trigger] s[i]) == c;
            if i < s.len() - 1 {
                assert(s.drop_last()[i] == s[i]);
            }
        }
    }
}

proof fn lemma_to_map_at(s: Seq<PendingChunkUploadEntry>, i: int)
    requires
        distinct_coords(s),
        0 <= i < s.len(),
    ensures
        to_map(s).dom().contains(entry_coord(s[i])),
        to_map(s)[entry_coord(s[i])] == s[i],
    decreases s.len(),
{
    if i < s.len() - 1 {
        assert(s.drop_last()[i] == s[i]);
        assert(distinct_coords(s.drop_last())) by {
            assert forall|a: int, b: int| 0 <= a < b < s.drop_last().len() implies entry_coord(#[trigger] s.drop_last()[a])
                != entry_coord(#[trigger] s.drop_last()[b]) by {
                assert(s.drop_last()[a] == s[a] && s.drop_last()[b] == s[b]);
            }
        }
        lemma_to_map_at(s.drop_last(), i);
        assert(entry_coord(s[i]) != entry_coord(s.last()));
    }
}

proof fn lemma_to_map_len(s: Seq<PendingChunkUploadEntry>)
    requires
        distinct_coords(s),
    ensures
        to_map(s).dom().finite(),
        to_map(s).dom().len() == s.len(),
    decreases s.len(),
{
    if s.len() > 0 {
        let t = s.drop_last();
        assert(distinct_coords(t)) by {
            assert forall|a: int, b: int| 0 <= a < b < t.len() implies entry_coord(#[trigger] t[a]) != entry_coord(
                #[trigger] t[b]) by {
                assert(t[a] == s[a] && t[b] == s[b]);
            }
        }
        lemma_to_map_len(t);
        lemma_to_map_dom(t, entry_coord(s.last()));
        if to_map(t).dom().contains(entry_coord(s.last())) {
            let i = choose|i: int| 0 <= i < t.len() && entry_coord(#[trigger] t[i]) == entry_coord(s.last());
            assert(t[i] == s[i]);
        }
    }
}

/// `a + b`, saturating at `usize::MAX`.
pub open spec fn sat_add(a: nat, b: nat) -> nat {
    if a + b > usize::MAX {
        usize::MAX as nat
    } else {
        a + b
    }
}

/// The bytes that `taken` sends, added up saturating at `usize::MAX`.
pub open spec fn uploaded_bytes(taken: Seq<PendingChunkUploadEntry>) -> nat
    decreases taken.len(),
{
    if taken.len() == 0 {
        0
    } else {
        sat_add(uploaded_bytes(taken.drop_last()), op_bytes(taken.last().op))
    }
}

/// Some operation of `taken` uploads a mesh.
pub open spec fn has_upsert(taken: Seq<PendingChunkUploadEntry>) -> bool {
    exists|i: int| 0 <= i < taken.len() && (#[trigger] taken[i]).op is Upsert
}

/// After `taken`, the frame's budget still admits `next`: nothing was uploaded yet, or the bytes
/// so far and those of `next` stay within `budget`.
pub open spec fn fits_budget(taken: Seq<PendingChunkUploadEntry>, next: PendingChunkUploadEntry, budget: nat) -> bool {
    !(has_upsert(taken) && sat_add(uploaded_bytes(taken), op_bytes(next.op)) > budget)
}

/// The pending map after the operations of `taken` left it.
pub open spec fn after_taking(
    m: Map<ChunkCoord, PendingChunkUploadEntry>,
    taken: Seq<PendingChunkUploadEntry>,
) -> Map<ChunkCoord, PendingChunkUploadEntry>
    decreases taken.len(),
{
    if taken.len() == 0 {
        m
    } else {
        after_taking(m, taken.drop_last()).remove(entry_coord(taken.last()))
    }
}

/// `e` is pending in `m` and nothing pending in `m` is served strictly before it.
pub open spec fn served_first(
    m: Map<ChunkCoord, PendingChunkUploadEntry>,
    e: PendingChunkUploadEntry,
    visible: Seq<ChunkCoord>,
    focus: Option<ChunkCoord>,
) -> bool {
    &&& m.dom().contains(entry_coord(e))
    &&& m[entry_coord(e)] == e
    &&& forall|c: ChunkCoord| #[trigger] m.dom().contains(c) ==> !before(priority(m[c], visible, focus), priority(e, visible, focus))
}

/// The budget of a frame: at least one byte.
pub open spec fn frame_budget(budget_bytes: usize) -> nat {
    if budget_bytes < 1 {
        1
    } else {
        budget_bytes as nat
    }
}

/// Every operation of `taken` was the one served first among those pending when it was taken,
/// and the frame's budget admitted it.
#[verifier::opaque]
pub open spec fn taken_in_order(
    start: Map<ChunkCoord, PendingChunkUploadEntry>,
    taken: Seq<PendingChunkUploadEntry>,
    visible: Seq<ChunkCoord>,
    focus: Option<ChunkCoord>,
    budget: nat,
) -> bool {
    &&& forall|i: int| 0 <= i < taken.len() ==> served_first(
        after_taking(start, taken.take(i)),
        #[trigger] taken[i],
        visible,
        focus,
    )
    &&& forall|i: int| 0 <= i < taken.len() ==> fits_budget(taken.take(i), #[trigger] taken[i], budget)
}

proof fn lemma_take_step(
    start: Map<ChunkCoord, PendingChunkUploadEntry>,
    prev: Seq<PendingChunkUploadEntry>,
    e: PendingChunkUploadEntry,
    visible: Seq<ChunkCoord>,
    focus: Option<ChunkCoord>,
    budget: nat,
)
    requires
        taken_in_order(start, prev, visible, focus, budget),
        served_first(after_taking(start, prev), e, visible, focus),
        fits_budget(prev, e, budget),
    ensures
        ({
            let t = prev.push(e);
            &&& taken_in_order(start, t, visible, focus, budget)
            &&& after_taking(start, t) == after_taking(start, prev).remove(entry_coord(e))
            &&& uploaded_bytes(t) == sat_add(uploaded_bytes(prev), op_bytes(e.op))
            &&& has_upsert(t) == (has_upsert(prev) || e.op is Upsert)
        }),
{
    reveal(taken_in_order);
    let t = prev.push(e);
    assert(t.drop_last() == prev);
    assert(t.take(prev.len() as int) == prev);
    assert forall|i: int| 0 <= i < prev.len() implies #[trigger] t.take(i) == prev.take(i) by {
        assert(t.take(i) =~= prev.take(i));
    }
    assert forall|i: int| 0 <= i < t.len() implies served_first(
        after_taking(start, t.take(i)),
        #[trigger] t[i],
        visible,
        focus,
    ) by {
        if i < prev.len() {
            assert(t[i] == prev[i]);
            assert(t.take(i) == prev.take(i));
        }
    }
    assert forall|i: int| 0 <= i < t.len() implies fits_budget(t.take(i), #[trigger] t[i], budget) by {
        if i < prev.len() {
            assert(t[i] == prev[i]);
            assert(t.take(i) == prev.take(i));
        }
    }
    if has_upsert(prev) {
        let j = choose|j: int| 0 <= j < prev.len() && (#[trigger] prev[j]).op is Upsert;
        assert(t[j] == prev[j]);
    }
    if e.op is Upsert {
        assert(t[prev.len() as int] == e);
    }
    if has_upsert(t) {
        let j = choose|j: int| 0 <= j < t.len() && (#[trigger] t[j]).op is Upsert;
        if j < prev.len() {
            assert(prev[j] == t[j]);
        }
    }
}

/// Chunk operations waiting for upload, at most one per chunk.
pub struct PendingChunkUploadQueue {
    entries: Vec<PendingChunkUploadEntry>,
    next_sequence: u64,
}

impl PendingChunkUploadQueue {
    pub closed spec fn wf(&self) -> bool {
        distinct_coords(self.entries@)
    }

    /// The pending entry of each chunk.
    pub closed spec fn view(&self) -> Map<ChunkCoord, PendingChunkUploadEntry> {
        to_map(self.entries@)
    }

    /// The sequence number the next queued operation gets.
    pub closed spec fn spec_next_sequence(&self) -> u64 {
        self.next_sequence
    }

    pub fn new() -> (q: Self)
        ensures
            q.wf(),
            q@ == Map::<ChunkCoord, PendingChunkUploadEntry>::empty(),
            q.spec_next_sequence() == 0,
    {
        PendingChunkUploadQueue { entries: Vec::new(), next_sequence: 0 }
    }

    fn position_of(&self, coord: ChunkCoord) -> (p: Option<usize>)
        ensures
            match p {
                Some(i) => i < self.entries@.len() && entry_coord(self.entries@[i as int]) == coord,
                None => forall|i: int| 0 <= i < self.entries@.len() ==> entry_coord(#[trigger] self.entries@[i]) != coord,
            },
    {
        let mut i: usize = 0;
        while i < self.entries.len()
            invariant
                i <= self.entries@.len(),
                forall|j: int| 0 <= j < i ==> entry_coord(#[trigger] self.entries@[j]) != coord,
            decreases self.entries@.len() - i,
        {
            if self.entries[i].op.coord() == coord {
                return Some(i);
            }
            i = i + 1;
        }
        None
    }

    /// Puts `entry` in the queue, replacing the entry of the same chunk.
    pub fn reinsert(&mut self, entry: PendingChunkUploadEntry)
        requires
            old(self).wf(),
        ensures
            final(self).wf(),
            final(self)@ == old(self)@.insert(entry_coord(entry), entry),
            final(self).spec_next_sequence() == old(self).spec_next_sequence(),
    {
        let coord = entry.op.coord();
        let ghost s = self.entries@;
        match self.position_of(coord) {
            Some(i) => {
                self.entries.set(i, entry);
                proof {
                    let t = self.entries@;
                    assert(distinct_coords(t)) by {
                        assert forall|a: int, b: int| 0 <= a < b < t.len() implies entry_coord(#[trigger] t[a])
                            != entry_coord(#[trigger] t[b]) by {
                            if a != i && b != i {
                                assert(t[a] == s[a] && t[b] == s[b]);
                            }
                        }
                    }
                    let u = s.push(entry);
                    assert forall|c: ChunkCoord| to_map(t).dom().contains(c) == #[trigger] to_map(s).insert(coord, entry).dom().contains(c) by {
                        lemma_to_map_dom(t, c);
                        lemma_to_map_dom(s, c);
                        if exists|j: int| 0 <= j < s.len() && entry_coord(#[trigger] s[j]) == c {
                            let j = choose|j: int| 0 <= j < s.len() && entry_coord(#[trigger] s[j]) == c;
                            if j != i { assert(t[j] == s[j]); } else { assert(entry_coord(t[j]) == c); }
                        }
                        if exists|j: int| 0 <= j < t.len() && entry_coord(#[trigger] t[j]) == c {
                            let j = choose|j: int| 0 <= j < t.len() && entry_coord(#[trigger] t[j]) == c;
                            if j != i { assert(t[j] == s[j]); }
                        }
                    }
                    assert forall|c: ChunkCoord| to_map(t).dom().contains(c) implies #[trigger] to_map(t)[c] == to_map(s).insert(coord, entry)[c] by {
                        lemma_to_map_dom(t, c);
                        let j = choose|j: int| 0 <= j < t.len() && entry_coord(#[trigger] t[j]) == c;
                        lemma_to_map_at(t, j);
                        if j != i {
                            assert(t[j] == s[j]);
                            lemma_to_map_at(s, j);
                        }
                    }
                    assert(to_map(t) =~= to_map(s).insert(coord, entry));
                }
            },
            None => {
                self.entries.push(entry);
                proof {
                    let t = self.entries@;
                    assert(t.drop_last() == s);
                    assert(distinct_coords(t)) by {
                        assert forall|a: int, b: int| 0 <= a < b < t.len() implies entry_coord(#[trigger] t[a])
                            != entry_coord(#[trigger] t[b]) by {
                            assert(t[a] == s[a]);
                            if b < s.len() {
                                assert(t[b] == s[b]);
                            }
                        }
                    }
                }
            },
        }
    }

    /// Queues `op` for its chunk, replacing what was pending for that chunk.
    pub fn enqueue(&mut self, op: ChunkUploadOp)
        requires
            old(self).wf(),
        ensures
            final(self).wf(),
            final(self)@ == old(self)@.insert(
                op_coord(op),
                PendingChunkUploadEntry { sequence: old(self).spec_next_sequence(), op },
            ),
            final(self).spec_next_sequence() == old(self).spec_next_sequence().wrapping_add(1),
    {
        let entry = PendingChunkUploadEntry { sequence: self.next_sequence, op };
        self.next_sequence = self.next_sequence.wrapping_add(1);
        self.reinsert(entry);
    }

    /// Number of chunks with a pending operation.
    pub fn len(&self) -> (n: usize)
        requires
            self.wf(),
        ensures
            n == self@.dom().len(),
            self@.dom().finite(),
    {
        proof {
            lemma_to_map_len(self.entries@);
        }
        self.entries.len()
    }

    /// Takes out the entry that is served first: no pending entry comes strictly before it.
    pub fn pop_best(&mut self, visible_chunks: &Vec<ChunkCoord>, focus_chunk: Option<ChunkCoord>) -> (best: Option<
        PendingChunkUploadEntry,
    >)
        requires
            old(self).wf(),
            forall|c: ChunkCoord|
                old(self)@.dom().contains(c) && focus_chunk is Some ==> distance_fits(c, focus_chunk->0),
        ensures
            final(self).wf(),
            final(self).spec_next_sequence() == old(self).spec_next_sequence(),
            match best {
                None => old(self)@.dom().len() == 0 && final(self)@ == old(self)@,
                Some(e) => {
                    &&& old(self)@.dom().contains(entry_coord(e))
                    &&& old(self)@[entry_coord(e)] == e
                    &&& final(self)@ == old(self)@.remove(entry_coord(e))
                    &&& forall|c: ChunkCoord|
                        #[trigger] old(self)@.dom().contains(c) ==> !before(
                            priority(old(self)@[c], visible_chunks@, focus_chunk),
                            priority(e, visible_chunks@, focus_chunk),
                        )
                },
            },
    {
        let ghost s = self.entries@;
        proof {
            lemma_to_map_len(s);
        }
        if self.entries.len() == 0 {
            return None;
        }
        proof {
            lemma_to_map_at(s, 0);
        }
        let mut best_index: usize = 0;
        let mut best_key = Self::priority_key(&self.entries[0], visible_chunks, focus_chunk);
        let mut i: usize = 1;
        while i < self.entries.len()
            invariant
                self.entries@ == s,
                distinct_coords(s),
                1 <= i <= s.len(),
                best_index < i,
                (best_key.0 as int, best_key.1 as int, best_key.2 as int) == priority(s[best_index as int], visible_chunks@, focus_chunk),
                forall|c: ChunkCoord|
                    to_map(s).dom().contains(c) && focus_chunk is Some ==> distance_fits(c, focus_chunk->0),
                forall|j: int| 0 <= j < i ==> !before(
                    priority(#[trigger] s[j], visible_chunks@, focus_chunk),
                    priority(s[best_index as int], visible_chunks@, focus_chunk),
                ),
            decreases s.len() - i,
        {
            proof {
                lemma_to_map_at(s, i as int);
            }
            let key = Self::priority_key(&self.entries[i], visible_chunks, focus_chunk);
            if key.0 < best_key.0 || (key.0 == best_key.0 && (key.1 < best_key.1 || (key.1 == best_key.1 && key.2 > best_key.2))) {
                best_index = i;
                best_key = key;
            }
            i = i + 1;
        }
        let best = self.entries.remove(best_index);
        proof {
            let t = self.entries@;
            let c = entry_coord(best);
            lemma_to_map_at(s, best_index as int);
            assert(distinct_coords(t)) by {
                assert forall|a: int, b: int| 0 <= a < b < t.len() implies entry_coord(#[trigger] t[a]) != entry_coord(
                    #[trigger] t[b]) by {
                    let sa = if a < best_index { a } else { a + 1 };
                    let sb = if b < best_index { b } else { b + 1 };
                    assert(t[a] == s[sa] && t[b] == s[sb]);
                }
            }
            assert forall|d: ChunkCoord| #[trigger] to_map(t).dom().contains(d) == to_map(s).remove(c).dom().contains(d) by {
                lemma_to_map_dom(t, d);
                lemma_to_map_dom(s, d);
                if exists|j: int| 0 <= j < s.len() && entry_coord(#[trigger] s[j]) == d {
                    let j = choose|j: int| 0 <= j < s.len() && entry_coord(#[trigger] s[j]) == d;
                    if j < best_index {
                        assert(t[j] == s[j]);
                    } else if j > best_index {
                        assert(t[j - 1] == s[j]);
                    }
                }
                if exists|j: int| 0 <= j < t.len() && entry_coord(#[trigger] t[j]) == d {
                    let j = choose|j: int| 0 <= j < t.len() && entry_coord(#[trigger] t[j]) == d;
                    let sj = if j < best_index { j } else { j + 1 };
                    assert(t[j] == s[sj]);
                }
            }
            assert forall|d: ChunkCoord| to_map(t).dom().contains(d) implies #[trigger] to_map(t)[d] == to_map(s).remove(c)[d] by {
                lemma_to_map_dom(t, d);
                let j = choose|j: int| 0 <= j < t.len() && entry_coord(#[trigger] t[j]) == d;
                let sj = if j < best_index { j } else { j + 1 };
                assert(t[j] == s[sj]);
                lemma_to_map_at(t, j);
                lemma_to_map_at(s, sj);
            }
            assert(to_map(t) =~= to_map(s).remove(c));
            assert forall|d: ChunkCoord| #[trigger] to_map(s).dom().contains(d) implies !before(
                priority(to_map(s)[d], visible_chunks@, focus_chunk),
                priority(best, visible_chunks@, focus_chunk),
            ) by {
                lemma_to_map_dom(s, d);
                let j = choose|j: int| 0 <= j < s.len() && entry_coord(#[trigger] s[j]) == d;
                lemma_to_map_at(s, j);
            }
        }
        Some(best)
    }

    /// Takes out, in upload order, the operations of one frame: each is the one served first
    /// among those still pending, and they are taken while the frame's budget (at least one byte)
    /// admits them; the first mesh always goes, however large. The operation the budget stops
    /// stays queued.
    pub fn take_uploads(
        &mut self,
        visible_chunks: &Vec<ChunkCoord>,
        focus_chunk: Option<ChunkCoord>,
        budget_bytes: usize,
    ) -> (taken: Vec<PendingChunkUploadEntry>)
        requires
            old(self).wf(),
            forall|c: ChunkCoord|
                old(self)@.dom().contains(c) && focus_chunk is Some ==> distance_fits(c, focus_chunk->0),
        ensures
            final(self).wf(),
            final(self).spec_next_sequence() == old(self).spec_next_sequence(),
            final(self)@ == after_taking(old(self)@, taken@),
            taken_in_order(old(self)@, taken@, visible_chunks@, focus_chunk, frame_budget(budget_bytes)),
            final(self)@.dom().len() > 0 ==> exists|e: PendingChunkUploadEntry|
                served_first(final(self)@, e, visible_chunks@, focus_chunk) && !fits_budget(
                    taken@,
                    e,
                    frame_budget(budget_bytes),
                ),
    {
        let budget: usize = if budget_bytes < 1 { 1 } else { budget_bytes };
        let mut taken: Vec<PendingChunkUploadEntry> = Vec::new();
        let mut bytes: usize = 0;
        let mut any_upsert = false;
        let ghost start = self@;
        proof {
            lemma_to_map_len(self.entries@);
            reveal(taken_in_order);
        }
        loop
            invariant_except_break
                self.wf(),
                self.spec_next_sequence() == old(self).spec_next_sequence(),
                self@ == after_taking(start, taken@),
                self@.dom().finite(),
                budget as nat == frame_budget(budget_bytes),
                bytes as nat == uploaded_bytes(taken@),
                any_upsert == has_upsert(taken@),
                forall|c: ChunkCoord|
                    self@.dom().contains(c) && focus_chunk is Some ==> distance_fits(c, focus_chunk->0),
                taken_in_order(start, taken@, visible_chunks@, focus_chunk, frame_budget(budget_bytes)),
                start == old(self)@,
            ensures
                self.wf(),
                self.spec_next_sequence() == old(self).spec_next_sequence(),
                self@ == after_taking(start, taken@),
                start == old(self)@,
                taken_in_order(start, taken@, visible_chunks@, focus_chunk, frame_budget(budget_bytes)),
                self@.dom().len() > 0 ==> exists|e: PendingChunkUploadEntry|
                    served_first(self@, e, visible_chunks@, focus_chunk) && !fits_budget(
                        taken@,
                        e,
                        frame_budget(budget_bytes),
                    ),
            decreases self.entries@.len(),
        {
            proof {
                lemma_to_map_len(self.entries@);
            }
            let ghost before_pop = self@;
            match self.pop_best(visible_chunks, focus_chunk) {
                None => {
                    break;
                },
                Some(e) => {
                    let b = e.op.estimated_bytes();
                    if any_upsert && bytes.saturating_add(b) > budget {
                        let ghost ge = e;
                        self.reinsert(e);
                        proof {
                            assert(self@ =~= before_pop);
                            assert(served_first(self@, ge, visible_chunks@, focus_chunk));
                            assert(!fits_budget(taken@, ge, frame_budget(budget_bytes)));
                        }
                        break;
                    }
                    if !e.op.is_remove() {
                        any_upsert = true;
                    }
                    bytes = bytes.saturating_add(b);
                    let ghost prev = taken@;
                    let ghost ge = e;
                    taken.push(e);
                    proof {
                        assert(taken@ == prev.push(ge));
                        lemma_take_step(start, prev, ge, visible_chunks@, focus_chunk, frame_budget(budget_bytes));
                        lemma_to_map_len(self.entries@);
                    }
                },
            }
        }
        taken
    }

    /// The upload order of `entry`: (class, distance to the focus, sequence).
    fn priority_key(entry: &PendingChunkUploadEntry, visible_chunks: &Vec<ChunkCoord>, focus_chunk: Option<ChunkCoord>) -> (k: (u8, i64, u64))
        requires
            focus_chunk is Some ==> distance_fits(entry_coord(*entry), focus_chunk->0),
        ensures
            (k.0 as int, k.1 as int, k.2 as int) == priority(*entry, visible_chunks@, focus_chunk),
    {
        let coord = entry.op.coord();
        let distance_sq = match focus_chunk {
            Some(focus) => chunk_distance_sq(coord, focus),
            None => i64::MAX / 4,
        };
        let class: u8 = if entry.op.is_remove() {
            0
        } else if contains_coord(visible_chunks, coord) {
            1
        } else {
            2
        };
        (class, distance_sq, entry.sequence)
    }
}

/// Whether `coord` is among `coords`.
pub fn contains_coord(coords: &Vec<ChunkCoord>, coord: ChunkCoord) -> (b: bool)
    ensures
        b == coords@.contains(coord),
{
    let mut i: usize = 0;
    while i < coords.len()
        invariant
            i <= coords@.len(),
            forall|j: int| 0 <= j < i ==> coords@[j] != coord,
        decreases coords@.len() - i,
    {
        if coords[i] == coord {
            return true;
        }
        i = i + 1;
    }
    false
}

/// Queuing two operations for one chunk keeps only the later: the queue then holds as many
/// chunks as with the later alone, and the later is what is pending.
pub proof fn law_latest_operation_wins(
    pending: Map<ChunkCoord, PendingChunkUploadEntry>,
    first: PendingChunkUploadEntry,
    second: PendingChunkUploadEntry,
)
    requires
        entry_coord(first) == entry_coord(second),
    ensures
        pending.insert(entry_coord(first), first).insert(entry_coord(second), second) == pending.insert(
            entry_coord(second),
            second,
        ),
{
    assert(pending.insert(entry_coord(first), first).insert(entry_coord(second), second) =~= pending.insert(
        entry_coord(second),
        second,
    ));
}

/// A removal is served before any mesh upload.
pub proof fn law_removals_first(
    removal: PendingChunkUploadEntry,
    upload: PendingChunkUploadEntry,
    visible: Seq<ChunkCoord>,
    focus: Option<ChunkCoord>,
)
    requires
        removal.op is Remove,
        upload.op is Upsert,
    ensures
        before(priority(removal, visible, focus), priority(upload, visible, focus)),
{
}

/// Among mesh uploads, a chunk in view is served before one out of view, and within the same
/// visibility the chunk nearer to the focus is served first.
pub proof fn law_visible_then_near(
    a: PendingChunkUploadEntry,
    b: PendingChunkUploadEntry,
    visible: Seq<ChunkCoord>,
    focus: ChunkCoord,
)
    requires
        a.op is Upsert,
        b.op is Upsert,
    ensures
        visible.contains(entry_coord(a)) && !visible.contains(entry_coord(b)) ==> before(
            priority(a, visible, Some(focus)),
            priority(b, visible, Some(focus)),
        ),
        visible.contains(entry_coord(a)) == visible.contains(entry_coord(b)) && distance_sq(entry_coord(a), focus)
            < distance_sq(entry_coord(b), focus) ==> before(
            priority(a, visible, Some(focus)),
            priority(b, visible, Some(focus)),
        ),
{
}

} // verus!
