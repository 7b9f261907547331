//! Identifiers of the entities of a saved scene.
use std::collections::HashSet;
use vstd::prelude::*;

use crate::chars::{decimal, push_decimal, push_str};

verus! {

broadcast use vstd::std_specs::hash::group_hash_axioms;

/// Number of `u64` values.
pub open spec fn id_space() -> int {
    0x1_0000_0000_0000_0000
}

/// `v` reduced into the `u64` range.
pub open spec fn wrap(v: int) -> u64 {
    (v % id_space()) as u64
}

/// `j` steps after `start` is the first value not in `used`.
pub open spec fn first_free_offset(start: u64, used: Set<u64>, j: int) -> bool {
    &&& 0 <= j < id_space()
    &&& !used.contains(wrap(start + j))
    &&& forall|k: int| 0 <= k < j ==> used.contains(#[trigger] wrap(start + k))
}

/// The first value from `start` on, wrapping around, that is not in `used`.
pub open spec fn first_free(start: u64, used: Set<u64>) -> u64 {
    wrap(start + choose|j: int| first_free_offset(start, used, j))
}

/// The largest identifier among the first `n` entities, or 0.
pub open spec fn max_id(entries: Seq<Option<u64>>, n: int) -> u64
    decreases n,
{
    if n <= 0 {
        0
    } else {
        let m = max_id(entries, n - 1);
        match entries[n - 1] {
            Some(i) => if i > m { i } else { m },
            None => m,
        }
    }
}

/// The identifiers the entities already carry.
pub open spec fn reserved_ids(entries: Seq<Option<u64>>) -> Set<u64> {
    Set::new(|i: u64| exists|k: int| 0 <= k < entries.len() && entries[k] == Some(i))
}

/// Allocation state: the next candidate and the identifiers handed out so far.
pub struct IdState {
    pub next: u64,
    pub assigned: Set<u64>,
}

/// Identifier of one entity: its own, the first time that identifier appears; otherwise the
/// first free value from the next candidate on, that neither was handed out nor is carried by
/// any entity.
pub open spec fn assign_step(st: IdState, reserved: Set<u64>, e: Option<u64>) -> (IdState, u64) {
    match e {
        Some(i) => if !st.assigned.contains(i) {
            (IdState { next: st.next, assigned: st.assigned.insert(i) }, i)
        } else {
            let id = first_free(st.next, st.assigned + reserved);
            (IdState { next: wrap(id + 1), assigned: st.assigned.insert(id) }, id)
        },
        None => {
            let id = first_free(st.next, st.assigned + reserved);
            (IdState { next: wrap(id + 1), assigned: st.assigned.insert(id) }, id)
        },
    }
}

/// State and identifiers after the first `n` entities.
pub open spec fn assign_prefix(entries: Seq<Option<u64>>, n: int) -> (IdState, Seq<u64>)
    decreases n,
{
    if n <= 0 {
        (IdState { next: wrap(max_id(entries, entries.len() as int) + 1), assigned: Set::empty() }, Seq::empty())
    } else {
        let (st, ids) = assign_prefix(entries, n - 1);
        let (st2, id) = assign_step(st, reserved_ids(entries), entries[n - 1]);
        (st2, ids.push(id))
    }
}

/// The identifiers of the scene's entities, in entity order.
pub open spec fn scene_ids(entries: Seq<Option<u64>>) -> Seq<u64> {
    assign_prefix(entries, entries.len() as int).1
}

proof fn lemma_wrap_distinct(start: u64, k: int, j: int)
    requires
        0 <= k < j < id_space(),
    ensures
        wrap(start + k) != wrap(start + j),
{
    assert(((start + k) % id_space()) != ((start + j) % id_space())) by (nonlinear_arith)
        requires
            0 <= k < j < 0x1_0000_0000_0000_0000,
            0 <= start < 0x1_0000_0000_0000_0000,
    ;
}

proof fn lemma_first_free_unique(start: u64, used: Set<u64>, j: int)
    requires
        first_free_offset(start, used, j),
    ensures
        first_free(start, used) == wrap(start + j),
{
    let c = choose|c: int| first_free_offset(start, used, c);
    assert(first_free_offset(start, used, c));
    if c < j {
        assert(used.contains(wrap(start + c)));
    } else if c > j {
        assert(used.contains(wrap(start + j)));
    }
}

/// The first value from `*next_id` on that neither `assigned_ids` nor `reserved_scene_ids`
/// holds; it is added to `assigned_ids` and `*next_id` moves past it.
pub fn allocate_generated_id(next_id: &mut u64, assigned_ids: &mut HashSet<u64>, reserved_scene_ids: &HashSet<u64>) -> (id: u64)
    requires
        old(assigned_ids)@.finite(),
        reserved_scene_ids@.finite(),
        old(assigned_ids)@.len() + reserved_scene_ids@.len() < id_space(),
    ensures
        id == first_free(*old(next_id), old(assigned_ids)@ + reserved_scene_ids@),
        *final(next_id) == wrap(id + 1),
        final(assigned_ids)@ == old(assigned_ids)@.insert(id),
        !old(assigned_ids)@.contains(id),
        !reserved_scene_ids@.contains(id),
{
    let ghost start = *next_id;
    let ghost used = assigned_ids@ + reserved_scene_ids@;
    let ghost mut skipped: Set<u64> = Set::empty();
    let ghost mut steps: int = 0;
    proof {
        vstd::set_lib::lemma_set_union_finite_iff(assigned_ids@, reserved_scene_ids@);
        vstd::set_lib::lemma_len_union(assigned_ids@, reserved_scene_ids@);
    }
    loop
        invariant
            start == *old(next_id),
            used == old(assigned_ids)@ + reserved_scene_ids@,
            assigned_ids@ == old(assigned_ids)@,
            used.finite(),
            used.len() < id_space(),
            0 <= steps,
            skipped.finite(),
            skipped.len() == steps,
            skipped.subset_of(used),
            *next_id == wrap(start + steps),
            forall|k: int| 0 <= k < steps ==> used.contains(#[trigger] wrap(start + k)),
            forall|x: u64| skipped.contains(x) ==> exists|k: int| 0 <= k < steps && x == #[trigger] wrap(start + k),
        decreases used.len() - steps,
    {
        proof {
            vstd::set_lib::lemma_len_subset(skipped, used);
        }
        let candidate = *next_id;
        *next_id = next_id.wrapping_add(1);
        proof {
            assert(*next_id == wrap(start + steps + 1)) by (nonlinear_arith)
                requires
                    candidate == ((start + steps) % 0x1_0000_0000_0000_0000) as u64,
                    *next_id == (if candidate + 1 > u64::MAX { candidate + 1 - 0x1_0000_0000_0000_0000 } else { candidate + 1 }) as u64,
                    0 <= start,
                    0 <= steps,
            ;
        }
        if assigned_ids.contains(&candidate) || reserved_scene_ids.contains(&candidate) {
            proof {
                if skipped.contains(candidate) {
                    let k = choose|k: int| 0 <= k < steps && candidate == #[trigger] wrap(start + k);
                    lemma_wrap_distinct(start, k, steps);
                }
                skipped = skipped.insert(candidate);
                steps = steps + 1;
                vstd::set_lib::lemma_len_subset(skipped, used);
            }
            continue;
        }
        assigned_ids.insert(candidate);
        proof {
            assert(steps < id_space()) by {
                vstd::set_lib::lemma_len_subset(skipped, used);
            }
            assert(!used.contains(candidate));
            assert(candidate == wrap(start + steps));
            assert(first_free_offset(start, used, steps));
            lemma_first_free_unique(start, used, steps);
            assert(candidate == first_free(start, used));
        }
        return candidate;
    }
}


/// Entity `k` is the first to carry identifier `i`.
pub open spec fn first_carrier(entries: Seq<Option<u64>>, k: int, i: u64) -> bool {
    &&& entries[k] == Some(i)
    &&& forall|j: int| 0 <= j < k ==> entries[j] != Some(i)
}

/// Identifiers for the entities of a scene, in entity order (`entries[k]` is the identifier
/// entity `k` carries, if any). An entity keeps its identifier when it is the first to carry
/// it; every other entity gets a fresh one, counting up from one past the largest carried
/// identifier and wrapping around after `u64::MAX`, skipping identifiers that are carried or
/// handed out.
pub fn assign_scene_ids(entries: &Vec<Option<u64>>) -> (ids: Vec<u64>)
    requires
        entries.len() < 0x4000_0000_0000_0000,
    ensures
        ids@ == scene_ids(entries@),
        ids@.len() == entries@.len(),
        forall|a: int, b: int| 0 <= a < b < ids@.len() ==> ids@[a] != ids@[b],
        forall|k: int, i: u64| 0 <= k < entries@.len() && first_carrier(entries@, k, i) ==> ids@[k] == i,
        forall|k: int|
            0 <= k < entries@.len() && !(exists|i: u64| first_carrier(entries@, k, i)) ==> !reserved_ids(entries@).contains(
                #[trigger] ids@[k],
            ),
{
    let n = entries.len();
    let mut reserved: HashSet<u64> = HashSet::new();
    let mut max_existing: u64 = 0;
    let mut j: usize = 0;
    while j < n
        invariant
            n == entries.len(),
            j <= n,
            reserved@ == Set::new(|i: u64| exists|k: int| 0 <= k < j && entries@[k] == Some(i)),
            reserved@.finite(),
            reserved@.len() <= j,
            max_existing == max_id(entries@, j as int),
        decreases n - j,
    {
        if let Some(id) = entries[j] {
            reserved.insert(id);
            if id > max_existing {
                max_existing = id;
            }
        }
        proof {
            assert(reserved@ =~= Set::new(|i: u64| exists|k: int| 0 <= k < j + 1 && entries@[k] == Some(i)));
        }
        j = j + 1;
    }
    assert(reserved@ =~= reserved_ids(entries@));
    let mut next_id = max_existing.wrapping_add(1);
    let mut assigned: HashSet<u64> = HashSet::new();
    let mut ids: Vec<u64> = Vec::new();
    let mut k: usize = 0;
    while k < n
        invariant
            n == entries.len(),
            n < 0x4000_0000_0000_0000,
            k <= n,
            reserved@ == reserved_ids(entries@),
            reserved@.finite(),
            reserved@.len() <= n,
            assign_prefix(entries@, k as int).0.next == next_id,
            assign_prefix(entries@, k as int).0.assigned == assigned@,
            assign_prefix(entries@, k as int).1 == ids@,
            assigned@.finite(),
            assigned@.len() == k,
            ids@.len() == k,
            forall|a: int, b: int| 0 <= a < b < k ==> ids@[a] != ids@[b],
            forall|x: u64| assigned@.contains(x) <==> exists|a: int| 0 <= a < k && ids@[a] == x,
            forall|a: int, i: u64| 0 <= a < k && first_carrier(entries@, a, i) ==> ids@[a] == i,
            forall|a: int|
                0 <= a < k && !(exists|i: u64| first_carrier(entries@, a, i)) ==> !reserved@.contains(#[trigger] ids@[a]),
        decreases n - k,
    {
        let ghost before_ids = ids@;
        let ghost before_assigned = assigned@;
        let id = match entries[k] {
            Some(carried) => {
                if !assigned.contains(&carried) {
                    assigned.insert(carried);
                    proof {
                        assert forall|j: int| 0 <= j < k implies entries@[j] != Some(carried) by {
                            if entries@[j] == Some(carried) {
                                let l = lemma_first_carrier_exists(entries@, j, carried);
                                assert(ids@[l] == carried);
                                assert(assigned@.contains(carried));
                            }
                        }
                        assert(first_carrier(entries@, k as int, carried));
                    }
                    carried
                } else {
                    allocate_generated_id(&mut next_id, &mut assigned, &reserved)
                }
            },
            None => allocate_generated_id(&mut next_id, &mut assigned, &reserved),
        };
        proof {
            assert(!before_assigned.contains(id));
            assert(assigned@ == before_assigned.insert(id));
            assert(assign_prefix(entries@, k + 1) == {
                let (st, ids0) = assign_prefix(entries@, k as int);
                let (st2, id0) = assign_step(st, reserved_ids(entries@), entries@[k as int]);
                (st2, ids0.push(id0))
            });
            if exists|i: u64| first_carrier(entries@, k as int, i) {
                let i = choose|i: u64| first_carrier(entries@, k as int, i);
                assert(entries@[k as int] == Some(i));
                if before_assigned.contains(i) {
                    let a = choose|a: int| 0 <= a < k && before_ids[a] == i;
                    if exists|i2: u64| first_carrier(entries@, a, i2) {
                        let i2 = choose|i2: u64| first_carrier(entries@, a, i2);
                        assert(before_ids[a] == i2);
                        assert(entries@[a] == Some(i));
                    } else {
                        assert(!reserved@.contains(before_ids[a]));
                        assert(reserved_ids(entries@).contains(i));
                    }
                }
                assert(id == i);
            }
        }
        ids.push(id);
        proof {
            assert forall|x: u64| assigned@.contains(x) <==> exists|a: int| 0 <= a < k + 1 && ids@[a] == x by {
                if assigned@.contains(x) && x != id {
                    let a = choose|a: int| 0 <= a < k && before_ids[a] == x;
                    assert(ids@[a] == x);
                }
                if x == id {
                    assert(ids@[k as int] == x);
                }
                if exists|a: int| 0 <= a < k + 1 && ids@[a] == x {
                    let a = choose|a: int| 0 <= a < k + 1 && ids@[a] == x;
                    if a < k {
                        assert(before_ids[a] == x);
                    }
                }
            }
        }
        k = k + 1;
    }
    ids
}


/// The positions of `ids` ordered by identifier, ties kept in position order: the order in
/// which a saved scene lists its entities.
pub fn order_by_id(ids: &Vec<u64>) -> (order: Vec<usize>)
    ensures
        order@.len() == ids@.len(),
        forall|p: int| 0 <= p < order@.len() ==> #[trigger] order@[p] < ids@.len(),
        forall|p: int, q: int| 0 <= p < q < order@.len() ==> order@[p] != order@[q],
        forall|p: int, q: int|
            0 <= p < q < order@.len() ==> ids@[order@[p] as int] < ids@[order@[q] as int] || (ids@[order@[p] as int]
                == ids@[order@[q] as int] && order@[p] < order@[q]),
{
    let mut order: Vec<usize> = Vec::new();
    let mut k: usize = 0;
    while k < ids.len()
        invariant
            k <= ids@.len(),
            order@.len() == k,
            forall|p: int| 0 <= p < order@.len() ==> #[trigger] order@[p] < k,
            forall|p: int, q: int| 0 <= p < q < order@.len() ==> order@[p] != order@[q],
            forall|p: int, q: int|
                0 <= p < q < order@.len() ==> ids@[order@[p] as int] < ids@[order@[q] as int] || (ids@[order@[p] as int]
                    == ids@[order@[q] as int] && order@[p] < order@[q]),
        decreases ids@.len() - k,
    {
        let key = ids[k];
        let mut pos: usize = 0;
        while pos < order.len() && ids[order[pos]] <= key
            invariant
                k < ids@.len(),
                key == ids@[k as int],
                order@.len() == k,
                forall|p: int| 0 <= p < order@.len() ==> #[trigger] order@[p] < k,
                pos <= order@.len(),
                forall|p: int| 0 <= p < pos ==> ids@[#[trigger] order@[p] as int] <= key,
            decreases order@.len() - pos,
        {
            pos = pos + 1;
        }
        let ghost before = order@;
        order.insert(pos, k);
        proof {
            assert forall|p: int, q: int| 0 <= p < q < order@.len() implies ids@[order@[p] as int] < ids@[order@[q] as int]
                || (ids@[order@[p] as int] == ids@[order@[q] as int] && order@[p] < order@[q]) by {
                if q < pos {
                    assert(order@[p] == before[p] && order@[q] == before[q]);
                } else if q == pos {
                    assert(order@[p] == before[p]);
                } else if p == pos {
                    assert(order@[q] == before[q - 1]);
                    assert(pos < before.len());
                    assert(ids@[before[pos as int] as int] > key);
                    if q - 1 > pos {
                        assert(before[pos as int] != before[q - 1]);
                    }
                } else if p < pos {
                    assert(order@[p] == before[p] && order@[q] == before[q - 1]);
                } else {
                    assert(order@[p] == before[p - 1] && order@[q] == before[q - 1]);
                }
            }
            assert forall|p: int, q: int| 0 <= p < q < order@.len() implies order@[p] != order@[q] by {
                if p < pos && q < pos {
                    assert(order@[p] == before[p] && order@[q] == before[q]);
                } else if p < pos && q > pos {
                    assert(order@[p] == before[p] && order@[q] == before[q - 1]);
                } else if p > pos {
                    assert(order@[p] == before[p - 1] && order@[q] == before[q - 1]);
                } else if p == pos {
                    assert(order@[q] == before[q - 1]);
                } else {
                    assert(order@[p] == before[p]);
                }
            }
            assert forall|p: int| 0 <= p < order@.len() implies #[trigger] order@[p] < k + 1 by {
                if p < pos {
                    assert(order@[p] == before[p]);
                } else if p > pos {
                    assert(order@[p] == before[p - 1]);
                }
            }
        }
        k = k + 1;
    }
    order
}

/// When some entity among the first `j + 1` carries `i`, one of them is the first to.
proof fn lemma_first_carrier_exists(entries: Seq<Option<u64>>, j: int, i: u64) -> (l: int)
    requires
        0 <= j < entries.len(),
        entries[j] == Some(i),
    ensures
        0 <= l <= j,
        first_carrier(entries, l, i),
    decreases j,
{
    if exists|m: int| 0 <= m < j && entries[m] == Some(i) {
        let m = choose|m: int| 0 <= m < j && entries[m] == Some(i);
        lemma_first_carrier_exists(entries, m, i)
    } else {
        j
    }
}


/// Entity `k` carries an identifier that an earlier entity already carries.
pub open spec fn repeats_earlier(ids: Seq<u64>, k: int) -> bool {
    exists|j: int| 0 <= j < k && ids[j] == ids[k]
}

/// The identifier of the first entity that repeats an earlier entity's identifier: a scene
/// that lists such an entity cannot be loaded. `None` when all identifiers differ.
pub fn first_repeated_id(ids: &Vec<u64>) -> (r: Option<u64>)
    ensures
        r is None <==> ids@.no_duplicates(),
        r matches Some(i) ==> exists|k: int|
            0 <= k < ids@.len() && ids@[k] == i && repeats_earlier(ids@, k) && forall|m: int|
                0 <= m < k ==> !#[trigger] repeats_earlier(ids@, m),
{
    let mut seen: HashSet<u64> = HashSet::new();
    let mut k: usize = 0;
    while k < ids.len()
        invariant
            k <= ids@.len(),
            forall|x: u64| seen@.contains(x) <==> exists|j: int| 0 <= j < k && ids@[j] == x,
            forall|m: int| 0 <= m < k ==> !#[trigger] repeats_earlier(ids@, m),
        decreases ids@.len() - k,
    {
        let id = ids[k];
        if !seen.insert(id) {
            proof {
                let j = choose|j: int| 0 <= j < k && ids@[j] == id;
                assert(repeats_earlier(ids@, k as int));
            }
            return Some(id);
        }
        proof {
            assert(!repeats_earlier(ids@, k as int));
            assert forall|x: u64| seen@.contains(x) <==> exists|j: int| 0 <= j < k + 1 && ids@[j] == x by {
                if x == id {
                    assert(ids@[k as int] == x);
                }
            }
        }
        k = k + 1;
    }
    proof {
        assert forall|a: int, b: int| 0 <= a < ids@.len() && 0 <= b < ids@.len() && a != b implies ids@[a] != ids@[b] by {
            if a < b {
                assert(!repeats_earlier(ids@, b));
            } else {
                assert(!repeats_earlier(ids@, a));
            }
        }
    }
    None
}

/// The name a saved scene gives an entity that had none: "entity_<id>".
pub fn generated_entity_name(id: u64) -> (name: String)
    ensures
        name@ == "entity_"@ + decimal(id as nat),
{
    let mut name = String::new();
    push_str(&mut name, "entity_");
    push_decimal(&mut name, id);
    name
}

} // verus!
