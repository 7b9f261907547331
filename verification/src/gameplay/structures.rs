//! The structures a new world is generated with: which structures, their identifiers, and the
//! chests and spawner sites each one places around its centre. Where a structure's centre lies is
//! worked out with floating point and handed in.
use vstd::prelude::*;

use crate::gameplay::chests::ChestState;
use crate::gameplay::loot::{archetype_chest_tier, tier_rank, generate_loot_for_tier, loot_for, mix64, splitmix64, structure_socket_offset, ChestTier, StructureArchetype};
use crate::geometry::IVec3;

verus! {

/// Number of structures a new world is generated with.
pub const GENERATED_STRUCTURE_COUNT: usize = 5;

/// The kind of the `index`-th generated structure: two outposts, two ruins, a stronghold.
pub open spec fn archetype_at(index: int) -> StructureArchetype {
    if index < 2 {
        StructureArchetype::Outpost
    } else if index < 4 {
        StructureArchetype::Ruin
    } else {
        StructureArchetype::Stronghold
    }
}

pub fn generated_archetype(index: usize) -> (a: StructureArchetype)
    requires
        index < GENERATED_STRUCTURE_COUNT,
    ensures
        a == archetype_at(index as int),
{
    if index < 2 {
        StructureArchetype::Outpost
    } else if index < 4 {
        StructureArchetype::Ruin
    } else {
        StructureArchetype::Stronghold
    }
}

/// The salt of the `index`-th structure of a world made from `seed`: where it stands and how
/// its contents are rolled.
pub open spec fn salt_of(seed: u32, index: u64) -> u64 {
    mix64((seed as u64) ^ index.wrapping_mul(0x9E37_79B9))
}

pub fn structure_salt(seed: u32, index: u64) -> (salt: u64)
    ensures
        salt == salt_of(seed, index),
{
    splitmix64((seed as u64) ^ index.wrapping_mul(0x9E37_79B9))
}

pub open spec fn chests_of(a: StructureArchetype) -> int {
    match a {
        StructureArchetype::Outpost => 1,
        StructureArchetype::Ruin => 2,
        StructureArchetype::Stronghold => 3,
    }
}

pub open spec fn spawners_of(a: StructureArchetype) -> int {
    match a {
        StructureArchetype::Outpost => 1,
        StructureArchetype::Ruin => 1,
        StructureArchetype::Stronghold => 2,
    }
}

pub open spec fn tier_of(a: StructureArchetype) -> ChestTier {
    match a {
        StructureArchetype::Outpost => ChestTier::Common,
        StructureArchetype::Ruin => ChestTier::Rare,
        StructureArchetype::Stronghold => ChestTier::Epic,
    }
}

/// The chests a structure places have the tier its kind holds (`StructureArchetype::chest_tier`),
/// and a structure with more chests holds strictly better ones.
pub proof fn law_chest_tier_follows_archetype(a: StructureArchetype, b: StructureArchetype)
    ensures
        tier_of(a) == archetype_chest_tier(a),
        chests_of(a) < chests_of(b) ==> tier_rank(tier_of(a)) < tier_rank(tier_of(b)),
{
}

/// The sockets of a structure lie on the ground around its centre, never on it, and no two of
/// its chests or spawners share one.
pub proof fn law_sockets_apart(a: StructureArchetype, k1: int, k2: int, chest1: bool, chest2: bool)
    requires
        0 <= k1 < (if chest1 { chests_of(a) } else { spawners_of(a) }),
        0 <= k2 < (if chest2 { chests_of(a) } else { spawners_of(a) }),
        k1 != k2 || chest1 != chest2,
    ensures
        socket(k1, chest1) != socket(k2, chest2),
        socket(k1, chest1).y == 0,
        socket(k1, chest1).x != 0 || socket(k1, chest1).z != 0,
{
}

pub open spec fn base_cap_of(a: StructureArchetype) -> u32 {
    match a {
        StructureArchetype::Outpost => 1,
        StructureArchetype::Ruin => 2,
        StructureArchetype::Stronghold => 3,
    }
}

/// Offset of socket `index` around a structure's centre (chest sockets or spawner sockets).
pub open spec fn socket(index: int, chest: bool) -> IVec3 {
    if chest {
        if index % 3 == 0 { IVec3 { x: 2, y: 0, z: 2 } } else if index % 3 == 1 { IVec3 { x: -2i32, y: 0, z: 2 } } else { IVec3 { x: 0, y: 0, z: -2i32 } }
    } else {
        if index % 3 == 0 { IVec3 { x: 5, y: 0, z: 0 } } else if index % 3 == 1 { IVec3 { x: -5i32, y: 0, z: 0 } } else { IVec3 { x: 0, y: 0, z: 5 } }
    }
}

/// `a + b` lies within `i32`.
pub open spec fn fits_i32(a: int, b: int) -> bool {
    i32::MIN <= a + b <= i32::MAX
}

/// Every socket of a structure of kind `archetype` centred on (`x`, `z`) lies within `i32`.
pub open spec fn offsets_fit(archetype: StructureArchetype, x: i32, z: i32) -> bool {
    &&& forall|k: int| 0 <= k < chests_of(archetype) ==> fits_i32(x as int, #[trigger] socket(k, true).x as int) && fits_i32(
        z as int,
        socket(k, true).z as int,
    )
    &&& forall|k: int| 0 <= k < spawners_of(archetype) ==> fits_i32(x as int, #[trigger] socket(k, false).x as int) && fits_i32(
        z as int,
        socket(k, false).z as int,
    )
}

/// Whether every socket of a structure of kind `archetype` centred on (`x`, `z`) lies within
/// `i32`, as `plan_structure` requires.
pub fn sockets_fit(archetype: StructureArchetype, x: i32, z: i32) -> (b: bool)
    ensures
        b == offsets_fit(archetype, x, z),
{
    let chest_count = archetype.chest_count();
    let mut i: usize = 0;
    while i < chest_count
        invariant
            chest_count == chests_of(archetype),
            i <= chest_count,
            forall|k: int| 0 <= k < i ==> fits_i32(x as int, #[trigger] socket(k, true).x as int) && fits_i32(z as int, socket(k, true).z as int),
        decreases chest_count - i,
    {
        let o = structure_socket_offset(i, true);
        let sx = x as i64 + o.x as i64;
        let sz = z as i64 + o.z as i64;
        if sx < i32::MIN as i64 || sx > i32::MAX as i64 || sz < i32::MIN as i64 || sz > i32::MAX as i64 {
            assert(!fits_i32(x as int, socket(i as int, true).x as int) || !fits_i32(z as int, socket(i as int, true).z as int));
            return false;
        }
        i = i + 1;
    }
    let spawner_count = archetype.spawner_count();
    let mut j: usize = 0;
    while j < spawner_count
        invariant
            spawner_count == spawners_of(archetype),
            j <= spawner_count,
            forall|k: int| 0 <= k < chests_of(archetype) ==> fits_i32(x as int, #[trigger] socket(k, true).x as int) && fits_i32(z as int, socket(k, true).z as int),
            forall|k: int| 0 <= k < j ==> fits_i32(x as int, #[trigger] socket(k, false).x as int) && fits_i32(z as int, socket(k, false).z as int),
        decreases spawner_count - j,
    {
        let o = structure_socket_offset(j, false);
        let sx = x as i64 + o.x as i64;
        let sz = z as i64 + o.z as i64;
        if sx < i32::MIN as i64 || sx > i32::MAX as i64 || sz < i32::MIN as i64 || sz > i32::MAX as i64 {
            assert(!fits_i32(x as int, socket(j as int, false).x as int) || !fits_i32(z as int, socket(j as int, false).z as int));
            return false;
        }
        j = j + 1;
    }
    true
}

/// The identifier handed out `k` allocations after `next`: identifiers count up and stay at
/// `u64::MAX` once they reach it.
pub open spec fn id_after(next: u64, k: int) -> u64 {
    if next + k <= u64::MAX {
        (next + k) as u64
    } else {
        u64::MAX
    }
}

#[derive(Clone, Debug)]
pub struct StructureInstance {
    pub id: u64,
    pub archetype: StructureArchetype,
    pub position: [i32; 3],
    pub seed: u64,
    pub chest_ids: Vec<u64>,
    pub spawner_ids: Vec<u64>,
}

/// Where a structure places a spawner, and how many enemies it keeps alive by day. Its timing,
/// which is floating point, is set by the caller.
#[derive(Clone, Copy, Debug)]
pub struct SpawnerSite {
    pub id: u64,
    pub structure_id: u64,
    pub position: [i32; 3],
    pub base_cap: u32,
}

/// Hands out the identifier `*next_id` and moves past it, staying at `u64::MAX`.
pub fn alloc_id(next_id: &mut u64) -> (id: u64)
    ensures
        id == *old(next_id),
        *final(next_id) == id_after(*old(next_id), 1),
{
    let id = *next_id;
    *next_id = next_id.saturating_add(1);
    id
}

/// A structure of kind `archetype` centred on (`x`, `z`), rolled from `salt`, with the
/// identifiers from `*next_id` on: the structure first, then its chests, then its spawners, each
/// in socket order. Chests are filled with the loot of the structure's tier, rolled from the
/// structure's seed and the chest's identifier.
pub fn plan_structure(archetype: StructureArchetype, x: i32, z: i32, salt: u64, next_id: &mut u64) -> (r: (
    StructureInstance,
    Vec<ChestState>,
    Vec<SpawnerSite>,
))
    requires
        offsets_fit(archetype, x, z),
    ensures
        ({
            let n = *old(next_id);
            let (s, chests, spawners) = r;
            let sid = id_after(n, 0);
            let nc = chests_of(archetype);
            let ns = spawners_of(archetype);
            &&& s.id == sid
            &&& s.archetype == archetype
            &&& s.position@ == seq![x, 0i32, z]
            &&& s.seed == mix64(salt ^ 0xA0A0_1F1Fu64)
            &&& chests@.len() == nc && s.chest_ids@.len() == nc
            &&& spawners@.len() == ns && s.spawner_ids@.len() == ns
            &&& forall|i: int| 0 <= i < nc ==> {
                let c = #[trigger] chests@[i];
                &&& c.id == id_after(n, 1 + i)
                &&& s.chest_ids@[i] == c.id
                &&& c.structure_id == Some(sid)
                &&& c.tier == tier_of(archetype)
                &&& c.position@ == seq![(x + socket(i, true).x) as i32, 0i32, (z + socket(i, true).z) as i32]
                &&& c.contents@ == loot_for(tier_of(archetype), s.seed ^ c.id)
                &&& !c.opened
                &&& c.respawn_after_days is None
            }
            &&& forall|j: int| 0 <= j < ns ==> {
                let p = #[trigger] spawners@[j];
                &&& p.id == id_after(n, 1 + nc + j)
                &&& s.spawner_ids@[j] == p.id
                &&& p.structure_id == sid
                &&& p.position@ == seq![(x + socket(j, false).x) as i32, 0i32, (z + socket(j, false).z) as i32]
                &&& p.base_cap == base_cap_of(archetype)
            }
            &&& *final(next_id) == id_after(n, 1 + nc + ns)
        }),
{
    let ghost n = *next_id;
    let structure_id = alloc_id(next_id);
    let structure_seed = splitmix64(salt ^ 0xA0A0_1F1Fu64);
    let tier = archetype.chest_tier();
    let chest_count = archetype.chest_count();
    let spawner_count = archetype.spawner_count();

    let mut chests: Vec<ChestState> = Vec::new();
    let mut chest_ids: Vec<u64> = Vec::new();
    let mut i: usize = 0;
    while i < chest_count
        invariant
            offsets_fit(archetype, x, z),
            structure_id == id_after(n, 0),
            structure_seed == mix64(salt ^ 0xA0A0_1F1Fu64),
            tier == tier_of(archetype),
            chest_count == chests_of(archetype),
            i <= chest_count,
            *next_id == id_after(n, 1 + i),
            chests@.len() == i,
            chest_ids@.len() == i,
            forall|k: int| 0 <= k < i ==> {
                let c = #[trigger] chests@[k];
                &&& c.id == id_after(n, 1 + k)
                &&& chest_ids@[k] == c.id
                &&& c.structure_id == Some(structure_id)
                &&& c.tier == tier
                &&& c.position@ == seq![(x + socket(k, true).x) as i32, 0i32, (z + socket(k, true).z) as i32]
                &&& c.contents@ == loot_for(tier, structure_seed ^ c.id)
                &&& !c.opened
                &&& c.respawn_after_days is None
            },
        decreases chest_count - i,
    {
        let offset = structure_socket_offset(i, true);
        assert(fits_i32(x as int, socket(i as int, true).x as int) && fits_i32(z as int, socket(i as int, true).z as int));
        let chest_id = alloc_id(next_id);
        chest_ids.push(chest_id);
        let chest = ChestState {
            id: chest_id,
            structure_id: Some(structure_id),
            tier,
            position: [x + offset.x, 0, z + offset.z],
            contents: generate_loot_for_tier(tier, structure_seed ^ chest_id),
            opened: false,
            respawn_after_days: None,
        };
        proof {
            assert(chest.position@ =~= seq![(x + socket(i as int, true).x) as i32, 0i32, (z + socket(i as int, true).z) as i32]);
        }
        chests.push(chest);
        i = i + 1;
    }

    let mut spawners: Vec<SpawnerSite> = Vec::new();
    let mut spawner_ids: Vec<u64> = Vec::new();
    let base_cap = archetype.spawner_base_cap();
    let mut j: usize = 0;
    while j < spawner_count
        invariant
            offsets_fit(archetype, x, z),
            structure_id == id_after(n, 0),
            base_cap == base_cap_of(archetype),
            chest_count == chests_of(archetype),
            spawner_count == spawners_of(archetype),
            j <= spawner_count,
            *next_id == id_after(n, 1 + chest_count + j),
            spawners@.len() == j,
            spawner_ids@.len() == j,
            forall|k: int| 0 <= k < j ==> {
                let p = #[trigger] spawners@[k];
                &&& p.id == id_after(n, 1 + chest_count + k)
                &&& spawner_ids@[k] == p.id
                &&& p.structure_id == structure_id
                &&& p.position@ == seq![(x + socket(k, false).x) as i32, 0i32, (z + socket(k, false).z) as i32]
                &&& p.base_cap == base_cap
            },
        decreases spawner_count - j,
    {
        let offset = structure_socket_offset(j, false);
        assert(fits_i32(x as int, socket(j as int, false).x as int) && fits_i32(z as int, socket(j as int, false).z as int));
        let spawner_id = alloc_id(next_id);
        spawner_ids.push(spawner_id);
        let site = SpawnerSite {
            id: spawner_id,
            structure_id,
            position: [x + offset.x, 0, z + offset.z],
            base_cap,
        };
        proof {
            assert(site.position@ =~= seq![(x + socket(j as int, false).x) as i32, 0i32, (z + socket(j as int, false).z) as i32]);
        }
        spawners.push(site);
        j = j + 1;
    }

    let structure = StructureInstance {
        id: structure_id,
        archetype,
        position: [x, 0, z],
        seed: structure_seed,
        chest_ids,
        spawner_ids,
    };
    proof {
        assert(structure.position@ =~= seq![x, 0i32, z]);
    }
    (structure, chests, spawners)
}

} // verus!
