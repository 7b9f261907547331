//! Structures, their chests and the loot the chests hold.
use vstd::prelude::*;

use crate::gameplay::inventory::{ItemId, ItemStack, stack_count};
use crate::geometry::IVec3;

verus! {

#[derive(Clone, Copy, Debug, PartialEq, Eq, Structural)]
pub enum ChestTier {
    Common,
    Rare,
    Epic,
}

/// The name a tier is shown under.
pub open spec fn tier_label(tier: ChestTier) -> Seq<char> {
    match tier {
        ChestTier::Common => "COMMON"@,
        ChestTier::Rare => "RARE"@,
        ChestTier::Epic => "EPIC"@,
    }
}

impl ChestTier {
    pub fn label(self) -> (s: &'static str)
        ensures
            s@ == tier_label(self),
    {
        match self {
            ChestTier::Common => "COMMON",
            ChestTier::Rare => "RARE",
            ChestTier::Epic => "EPIC",
        }
    }
}

#[derive(Clone, Copy, Debug, PartialEq, Eq, Structural)]
pub enum StructureArchetype {
    Outpost,
    Ruin,
    Stronghold,
}

/// The tier of the chests a structure of kind `a` holds: outposts common, ruins rare,
/// strongholds epic.
pub open spec fn archetype_chest_tier(a: StructureArchetype) -> ChestTier {
    match a {
        StructureArchetype::Outpost => ChestTier::Common,
        StructureArchetype::Ruin => ChestTier::Rare,
        StructureArchetype::Stronghold => ChestTier::Epic,
    }
}

/// How good a chest tier is: common below rare below epic.
pub open spec fn tier_rank(t: ChestTier) -> int {
    match t {
        ChestTier::Common => 0,
        ChestTier::Rare => 1,
        ChestTier::Epic => 2,
    }
}

impl StructureArchetype {
    /// Outposts hold common chests, ruins rare ones, strongholds epic ones.
    pub fn chest_tier(self) -> (t: ChestTier)
        ensures
            t == archetype_chest_tier(self),
    {
        match self {
            StructureArchetype::Outpost => ChestTier::Common,
            StructureArchetype::Ruin => ChestTier::Rare,
            StructureArchetype::Stronghold => ChestTier::Epic,
        }
    }

    pub fn spawner_count(self) -> (n: usize)
        ensures
            n == match self {
                StructureArchetype::Outpost => 1usize,
                StructureArchetype::Ruin => 1usize,
                StructureArchetype::Stronghold => 2usize,
            },
    {
        match self {
            StructureArchetype::Outpost => 1,
            StructureArchetype::Ruin => 1,
            StructureArchetype::Stronghold => 2,
        }
    }

    pub fn chest_count(self) -> (n: usize)
        ensures
            n == match self {
                StructureArchetype::Outpost => 1usize,
                StructureArchetype::Ruin => 2usize,
                StructureArchetype::Stronghold => 3usize,
            },
    {
        match self {
            StructureArchetype::Outpost => 1,
            StructureArchetype::Ruin => 2,
            StructureArchetype::Stronghold => 3,
        }
    }

    /// Largest number of enemies a spawner of this structure keeps alive by day.
    pub fn spawner_base_cap(self) -> (n: u32)
        ensures
            n == match self {
                StructureArchetype::Outpost => 1u32,
                StructureArchetype::Ruin => 2u32,
                StructureArchetype::Stronghold => 3u32,
            },
    {
        match self {
            StructureArchetype::Outpost => 1,
            StructureArchetype::Ruin => 2,
            StructureArchetype::Stronghold => 3,
        }
    }
}

/// The SplitMix64 mixing function.
pub open spec fn mix64(value: u64) -> u64 {
    let v1 = value.wrapping_add(0x9E37_79B9_7F4A_7C15);
    let v2 = (v1 ^ (v1 >> 30u64)).wrapping_mul(0xBF58_476D_1CE4_E5B9);
    let v3 = (v2 ^ (v2 >> 27u64)).wrapping_mul(0x94D0_49BB_1331_11EB);
    v3 ^ (v3 >> 31u64)
}

pub fn splitmix64(value: u64) -> (r: u64)
    ensures
        r == mix64(value),
{
    let v1 = value.wrapping_add(0x9E37_79B9_7F4A_7C15);
    let v2 = (v1 ^ (v1 >> 30u64)).wrapping_mul(0xBF58_476D_1CE4_E5B9);
    let v3 = (v2 ^ (v2 >> 27u64)).wrapping_mul(0x94D0_49BB_1331_11EB);
    v3 ^ (v3 >> 31u64)
}

pub open spec fn min_u32(a: u32, b: u32) -> u32 {
    if a < b { a } else { b }
}

/// The loot of a chest of `tier` made from `seed`: medkits and grenades whose numbers come from
/// the seed's low bits.
pub open spec fn loot_for(tier: ChestTier, seed: u64) -> Seq<ItemStack> {
    let medkits = ((seed & 3u64) as u32 + 1) as u32;
    let grenades = (((seed >> 7u64) & 3u64) as u32 + 1) as u32;
    match tier {
        ChestTier::Common => {
            let first = seq![ItemStack { item_id: ItemId::Medkit, count: stack_count(ItemId::Medkit, min_u32(medkits, 2)) }];
            if seed & 1u64 == 0 {
                first.push(ItemStack { item_id: ItemId::Grenade, count: stack_count(ItemId::Grenade, 1) })
            } else {
                first
            }
        },
        ChestTier::Rare => seq![
            ItemStack { item_id: ItemId::Medkit, count: stack_count(ItemId::Medkit, (min_u32(medkits, 3) + 1) as u32) },
            ItemStack { item_id: ItemId::Grenade, count: stack_count(ItemId::Grenade, (min_u32(grenades, 3) + 1) as u32) },
        ],
        ChestTier::Epic => seq![
            ItemStack { item_id: ItemId::Medkit, count: stack_count(ItemId::Medkit, (min_u32(medkits, 4) + 2) as u32) },
            ItemStack { item_id: ItemId::Grenade, count: stack_count(ItemId::Grenade, (min_u32(grenades, 4) + 2) as u32) },
        ],
    }
}

pub fn generate_loot_for_tier(tier: ChestTier, seed: u64) -> (loot: Vec<ItemStack>)
    ensures
        loot@ == loot_for(tier, seed),
{
    let mut loot: Vec<ItemStack> = Vec::new();
    assert((seed & 3u64) <= 3u64) by (bit_vector);
    assert(((seed >> 7u64) & 3u64) <= 3u64) by (bit_vector);
    let medkits = (seed & 3) as u32 + 1;
    let grenades = ((seed >> 7) & 3) as u32 + 1;
    match tier {
        ChestTier::Common => {
            loot.push(ItemStack::new(ItemId::Medkit, if medkits < 2 { medkits } else { 2 }));
            if seed & 1 == 0 {
                loot.push(ItemStack::new(ItemId::Grenade, 1));
            }
        },
        ChestTier::Rare => {
            loot.push(ItemStack::new(ItemId::Medkit, (if medkits < 3 { medkits } else { 3 }) + 1));
            loot.push(ItemStack::new(ItemId::Grenade, (if grenades < 3 { grenades } else { 3 }) + 1));
        },
        ChestTier::Epic => {
            loot.push(ItemStack::new(ItemId::Medkit, (if medkits < 4 { medkits } else { 4 }) + 2));
            loot.push(ItemStack::new(ItemId::Grenade, (if grenades < 4 { grenades } else { 4 }) + 2));
        },
    }
    loot
}

/// Offset from a structure's centre of its `index`-th chest (or spawner) socket; sockets repeat
/// after the third.
pub fn structure_socket_offset(index: usize, chest: bool) -> (o: IVec3)
    ensures
        o == (if chest {
            if index % 3 == 0 { IVec3 { x: 2, y: 0, z: 2 } } else if index % 3 == 1 { IVec3 { x: -2i32, y: 0, z: 2 } } else { IVec3 { x: 0, y: 0, z: -2i32 } }
        } else {
            if index % 3 == 0 { IVec3 { x: 5, y: 0, z: 0 } } else if index % 3 == 1 { IVec3 { x: -5i32, y: 0, z: 0 } } else { IVec3 { x: 0, y: 0, z: 5 } }
        }),
{
    let i = index % 3;
    if chest {
        if i == 0 {
            IVec3::new(2, 0, 2)
        } else if i == 1 {
            IVec3::new(-2, 0, 2)
        } else {
            IVec3::new(0, 0, -2)
        }
    } else {
        if i == 0 {
            IVec3::new(5, 0, 0)
        } else if i == 1 {
            IVec3::new(-5, 0, 0)
        } else {
            IVec3::new(0, 0, 5)
        }
    }
}

/// Every chest holds medkits, and at most what the hotbar's slots can take of each item.
pub proof fn law_loot_fits_stacks(tier: ChestTier, seed: u64)
    ensures
        loot_for(tier, seed).len() >= 1,
        loot_for(tier, seed)[0].item_id == ItemId::Medkit,
        forall|i: int| 0 <= i < loot_for(tier, seed).len() ==> 1 <= #[trigger] loot_for(tier, seed)[i].count
            <= crate::gameplay::inventory::max_stack_of(loot_for(tier, seed)[i].item_id),
{
}

/// How many of `item` the stacks `loot` hold together.
pub open spec fn loot_count(loot: Seq<ItemStack>, item: ItemId) -> int
    decreases loot.len(),
{
    if loot.len() == 0 {
        0
    } else {
        loot_count(loot.drop_last(), item) + if loot.last().item_id == item { loot.last().count as int } else { 0 }
    }
}

/// From the same seed, a better chest tier holds strictly more medkits and strictly more
/// grenades, and every chest holds at least one medkit.
pub proof fn law_better_tier_more_loot(t1: ChestTier, t2: ChestTier, seed: u64)
    ensures
        loot_count(loot_for(t1, seed), ItemId::Medkit) >= 1,
        tier_rank(t1) < tier_rank(t2) ==> loot_count(loot_for(t1, seed), ItemId::Medkit) < loot_count(
            loot_for(t2, seed),
            ItemId::Medkit,
        ) && loot_count(loot_for(t1, seed), ItemId::Grenade) < loot_count(loot_for(t2, seed), ItemId::Grenade),
{
    assert((seed & 3u64) <= 3u64) by (bit_vector);
    assert(((seed >> 7u64) & 3u64) <= 3u64) by (bit_vector);
    reveal_with_fuel(loot_count, 3);
    assert(loot_for(t1, seed).drop_last().len() <= 1);
    assert(loot_for(t2, seed).drop_last().len() <= 1);
}

} // verus!
