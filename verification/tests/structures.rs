use neosurv::gameplay::loot::{generate_loot_for_tier, splitmix64, ChestTier, StructureArchetype};
use neosurv::gameplay::structures::{
    alloc_id, generated_archetype, plan_structure, sockets_fit, structure_salt, GENERATED_STRUCTURE_COUNT,
};

#[test]
fn generated_worlds_hold_two_outposts_two_ruins_and_a_stronghold() {
    let kinds: Vec<StructureArchetype> = (0..GENERATED_STRUCTURE_COUNT).map(generated_archetype).collect();
    assert_eq!(
        kinds,
        vec![
            StructureArchetype::Outpost,
            StructureArchetype::Outpost,
            StructureArchetype::Ruin,
            StructureArchetype::Ruin,
            StructureArchetype::Stronghold,
        ]
    );
}

#[test]
fn structure_salt_mixes_seed_and_index() {
    assert_eq!(structure_salt(42, 0), splitmix64(42));
    assert_eq!(structure_salt(42, 1), splitmix64(42 ^ 0x9E37_79B9));
    assert_ne!(structure_salt(42, 1), structure_salt(7, 1));
}

#[test]
fn stronghold_places_chests_then_spawners_around_its_centre() {
    let mut next = 10u64;
    let (structure, chests, spawners) = plan_structure(StructureArchetype::Stronghold, 20, -7, 99, &mut next);
    let seed = splitmix64(99 ^ 0xA0A0_1F1F);

    assert_eq!(structure.id, 10);
    assert_eq!(structure.position, [20, 0, -7]);
    assert_eq!(structure.seed, seed);
    assert_eq!(structure.chest_ids, vec![11, 12, 13]);
    assert_eq!(structure.spawner_ids, vec![14, 15]);
    assert_eq!(next, 16);

    let positions: Vec<[i32; 3]> = chests.iter().map(|c| c.position).collect();
    assert_eq!(positions, vec![[22, 0, -5], [18, 0, -5], [20, 0, -9]]);
    for chest in &chests {
        assert_eq!(chest.structure_id, Some(10));
        assert_eq!(chest.tier, ChestTier::Epic);
        assert!(!chest.opened);
        assert_eq!(chest.contents, generate_loot_for_tier(ChestTier::Epic, seed ^ chest.id));
    }

    let sites: Vec<([i32; 3], u32)> = spawners.iter().map(|s| (s.position, s.base_cap)).collect();
    assert_eq!(sites, vec![([25, 0, -7], 3), ([15, 0, -7], 3)]);
    assert!(spawners.iter().all(|s| s.structure_id == 10));
}

#[test]
fn identifiers_stop_at_the_largest_value() {
    let mut next = u64::MAX - 1;
    assert_eq!(alloc_id(&mut next), u64::MAX - 1);
    assert_eq!(alloc_id(&mut next), u64::MAX);
    assert_eq!(alloc_id(&mut next), u64::MAX);
    assert_eq!(next, u64::MAX);

    let mut next = 1u64;
    let (outpost, chests, spawners) = plan_structure(StructureArchetype::Outpost, 0, 0, 5, &mut next);
    assert_eq!((outpost.id, chests.len(), spawners.len(), next), (1, 1, 1, 4));
    assert_eq!(chests[0].tier, ChestTier::Common);
    assert_eq!(spawners[0].base_cap, 1);
}

#[test]
fn structures_fit_up_to_the_edge_of_the_integer_range() {
    assert!(sockets_fit(StructureArchetype::Outpost, 0, 0));
    assert!(sockets_fit(StructureArchetype::Outpost, i32::MAX - 5, i32::MAX - 2));
    assert!(!sockets_fit(StructureArchetype::Outpost, i32::MAX - 4, 0));
    assert!(!sockets_fit(StructureArchetype::Stronghold, 0, i32::MAX - 1));
    assert!(sockets_fit(StructureArchetype::Ruin, i32::MIN + 5, i32::MIN + 2));
    let mut next = 1u64;
    let (structure, chests, spawners) = plan_structure(StructureArchetype::Outpost, i32::MAX - 5, 0, 3, &mut next);
    assert_eq!(structure.position, [i32::MAX - 5, 0, 0]);
    assert_eq!(chests[0].position, [i32::MAX - 3, 0, 2]);
    assert_eq!(spawners[0].position, [i32::MAX, 0, 0]);
}
