use neosurv::gameplay::chests::{debug_chest, open_chest, ChestState};
use neosurv::gameplay::damage::{resolve_damage, DamageEvent, DamageResolution};
use neosurv::gameplay::inventory::{ItemId, ItemStack};
use neosurv::gameplay::loot::{generate_loot_for_tier, splitmix64, structure_socket_offset, ChestTier, StructureArchetype};
use neosurv::gameplay::player::PlayerRuntimeState;
use neosurv::geometry::IVec3;

fn chest_with(contents: Vec<ItemStack>) -> ChestState {
    ChestState {
        id: 40,
        structure_id: Some(3),
        tier: ChestTier::Rare,
        position: [1, 2, 3],
        contents,
        opened: false,
        respawn_after_days: None,
    }
}

#[test]
fn opening_a_chest_moves_its_loot_into_the_hotbar() {
    let mut players = vec![PlayerRuntimeState::new_local()];
    let mut chest = chest_with(vec![
        ItemStack { item_id: ItemId::Medkit, count: 2 },
        ItemStack { item_id: ItemId::Grenade, count: 3 },
    ]);
    let report = open_chest(&mut chest, &mut players).unwrap();
    assert_eq!(report, "LOOTED RARE CHEST: MEDKIT X2, GRENADE X3");
    assert!(chest.opened);
    assert!(chest.contents.is_empty());
    assert_eq!(players[0].inventory.slots[2].stack.unwrap().count, 4);
    assert_eq!(players[0].inventory.slots[3].stack.unwrap().count, 6);

    let again = open_chest(&mut chest, &mut players).unwrap();
    assert_eq!(again, "RARE CHEST IS EMPTY");
}

#[test]
fn what_does_not_fit_stays_in_the_chest() {
    let mut players = vec![PlayerRuntimeState::new_local()];
    let mut chest = chest_with(vec![ItemStack { item_id: ItemId::Grenade, count: 7 }]);
    let report = open_chest(&mut chest, &mut players).unwrap();
    assert_eq!(report, "LOOTED RARE CHEST: GRENADE X5 (SOME ITEMS LEFT)");
    assert!(!chest.opened);
    assert_eq!(chest.contents, vec![ItemStack { item_id: ItemId::Grenade, count: 2 }]);
    assert_eq!(players[0].inventory.slots[3].stack.unwrap().count, 8);
}

#[test]
fn full_hotbar_takes_nothing() {
    let mut players = vec![PlayerRuntimeState::new_local()];
    let mut chest = chest_with(vec![ItemStack { item_id: ItemId::Sidearm, count: 1 }]);
    let report = open_chest(&mut chest, &mut players).unwrap();
    assert_eq!(report, "RARE CHEST HAD NO SPACEABLE LOOT");
    assert!(!chest.opened);
    assert_eq!(chest.contents.len(), 1);
}

#[test]
fn no_local_player_no_report() {
    let mut stranger = PlayerRuntimeState::new_local();
    stranger.id = 9;
    let mut players = vec![stranger];
    let mut chest = chest_with(vec![ItemStack { item_id: ItemId::Medkit, count: 1 }]);
    assert!(open_chest(&mut chest, &mut players).is_none());
    assert_eq!(chest.contents.len(), 1);
}

#[test]
fn debug_chest_is_filled_by_its_id() {
    let chest = debug_chest(12, IVec3::new(4, 5, 6), ChestTier::Common);
    assert_eq!(chest.contents, generate_loot_for_tier(ChestTier::Common, splitmix64(12)));
    assert_eq!(chest.position, [4, 5, 6]);
    assert!(!chest.opened);
    assert!(chest.structure_id.is_none());
}

#[test]
fn medkit_use_heals_and_consumes() {
    let mut player = PlayerRuntimeState::new_local();
    player.apply_damage(50);
    assert_eq!(player.use_heal_item(), "USED MEDKIT HP 85");
    assert_eq!(player.use_heal_item(), "USED MEDKIT HP 100");
    assert_eq!(player.use_heal_item(), "NO MEDKITS");
    assert_eq!(player.health, 100);
}

#[test]
fn damage_is_never_negative_and_never_below_zero() {
    let mut player = PlayerRuntimeState::new_local();
    player.apply_damage(-5);
    assert_eq!(player.health, 100);
    player.apply_damage(250);
    assert_eq!(player.health, 0);
}

#[test]
fn splitmix_reference_values() {
    assert_eq!(splitmix64(0), 0xE220_A839_7B1D_CDAF);
    assert_eq!(splitmix64(1), 0x910A_2DEC_8902_5CC1);
}

#[test]
fn loot_tables() {
    // seed 0: medkits 1, grenades 1
    let common = generate_loot_for_tier(ChestTier::Common, 0);
    assert_eq!(
        common,
        vec![
            ItemStack { item_id: ItemId::Medkit, count: 1 },
            ItemStack { item_id: ItemId::Grenade, count: 1 }
        ]
    );
    let common_odd = generate_loot_for_tier(ChestTier::Common, 1);
    assert_eq!(common_odd, vec![ItemStack { item_id: ItemId::Medkit, count: 2 }]);
    let epic = generate_loot_for_tier(ChestTier::Epic, 3 | (3 << 7));
    assert_eq!(
        epic,
        vec![
            ItemStack { item_id: ItemId::Medkit, count: 6 },
            ItemStack { item_id: ItemId::Grenade, count: 6 }
        ]
    );
    let rare = generate_loot_for_tier(ChestTier::Rare, 2);
    assert_eq!(
        rare,
        vec![
            ItemStack { item_id: ItemId::Medkit, count: 4 },
            ItemStack { item_id: ItemId::Grenade, count: 2 }
        ]
    );
}

#[test]
fn structures_and_sockets() {
    assert_eq!(StructureArchetype::Stronghold.chest_tier(), ChestTier::Epic);
    assert_eq!(StructureArchetype::Ruin.chest_count(), 2);
    assert_eq!(StructureArchetype::Stronghold.spawner_count(), 2);
    assert_eq!(ChestTier::Rare.label(), "RARE");
    assert_eq!(structure_socket_offset(0, true), IVec3::new(2, 0, 2));
    assert_eq!(structure_socket_offset(4, true), IVec3::new(-2, 0, 2));
    assert_eq!(structure_socket_offset(2, false), IVec3::new(0, 0, 5));
}

#[test]
fn damage_resolution() {
    assert_eq!(resolve_damage(30, DamageEvent { amount: 10 }), DamageResolution::Survived { remaining_hp: 20 });
    assert_eq!(resolve_damage(30, DamageEvent { amount: 30 }), DamageResolution::Eliminated);
    assert_eq!(resolve_damage(30, DamageEvent { amount: -5 }), DamageResolution::Survived { remaining_hp: 30 });
}
