use neosurv::gameplay::inventory::{clamp_health, InventoryState, ItemId, ItemStack};

#[test]
fn grant_item_stacks_into_matching_slot() {
    let mut inventory = InventoryState::new_default_loadout();
    let remaining = inventory.grant_item(ItemId::Grenade, 2);
    assert_eq!(remaining, 0);
    assert_eq!(inventory.slots[3].stack.unwrap().count, 5);
}

#[test]
fn consumables_are_removed_from_hotbar() {
    let mut inventory = InventoryState::new_default_loadout();
    assert!(inventory.consume_heal());
    assert_eq!(inventory.slots[2].stack.unwrap().count, 1);
    assert!(inventory.consume_throwable());
    assert_eq!(inventory.slots[3].stack.unwrap().count, 2);
}

#[test]
fn grant_beyond_stack_size_hands_back_the_rest() {
    let mut inventory = InventoryState::new_default_loadout();
    // medkits: 2 held, stack size 6
    let remaining = inventory.grant_item(ItemId::Medkit, 10);
    assert_eq!(remaining, 6);
    assert_eq!(inventory.slots[2].stack.unwrap().count, 6);
    // granted and handed back add up to what was asked for
    assert_eq!((6 - 2) + remaining, 10);
}

#[test]
fn grant_of_zero_grants_one() {
    let mut inventory = InventoryState::new_default_loadout();
    assert!(inventory.consume_heal());
    assert!(inventory.consume_heal());
    assert!(inventory.slots[2].stack.is_none());
    let remaining = inventory.grant_item(ItemId::Medkit, 0);
    assert_eq!(remaining, 0);
    assert_eq!(inventory.slots[2].stack.unwrap().count, 1);
}

#[test]
fn consuming_an_empty_slot_fails() {
    let mut inventory = InventoryState::new_default_loadout();
    assert!(inventory.consume_heal());
    assert!(inventory.consume_heal());
    assert!(!inventory.consume_heal());
    assert!(!inventory.consume_from_slot(7, ItemId::Medkit));
    assert!(!inventory.consume_from_slot(0, ItemId::Medkit));
}

#[test]
fn weapon_selection_is_clamped_to_weapon_slots() {
    let mut inventory = InventoryState::new_default_loadout();
    assert_eq!(inventory.selected_weapon(), Some(ItemId::Sidearm));
    inventory.select_weapon_slot(5);
    assert_eq!(inventory.selected_weapon_slot, 1);
    assert_eq!(inventory.selected_weapon(), Some(ItemId::Launcher));
}

#[test]
fn item_tokens_labels_and_stacks() {
    assert_eq!(ItemId::from_token(" Pistol "), Some(ItemId::Sidearm));
    assert_eq!(ItemId::from_token("rocket"), Some(ItemId::Launcher));
    assert_eq!(ItemId::from_token("HEALTH"), Some(ItemId::Medkit));
    assert_eq!(ItemId::from_token("frag"), Some(ItemId::Grenade));
    assert_eq!(ItemId::from_token("sword"), None);
    assert_eq!(ItemId::Grenade.label(), "GRENADE");
    assert_eq!(ItemId::Medkit.max_stack(), 6);
    assert_eq!(ItemId::Grenade.preferred_slot(), 3);
    assert_eq!(ItemStack::new(ItemId::Medkit, 0).count, 1);
    assert_eq!(ItemStack::new(ItemId::Medkit, 40).count, 6);
}

#[test]
fn health_is_clamped() {
    assert_eq!(clamp_health(-5, 100), 0);
    assert_eq!(clamp_health(150, 100), 100);
    assert_eq!(clamp_health(50, 100), 50);
    assert_eq!(clamp_health(50, 0), 1);
}

#[test]
fn labels_read_back_as_tokens() {
    for id in [ItemId::Sidearm, ItemId::Launcher, ItemId::Medkit, ItemId::Grenade] {
        assert_eq!(ItemId::from_token(id.label()), Some(id));
        let padded = format!("  {}  ", id.label().to_ascii_lowercase());
        assert_eq!(ItemId::from_token(&padded), Some(id));
        let mixed = format!("\t{}\n", id.label()[..1].to_owned() + &id.label()[1..].to_ascii_lowercase());
        assert_eq!(ItemId::from_token(&mixed), Some(id));
    }
    assert_eq!(ItemId::from_token("sword"), None);
}
