//! The players of a world: health and hotbar.
use vstd::prelude::*;

use crate::chars::{decimal, push_decimal, push_str};
use crate::gameplay::inventory::{clamp_health, consume_result, default_loadout, InventoryState, ItemId};

verus! {

/// The identifier of the player on this machine.
pub const LOCAL_PLAYER_ID: u64 = 1;

pub const PLAYER_MAX_HEALTH: i32 = 100;

/// Medkits restore this much health.
pub const MEDKIT_HEAL: i32 = 35;

#[derive(Clone, Copy, Debug)]
pub struct PlayerRuntimeState {
    pub id: u64,
    pub health: i32,
    pub max_health: i32,
    pub inventory: InventoryState,
}

/// `health` clamped to `0 ..= max(max_health, 1)`.
pub open spec fn clamped(health: int, max_health: int) -> int {
    let max = if max_health < 1 { 1 } else { max_health };
    if health < 0 {
        0
    } else if health > max {
        max
    } else {
        health
    }
}

/// Health after healing by `amount` (a negative amount heals nothing).
pub open spec fn healed(p: PlayerRuntimeState, amount: int) -> int {
    clamped(p.health + (if amount < 0 { 0 } else { amount }), p.max_health as int)
}

/// Health after taking `amount` of damage (a negative amount does nothing).
pub open spec fn damaged(p: PlayerRuntimeState, amount: int) -> int {
    clamped(p.health - (if amount < 0 { 0 } else { amount }), p.max_health as int)
}

/// Position of the first player with the local identifier.
pub open spec fn local_position(players: Seq<PlayerRuntimeState>) -> Option<int> {
    if exists|i: int| 0 <= i < players.len() && players[i].id == LOCAL_PLAYER_ID {
        Some(choose|i: int|
            0 <= i < players.len() && players[i].id == LOCAL_PLAYER_ID && forall|j: int|
                0 <= j < i ==> players[j].id != LOCAL_PLAYER_ID)
    } else {
        None
    }
}

impl PlayerRuntimeState {
    /// The local player at full health with the starting hotbar.
    pub fn new_local() -> (p: Self)
        ensures
            p.id == LOCAL_PLAYER_ID,
            p.health == PLAYER_MAX_HEALTH,
            p.max_health == PLAYER_MAX_HEALTH,
            p.inventory == default_loadout(),
    {
        PlayerRuntimeState {
            id: LOCAL_PLAYER_ID,
            health: PLAYER_MAX_HEALTH,
            max_health: PLAYER_MAX_HEALTH,
            inventory: InventoryState::new_default_loadout(),
        }
    }

    pub fn apply_damage(&mut self, amount: i32)
        requires
            old(self).health - (if amount < 0 { 0 } else { amount as int }) >= i32::MIN,
        ensures
            final(self).health == damaged(*old(self), amount as int),
            final(self).id == old(self).id,
            final(self).max_health == old(self).max_health,
            final(self).inventory == old(self).inventory,
    {
        let taken = if amount < 0 { 0 } else { amount };
        self.health = clamp_health(self.health - taken, self.max_health);
    }

    pub fn heal(&mut self, amount: i32)
        requires
            old(self).health + (if amount < 0 { 0 } else { amount as int }) <= i32::MAX,
        ensures
            final(self).health == healed(*old(self), amount as int),
            final(self).id == old(self).id,
            final(self).max_health == old(self).max_health,
            final(self).inventory == old(self).inventory,
    {
        let gained = if amount < 0 { 0 } else { amount };
        self.health = clamp_health(self.health + gained, self.max_health);
    }

    /// Uses a medkit from the hotbar: "USED MEDKIT HP <health>" after healing by the medkit
    /// amount, or "NO MEDKITS" with nothing changed.
    pub fn use_heal_item(&mut self) -> (message: String)
        requires
            consume_result(old(self).inventory, 2, ItemId::Medkit).1 ==> old(self).health + MEDKIT_HEAL <= i32::MAX,
        ensures
            final(self).id == old(self).id,
            final(self).max_health == old(self).max_health,
            final(self).inventory.selected_weapon_slot == old(self).inventory.selected_weapon_slot,
            ({
                let (slots, used) = consume_result(old(self).inventory, 2, ItemId::Medkit);
                &&& final(self).inventory.slots@ == slots
                &&& used ==> final(self).health == healed(*old(self), MEDKIT_HEAL as int)
                    && message@ == "USED MEDKIT HP "@ + decimal(final(self).health as nat)
                &&& !used ==> final(self).health == old(self).health && message@ == "NO MEDKITS"@
            }),
    {
        if self.inventory.consume_heal() {
            self.heal(MEDKIT_HEAL);
            let mut message = String::new();
            push_str(&mut message, "USED MEDKIT HP ");
            push_decimal(&mut message, self.health as u64);
            message
        } else {
            "NO MEDKITS".to_owned()
        }
    }
}

/// Position of the local player among `players`.
pub fn local_player_index(players: &Vec<PlayerRuntimeState>) -> (i: Option<usize>)
    ensures
        match i {
            Some(k) => local_position(players@) == Some(k as int) && k < players@.len()
                && players@[k as int].id == LOCAL_PLAYER_ID,
            None => local_position(players@) is None,
        },
{
    let mut k: usize = 0;
    while k < players.len()
        invariant
            k <= players.len(),
            forall|j: int| 0 <= j < k ==> players@[j].id != LOCAL_PLAYER_ID,
        decreases players.len() - k,
    {
        if players[k].id == LOCAL_PLAYER_ID {
            proof {
                lemma_local_position(players@, k as int);
            }
            return Some(k);
        }
        k = k + 1;
    }
    None
}

pub proof fn lemma_local_position(players: Seq<PlayerRuntimeState>, k: int)
    requires
        0 <= k < players.len(),
        players[k].id == LOCAL_PLAYER_ID,
        forall|j: int| 0 <= j < k ==> players[j].id != LOCAL_PLAYER_ID,
    ensures
        local_position(players) == Some(k),
{
    let c = choose|i: int|
        0 <= i < players.len() && players[i].id == LOCAL_PLAYER_ID && forall|j: int|
            0 <= j < i ==> players[j].id != LOCAL_PLAYER_ID;
    assert(0 <= c < players.len() && players[c].id == LOCAL_PLAYER_ID && forall|j: int|
        0 <= j < c ==> players[j].id != LOCAL_PLAYER_ID);
    if c < k {
        assert(players[c].id != LOCAL_PLAYER_ID);
    } else if c > k {
        assert(players[k].id != LOCAL_PLAYER_ID);
    }
}

/// When some player carries the local identifier, a first one does.
pub proof fn lemma_first_local(players: Seq<PlayerRuntimeState>, w: int)
    requires
        0 <= w < players.len(),
        players[w].id == LOCAL_PLAYER_ID,
    ensures
        exists|i: int| 0 <= i < players.len() && players[i].id == LOCAL_PLAYER_ID && forall|j: int| 0 <= j < i ==> players[j].id != LOCAL_PLAYER_ID,
    decreases w,
{
    if exists|j: int| 0 <= j < w && players[j].id == LOCAL_PLAYER_ID {
        let j = choose|j: int| 0 <= j < w && players[j].id == LOCAL_PLAYER_ID;
        lemma_first_local(players, j);
    } else {
        assert(forall|j: int| 0 <= j < w ==> players[j].id != LOCAL_PLAYER_ID);
    }
}

} // verus!
