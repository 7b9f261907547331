//! The player's hotbar: weapons, medkits and grenades.
use vstd::prelude::*;

use crate::chars::{all_space, chars_equal, is_space, lower, lower_chars, lower_seq, str_chars, trim, trim_chars};

verus! {

#[derive(Clone, Copy, Debug, PartialEq, Eq, Hash, Structural)]
pub enum ItemId {
    Sidearm,
    Launcher,
    Medkit,
    Grenade,
}

/// The item a command token names: its trimmed, lower-cased text is one of the item's names.
pub open spec fn item_for_token(token: Seq<char>) -> Option<ItemId> {
    let t = lower_seq(trim(token));
    if t == "sidearm"@ || t == "pistol"@ {
        Some(ItemId::Sidearm)
    } else if t == "launcher"@ || t == "rocket"@ {
        Some(ItemId::Launcher)
    } else if t == "medkit"@ || t == "heal"@ || t == "health"@ {
        Some(ItemId::Medkit)
    } else if t == "grenade"@ || t == "frag"@ {
        Some(ItemId::Grenade)
    } else {
        None
    }
}

/// The name an item is shown under.
pub open spec fn item_label(item: ItemId) -> Seq<char> {
    match item {
        ItemId::Sidearm => "SIDEARM"@,
        ItemId::Launcher => "LAUNCHER"@,
        ItemId::Medkit => "MEDKIT"@,
        ItemId::Grenade => "GRENADE"@,
    }
}

pub open spec fn max_stack_of(item: ItemId) -> u32 {
    match item {
        ItemId::Sidearm | ItemId::Launcher => 1,
        ItemId::Medkit => 6,
        ItemId::Grenade => 8,
    }
}

pub open spec fn slot_of(item: ItemId) -> usize {
    match item {
        ItemId::Sidearm => 0,
        ItemId::Launcher => 1,
        ItemId::Medkit => 2,
        ItemId::Grenade => 3,
    }
}

impl ItemId {
    pub fn from_token(token: &str) -> (item: Option<Self>)
        ensures
            item == item_for_token(token@),
    {
        let chars = str_chars(token);
        let t = lower_chars(&trim_chars(&chars));
        if chars_equal(&t, "sidearm") || chars_equal(&t, "pistol") {
            Some(ItemId::Sidearm)
        } else if chars_equal(&t, "launcher") || chars_equal(&t, "rocket") {
            Some(ItemId::Launcher)
        } else if chars_equal(&t, "medkit") || chars_equal(&t, "heal") || chars_equal(&t, "health") {
            Some(ItemId::Medkit)
        } else if chars_equal(&t, "grenade") || chars_equal(&t, "frag") {
            Some(ItemId::Grenade)
        } else {
            None
        }
    }

    pub fn label(self) -> (s: &'static str)
        ensures
            s@ == item_label(self),
    {
        match self {
            ItemId::Sidearm => "SIDEARM",
            ItemId::Launcher => "LAUNCHER",
            ItemId::Medkit => "MEDKIT",
            ItemId::Grenade => "GRENADE",
        }
    }

    pub fn max_stack(self) -> (n: u32)
        ensures
            n == max_stack_of(self),
    {
        match self {
            ItemId::Sidearm | ItemId::Launcher => 1,
            ItemId::Medkit => 6,
            ItemId::Grenade => 8,
        }
    }

    pub fn preferred_slot(self) -> (i: usize)
        ensures
            i == slot_of(self),
    {
        match self {
            ItemId::Sidearm => 0,
            ItemId::Launcher => 1,
            ItemId::Medkit => 2,
            ItemId::Grenade => 3,
        }
    }
}

#[derive(Clone, Copy, Debug, PartialEq, Eq, Structural)]
pub enum HotbarSlotKind {
    WeaponPrimary,
    WeaponSecondary,
    Heal,
    Throwable,
}

#[derive(Clone, Copy, Debug, PartialEq, Eq, Structural)]
pub struct ItemStack {
    pub item_id: ItemId,
    pub count: u32,
}

/// `count` raised to at least one and capped at the item's stack size.
pub open spec fn stack_count(item: ItemId, count: u32) -> u32 {
    let c = if count < 1 { 1 } else { count };
    if c > max_stack_of(item) { max_stack_of(item) } else { c }
}

impl ItemStack {
    pub fn new(item_id: ItemId, count: u32) -> (s: Self)
        ensures
            s.item_id == item_id,
            s.count == stack_count(item_id, count),
    {
        let c = if count < 1 { 1 } else { count };
        let max = item_id.max_stack();
        ItemStack { item_id, count: if c > max { max } else { c } }
    }
}

#[derive(Clone, Copy, Debug, PartialEq, Eq, Structural)]
pub struct HotbarSlot {
    pub kind: HotbarSlotKind,
    pub stack: Option<ItemStack>,
}

impl HotbarSlot {
    pub fn with_stack(kind: HotbarSlotKind, stack: Option<ItemStack>) -> (s: Self)
        ensures
            s.kind == kind,
            s.stack == stack,
    {
        HotbarSlot { kind, stack }
    }
}

/// The four hotbar slots and which of the two weapon slots is selected.
#[derive(Clone, Copy, Debug)]
pub struct InventoryState {
    pub slots: [HotbarSlot; 4],
    pub selected_weapon_slot: usize,
}

/// The starting hotbar: a sidearm, a launcher, two medkits and three grenades.
pub open spec fn default_loadout() -> InventoryState {
    InventoryState {
        slots: [
            HotbarSlot { kind: HotbarSlotKind::WeaponPrimary, stack: Some(ItemStack { item_id: ItemId::Sidearm, count: 1 }) },
            HotbarSlot { kind: HotbarSlotKind::WeaponSecondary, stack: Some(ItemStack { item_id: ItemId::Launcher, count: 1 }) },
            HotbarSlot { kind: HotbarSlotKind::Heal, stack: Some(ItemStack { item_id: ItemId::Medkit, count: 2 }) },
            HotbarSlot { kind: HotbarSlotKind::Throwable, stack: Some(ItemStack { item_id: ItemId::Grenade, count: 3 }) },
        ],
        selected_weapon_slot: 0,
    }
}

/// How many of `item` the hotbar slots hold in the item's slot.
pub open spec fn held_count(slots: Seq<HotbarSlot>, item: ItemId) -> int {
    let slot = slots[slot_of(item) as int];
    match slot.stack {
        Some(s) => if s.item_id == item { s.count as int } else { 0 },
        None => 0,
    }
}

/// Granting `count` of `item`: (slots after, number that did not fit). Only the item's
/// preferred slot takes it: topped up to the stack size when it holds that item, filled when
/// empty, left alone when it holds another item. A count of zero grants one.
pub open spec fn grant_result(inv: InventoryState, item: ItemId, count: u32) -> (Seq<HotbarSlot>, u32) {
    grant_on(inv.slots@, item, count)
}

/// `grant_result` on the hotbar slots themselves.
pub open spec fn grant_on(slots: Seq<HotbarSlot>, item: ItemId, count: u32) -> (Seq<HotbarSlot>, u32) {
    let want: u32 = if count < 1 { 1 } else { count };
    let i = slot_of(item) as int;
    let slot = slots[i];
    let max = max_stack_of(item);
    match slot.stack {
        Some(st) => if st.item_id == item {
            let free: u32 = if st.count >= max { 0 } else { (max - st.count) as u32 };
            let added: u32 = if free < want { free } else { want };
            (slots.update(i, HotbarSlot { kind: slot.kind, stack: Some(ItemStack { item_id: item, count: (st.count + added) as u32 }) }), (want - added) as u32)
        } else {
            (slots, want)
        },
        None => {
            let added: u32 = if max < want { max } else { want };
            (slots.update(i, HotbarSlot { kind: slot.kind, stack: Some(ItemStack { item_id: item, count: added }) }), (want - added) as u32)
        },
    }
}

/// Taking one item out of slot `index` when it holds `expected`: (slots after, whether it
/// happened). A stack that reaches zero leaves the slot empty.
pub open spec fn consume_result(inv: InventoryState, index: int, expected: ItemId) -> (Seq<HotbarSlot>, bool) {
    if !(0 <= index < 4) {
        (inv.slots@, false)
    } else {
        let slot = inv.slots[index];
        match slot.stack {
            None => (inv.slots@, false),
            Some(st) => if st.item_id != expected || st.count == 0 {
                (inv.slots@, false)
            } else {
                let left = (st.count - 1) as u32;
                let stack = if left > 0 { Some(ItemStack { item_id: st.item_id, count: left }) } else { None };
                (inv.slots@.update(index, HotbarSlot { kind: slot.kind, stack }), true)
            },
        }
    }
}

impl InventoryState {
    pub fn new_default_loadout() -> (inv: Self)
        ensures
            inv == default_loadout(),
    {
        InventoryState {
            slots: [
                HotbarSlot::with_stack(HotbarSlotKind::WeaponPrimary, Some(ItemStack::new(ItemId::Sidearm, 1))),
                HotbarSlot::with_stack(HotbarSlotKind::WeaponSecondary, Some(ItemStack::new(ItemId::Launcher, 1))),
                HotbarSlot::with_stack(HotbarSlotKind::Heal, Some(ItemStack::new(ItemId::Medkit, 2))),
                HotbarSlot::with_stack(HotbarSlotKind::Throwable, Some(ItemStack::new(ItemId::Grenade, 3))),
            ],
            selected_weapon_slot: 0,
        }
    }

    /// Selects weapon slot `slot`; anything past the second weapon slot selects the second.
    pub fn select_weapon_slot(&mut self, slot: usize)
        ensures
            final(self).slots == old(self).slots,
            final(self).selected_weapon_slot == if slot < 1 { slot } else { 1 },
    {
        self.selected_weapon_slot = if slot < 1 { slot } else { 1 };
    }

    /// The item in the selected slot, if the slot exists and holds one.
    pub fn selected_weapon(&self) -> (item: Option<ItemId>)
        ensures
            item == (if self.selected_weapon_slot < 4 {
                match self.slots[self.selected_weapon_slot as int].stack {
                    Some(s) => Some(s.item_id),
                    None => None,
                }
            } else {
                None
            }),
    {
        if self.selected_weapon_slot < 4 {
            match self.slots[self.selected_weapon_slot].stack {
                Some(s) => Some(s.item_id),
                None => None,
            }
        } else {
            None
        }
    }

    /// Puts up to `count` of `item` (at least one) into the item's slot; returns how many did
    /// not fit.
    pub fn grant_item(&mut self, item_id: ItemId, count: u32) -> (remaining: u32)
        ensures
            (final(self).slots@, remaining) == grant_result(*old(self), item_id, count),
            final(self).selected_weapon_slot == old(self).selected_weapon_slot,
    {
        let mut remaining: u32 = if count < 1 { 1 } else { count };
        let preferred = item_id.preferred_slot();
        let slot = self.slots[preferred];
        match slot.stack {
            Some(stack) => {
                if stack.item_id == item_id {
                    let max = item_id.max_stack();
                    let free = max.saturating_sub(stack.count);
                    let added = if free < remaining { free } else { remaining };
                    let new_stack = ItemStack { item_id, count: stack.count + added };
                    self.slots[preferred] = HotbarSlot { kind: slot.kind, stack: Some(new_stack) };
                    remaining = remaining - added;
                }
            },
            None => {
                let max = item_id.max_stack();
                let added = if max < remaining { max } else { remaining };
                self.slots[preferred] = HotbarSlot { kind: slot.kind, stack: Some(ItemStack::new(item_id, added)) };
                remaining = remaining - added;
            },
        }
        remaining
    }

    /// Uses one medkit from the heal slot.
    pub fn consume_heal(&mut self) -> (used: bool)
        ensures
            (final(self).slots@, used) == consume_result(*old(self), 2, ItemId::Medkit),
            final(self).selected_weapon_slot == old(self).selected_weapon_slot,
    {
        self.consume_from_slot(2, ItemId::Medkit)
    }

    /// Uses one grenade from the throwable slot.
    pub fn consume_throwable(&mut self) -> (used: bool)
        ensures
            (final(self).slots@, used) == consume_result(*old(self), 3, ItemId::Grenade),
            final(self).selected_weapon_slot == old(self).selected_weapon_slot,
    {
        self.consume_from_slot(3, ItemId::Grenade)
    }

    /// Takes one item out of slot `index` when that slot holds `expected_item`.
    pub fn consume_from_slot(&mut self, index: usize, expected_item: ItemId) -> (used: bool)
        ensures
            (final(self).slots@, used) == consume_result(*old(self), index as int, expected_item),
            final(self).selected_weapon_slot == old(self).selected_weapon_slot,
    {
        if index >= 4 {
            return false;
        }
        let slot = self.slots[index];
        match slot.stack {
            None => false,
            Some(stack) => {
                if stack.item_id != expected_item || stack.count == 0 {
                    return false;
                }
                let left = stack.count - 1;
                let new_stack = if left > 0 { Some(ItemStack { item_id: stack.item_id, count: left }) } else { None };
                self.slots[index] = HotbarSlot { kind: slot.kind, stack: new_stack };
                true
            },
        }
    }
}

impl Default for InventoryState {
    fn default() -> (inv: Self)
        ensures
            inv == default_loadout(),
    {
        InventoryState::new_default_loadout()
    }
}

/// `health` clamped to `0 ..= max(max_health, 1)`.
pub fn clamp_health(health: i32, max_health: i32) -> (h: i32)
    ensures
        h == (if health < 0 { 0 } else if health > (if max_health < 1 { 1 } else { max_health }) { if max_health < 1 { 1 } else { max_health } } else { health }),
{
    let max = if max_health < 1 { 1 } else { max_health };
    if health < 0 {
        0
    } else if health > max {
        max
    } else {
        health
    }
}

/// Granting never loses or invents items: what was added to the hotbar plus what is handed
/// back equals the amount asked for (at least one).
pub proof fn law_grant_conserves_items(inv: InventoryState, item: ItemId, count: u32)
    ensures
        ({
            let (slots, remaining) = grant_result(inv, item, count);
            held_count(slots, item) - held_count(inv.slots@, item)
                + remaining == (if count < 1 { 1 } else { count }) || (inv.slots[slot_of(item) as int].stack matches Some(s)
                && s.item_id != item)
        }),
{
}

/// A granted stack never grows past the item's stack size, unless it was already past it.
pub proof fn law_grant_respects_stack_size(inv: InventoryState, item: ItemId, count: u32)
    requires
        held_count(inv.slots@, item) <= max_stack_of(item),
    ensures
        ({
            let (slots, remaining) = grant_result(inv, item, count);
            held_count(slots, item) <= max_stack_of(item)
        }),
{
}

/// An item's label names the item again as a command token, in any letter case and with any
/// white space around it.
pub proof fn law_label_names_item(id: ItemId, token: Seq<char>, front: Seq<char>, back: Seq<char>)
    requires
        lower_seq(token) == lower_seq(item_label(id)),
        all_space(front),
        all_space(back),
    ensures
        item_for_token(item_label(id)) == Some(id),
        item_for_token(front + token + back) == Some(id),
{
    reveal_strlit("SIDEARM");
    reveal_strlit("LAUNCHER");
    reveal_strlit("MEDKIT");
    reveal_strlit("GRENADE");
    reveal_strlit("sidearm");
    reveal_strlit("launcher");
    reveal_strlit("medkit");
    reveal_strlit("grenade");
    reveal_strlit("pistol");
    reveal_strlit("rocket");
    reveal_strlit("heal");
    reveal_strlit("health");
    reveal_strlit("frag");
    let l = item_label(id);
    let n = lower_seq(l);
    assert(n == match id {
        ItemId::Sidearm => "sidearm"@,
        ItemId::Launcher => "launcher"@,
        ItemId::Medkit => "medkit"@,
        ItemId::Grenade => "grenade"@,
    }) by {
        assert(n =~= match id {
            ItemId::Sidearm => "sidearm"@,
            ItemId::Launcher => "launcher"@,
            ItemId::Medkit => "medkit"@,
            ItemId::Grenade => "grenade"@,
        });
    }
    assert(lower_seq(token).len() == token.len());
    assert(n.len() == l.len());
    assert(token.len() == l.len());
    assert(lower(token[0]) == n[0]);
    assert(lower(token.last()) == n[n.len() - 1]);
    assert(!is_space(token[0]));
    assert(!is_space(token.last()));
    assert(!is_space(l[0]));
    assert(!is_space(l.last()));
    crate::chars::lemma_trim_padded(front, token, back);
    let e = Seq::<char>::empty();
    assert(e + l + e =~= l);
    crate::chars::lemma_trim_padded(e, l, e);
    assert(trim(l) == l);
    assert(lower_seq(trim(l)) == n);
    assert(lower_seq(trim(front + token + back)) == n);
    assert(item_for_token(l) == Some(id)) by {
        if n == "medkit"@ {
            assert(n[0] != "pistol"@[0]);
        }
    }
}

} // verus!
