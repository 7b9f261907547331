//! Chests placed in the world and what opening one hands to the player.
use vstd::prelude::*;

use crate::chars::{decimal, push_decimal, push_str};
use crate::gameplay::inventory::{grant_on, item_label, stack_count, HotbarSlot, ItemStack};
use crate::gameplay::loot::{generate_loot_for_tier, loot_for, mix64, splitmix64, tier_label, ChestTier};
use crate::gameplay::player::{local_player_index, local_position, PlayerRuntimeState};
use crate::geometry::IVec3;

verus! {

#[derive(Clone, Debug)]
pub struct ChestState {
    pub id: u64,
    pub structure_id: Option<u64>,
    pub tier: ChestTier,
    pub position: [i32; 3],
    pub contents: Vec<ItemStack>,
    pub opened: bool,
    pub respawn_after_days: Option<u32>,
}

/// A chest placed by hand: not part of a structure, filled with the loot of its tier seeded by
/// its identifier, closed, never restocked.
pub fn debug_chest(id: u64, position: IVec3, tier: ChestTier) -> (c: ChestState)
    ensures
        c.id == id,
        c.structure_id is None,
        c.tier == tier,
        c.position@ == seq![position.x, position.y, position.z],
        c.contents@ == loot_for(tier, mix64(id)),
        !c.opened,
        c.respawn_after_days is None,
{
    let c = ChestState {
        id,
        structure_id: None,
        tier,
        position: [position.x, position.y, position.z],
        contents: generate_loot_for_tier(tier, splitmix64(id)),
        opened: false,
        respawn_after_days: None,
    };
    assert(c.position@ =~= seq![position.x, position.y, position.z]);
    c
}

/// How `stack` is shown when `gained` of it were taken.
pub open spec fn taken_line(stack: ItemStack, gained: nat) -> Seq<char> {
    item_label(stack.item_id) + " X"@ + decimal(gained)
}

/// Looting `contents` into the hotbar `slots`, one stack after another: (slots after, a line
/// for each stack of which something was taken, the stacks left behind). What a stack leaves is
/// kept as a stack of at most the item's stack size.
pub open spec fn loot_into(slots: Seq<HotbarSlot>, contents: Seq<ItemStack>) -> (
    Seq<HotbarSlot>,
    Seq<Seq<char>>,
    Seq<ItemStack>,
)
    decreases contents.len(),
{
    if contents.len() == 0 {
        (slots, Seq::empty(), Seq::empty())
    } else {
        let prior = loot_into(slots, contents.drop_last());
        let st = contents.last();
        let granted = grant_on(prior.0, st.item_id, st.count);
        let remaining = granted.1;
        let gained: nat = if st.count >= remaining { (st.count - remaining) as nat } else { 0 };
        let looted = if gained > 0 {
            prior.1.push(taken_line(st, gained))
        } else {
            prior.1
        };
        let left = if remaining > 0 {
            prior.2.push(ItemStack { item_id: st.item_id, count: stack_count(st.item_id, remaining) })
        } else {
            prior.2
        };
        (granted.0, looted, left)
    }
}

/// `parts` separated by ", ".
pub open spec fn join_comma(parts: Seq<Seq<char>>) -> Seq<char>
    decreases parts.len(),
{
    if parts.len() == 0 {
        Seq::empty()
    } else if parts.len() == 1 {
        parts[0]
    } else {
        join_comma(parts.drop_last()) + ", "@ + parts.last()
    }
}

/// The report on looting a chest of `tier`.
pub open spec fn chest_report(tier: ChestTier, looted: Seq<Seq<char>>, left: Seq<ItemStack>) -> Seq<char> {
    if looted.len() == 0 {
        tier_label(tier) + " CHEST HAD NO SPACEABLE LOOT"@
    } else if left.len() > 0 {
        "LOOTED "@ + tier_label(tier) + " CHEST: "@ + join_comma(looted) + " (SOME ITEMS LEFT)"@
    } else {
        "LOOTED "@ + tier_label(tier) + " CHEST: "@ + join_comma(looted)
    }
}

/// Moves `stack` into the hotbar: the line for what was taken, if anything, and what is left.
fn loot_stack(slots: &mut [HotbarSlot; 4], stack: ItemStack) -> (r: (Option<String>, Option<ItemStack>))
    ensures
        ({
            let granted = grant_on(old(slots)@, stack.item_id, stack.count);
            let gained: nat = if stack.count >= granted.1 { (stack.count - granted.1) as nat } else { 0 };
            &&& final(slots)@ == granted.0
            &&& gained > 0 ==> (r.0 matches Some(l) && l@ == taken_line(stack, gained))
            &&& gained == 0 ==> r.0 is None
            &&& granted.1 > 0 ==> r.1 == Some(ItemStack { item_id: stack.item_id, count: stack_count(stack.item_id, granted.1) })
            &&& granted.1 == 0 ==> r.1 is None
        }),
{
    let mut inv = crate::gameplay::inventory::InventoryState { slots: *slots, selected_weapon_slot: 0 };
    let remaining = inv.grant_item(stack.item_id, stack.count);
    *slots = inv.slots;
    let gained: u32 = if stack.count >= remaining { stack.count - remaining } else { 0 };
    let line = if gained > 0 {
        let mut l = String::new();
        push_str(&mut l, stack.item_id.label());
        push_str(&mut l, " X");
        push_decimal(&mut l, gained as u64);
        Some(l)
    } else {
        None
    };
    let left = if remaining > 0 {
        Some(ItemStack::new(stack.item_id, remaining))
    } else {
        None
    };
    (line, left)
}

/// `parts` separated by ", ".
fn join_with_commas(parts: &Vec<String>) -> (s: String)
    ensures
        s@ == join_comma(parts@.map_values(|p: String| p@)),
{
    let ghost pv = parts@.map_values(|p: String| p@);
    let mut s = String::new();
    let mut i: usize = 0;
    while i < parts.len()
        invariant
            i <= parts@.len(),
            pv == parts@.map_values(|p: String| p@),
            s@ == join_comma(pv.take(i as int)),
        decreases parts@.len() - i,
    {
        let ghost before = pv.take(i as int);
        if i > 0 {
            push_str(&mut s, ", ");
        }
        push_str(&mut s, parts[i].as_str());
        proof {
            let after = pv.take(i + 1);
            assert(after.drop_last() == before);
            assert(after.last() == parts@[i as int]@);
            if i == 0 {
                assert(after.len() == 1);
                assert(s@ == after[0]);
            }
        }
        i = i + 1;
    }
    assert(pv.take(parts@.len() as int) == pv);
    s
}

/// Opens `chest` for the local player among `players`. An opened chest only reports that it is
/// empty. Without a local player nothing happens and there is no report. Otherwise the chest's
/// stacks go into the player's hotbar in turn; the chest keeps what did not fit and counts as
/// opened once it holds nothing.
pub fn open_chest(chest: &mut ChestState, players: &mut Vec<PlayerRuntimeState>) -> (report: Option<String>)
    ensures
        old(chest).opened ==> (*final(chest) == *old(chest) && final(players)@ == old(players)@ && (report
            matches Some(r) && r@ == tier_label(old(chest).tier) + " CHEST IS EMPTY"@)),
        !old(chest).opened && local_position(old(players)@) is None ==> *final(chest) == *old(chest)
            && final(players)@ == old(players)@ && report is None,
        !old(chest).opened && local_position(old(players)@) is Some ==> {
            let p = local_position(old(players)@)->0;
            let before = old(players)@[p];
            let looted = loot_into(before.inventory.slots@, old(chest).contents@);
            &&& final(players)@.len() == old(players)@.len()
            &&& forall|i: int| 0 <= i < old(players)@.len() && i != p ==> final(players)@[i] == old(players)@[i]
            &&& final(players)@[p].id == before.id
            &&& final(players)@[p].health == before.health
            &&& final(players)@[p].max_health == before.max_health
            &&& final(players)@[p].inventory.selected_weapon_slot == before.inventory.selected_weapon_slot
            &&& final(players)@[p].inventory.slots@ == looted.0
            &&& final(chest).contents@ == looted.2
            &&& final(chest).opened == (looted.2.len() == 0)
            &&& final(chest).id == old(chest).id && final(chest).tier == old(chest).tier
            &&& final(chest).structure_id == old(chest).structure_id
            &&& final(chest).position == old(chest).position
            &&& final(chest).respawn_after_days == old(chest).respawn_after_days
            &&& (report matches Some(r) && r@ == chest_report(old(chest).tier, looted.1, looted.2))
        },
{
    if chest.opened {
        let mut r = String::new();
        push_str(&mut r, chest.tier.label());
        push_str(&mut r, " CHEST IS EMPTY");
        return Some(r);
    }
    let k = match local_player_index(players) {
        Some(k) => k,
        None => return None,
    };
    let mut player = players[k];
    let ghost start_slots = player.inventory.slots@;
    let mut slots = player.inventory.slots;
    let mut looted: Vec<String> = Vec::new();
    let mut left: Vec<ItemStack> = Vec::new();
    let mut i: usize = 0;
    while i < chest.contents.len()
        invariant
            i <= chest.contents@.len(),
            ({
                let r = loot_into(start_slots, chest.contents@.take(i as int));
                &&& slots@ == r.0
                &&& looted@.map_values(|l: String| l@) == r.1
                &&& left@ == r.2
            }),
        decreases chest.contents@.len() - i,
    {
        let stack = chest.contents[i];
        let ghost prefix = chest.contents@.take(i + 1);
        proof {
            assert(prefix.drop_last() == chest.contents@.take(i as int));
            assert(prefix.last() == stack);
        }
        let (line, rest) = loot_stack(&mut slots, stack);
        let ghost looted_before = looted@;
        match line {
            Some(l) => {
                looted.push(l);
            },
            None => {},
        }
        match rest {
            Some(r) => {
                left.push(r);
            },
            None => {},
        }
        proof {
            assert(looted@.map_values(|l: String| l@) =~= loot_into(start_slots, prefix).1);
        }
        i = i + 1;
    }
    proof {
        assert(chest.contents@.take(chest.contents@.len() as int) == chest.contents@);
    }
    player.inventory.slots = slots;
    players.set(k, player);
    let left_any = left.len() > 0;
    let looted_any = looted.len() > 0;
    let joined = join_with_commas(&looted);
    let mut report = String::new();
    if !looted_any {
        push_str(&mut report, chest.tier.label());
        push_str(&mut report, " CHEST HAD NO SPACEABLE LOOT");
    } else {
        push_str(&mut report, "LOOTED ");
        push_str(&mut report, chest.tier.label());
        push_str(&mut report, " CHEST: ");
        push_str(&mut report, joined.as_str());
        if left_any {
            push_str(&mut report, " (SOME ITEMS LEFT)");
        }
    }
    chest.contents = left;
    chest.opened = !left_any;
    Some(report)
}

} // verus!
