//! Damage against a hit-point pool.
use vstd::prelude::*;

verus! {

#[derive(Clone, Copy, Debug)]
pub struct DamageEvent {
    pub amount: i32,
}

#[derive(Clone, Copy, Debug, PartialEq, Eq, Structural)]
pub enum DamageResolution {
    Survived { remaining_hp: i32 },
    Eliminated,
}

/// Hit points left after `amount` damage; negative damage counts as none.
pub open spec fn hp_after(current_hp: int, amount: int) -> int {
    current_hp - (if amount < 0 { 0 } else { amount })
}

/// Applies `event` to `current_hp`: eliminated at zero or below, otherwise the hit points left.
pub fn resolve_damage(current_hp: i32, event: DamageEvent) -> (r: DamageResolution)
    requires
        hp_after(current_hp as int, event.amount as int) >= i32::MIN,
    ensures
        r == (if hp_after(current_hp as int, event.amount as int) <= 0 {
            DamageResolution::Eliminated
        } else {
            DamageResolution::Survived { remaining_hp: hp_after(current_hp as int, event.amount as int) as i32 }
        }),
{
    let amount = if event.amount < 0 { 0 } else { event.amount };
    let remaining_hp = current_hp - amount;
    if remaining_hp <= 0 {
        DamageResolution::Eliminated
    } else {
        DamageResolution::Survived { remaining_hp }
    }
}

} // verus!
