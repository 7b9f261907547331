//! The index of saved worlds: which worlds exist and which one is selected.
use vstd::prelude::*;

use crate::chars::{decimal, push_decimal, push_str};

verus! {

#[derive(Clone, Debug)]
pub struct WorldSummary {
    pub id: String,
    pub name: String,
    pub seed: u32,
    pub created_unix_secs: u64,
    pub last_played_unix_secs: u64,
}

#[derive(Clone, Debug)]
pub struct SaveIndex {
    pub selected_world_id: Option<String>,
    pub worlds: Vec<WorldSummary>,
}

/// Position of the first world whose identifier is `id`.
pub open spec fn first_with_id(worlds: Seq<WorldSummary>, id: Seq<char>, from: int) -> Option<int>
    decreases worlds.len() - from,
{
    if from < 0 || from >= worlds.len() {
        None
    } else if worlds[from].id@ == id {
        Some(from)
    } else {
        first_with_id(worlds, id, from + 1)
    }
}

/// Position of the selected world, if a world is selected and listed.
pub open spec fn selected_position(index: SaveIndex) -> Option<int> {
    match index.selected_world_id {
        Some(id) => first_with_id(index.worlds@, id@, 0),
        None => None,
    }
}

/// The position after `p` among `n` worlds, wrapping to the first.
pub open spec fn next_position(p: int, n: int) -> int {
    (p + 1) % n
}

/// The position before `p` among `n` worlds, wrapping to the last.
pub open spec fn previous_position(p: int, n: int) -> int {
    if p == 0 { n - 1 } else { p - 1 }
}

/// No two listed worlds share an identifier.
pub open spec fn distinct_ids(worlds: Seq<WorldSummary>) -> bool {
    forall|a: int, b: int| 0 <= a < b < worlds.len() ==> worlds[a].id@ != worlds[b].id@
}

proof fn lemma_first_with_id(worlds: Seq<WorldSummary>, id: Seq<char>, from: int, p: int)
    requires
        0 <= from <= p < worlds.len(),
        worlds[p].id@ == id,
        distinct_ids(worlds),
    ensures
        first_with_id(worlds, id, from) == Some(p),
    decreases p - from,
{
    if from < p {
        assert(worlds[from].id@ != worlds[p].id@);
        lemma_first_with_id(worlds, id, from + 1, p);
    }
}

proof fn lemma_first_with_id_found(worlds: Seq<WorldSummary>, id: Seq<char>, from: int)
    ensures
        match first_with_id(worlds, id, from) {
            Some(p) => 0 <= from <= p < worlds.len() && worlds[p].id@ == id,
            None => true,
        },
    decreases worlds.len() - from,
{
    if 0 <= from < worlds.len() && worlds[from].id@ != id {
        lemma_first_with_id_found(worlds, id, from + 1);
    }
}

proof fn lemma_first_with_id_here(worlds: Seq<WorldSummary>, id: Seq<char>, i: int)
    requires
        0 <= i < worlds.len(),
        worlds[i].id@ == id,
    ensures
        first_with_id(worlds, id, i) == Some(i),
{
}

/// `x` rotated left by 13 bits.
pub open spec fn rotl13(x: u32) -> u32 {
    (x << 13u32) | (x >> 19u32)
}

/// The seed of a new world, mixed from the creation time and the world's number.
pub open spec fn time_seed(now: u64, salt: u64) -> u32 {
    let mixed = now ^ (salt << 21u64) ^ 0xC0FF_EE42u64;
    rotl13(mixed as u32) ^ ((mixed >> 17u64) as u32)
}

pub fn seed_from_time(now: u64, salt: u64) -> (seed: u32)
    ensures
        seed == time_seed(now, salt),
{
    let mixed = now ^ (salt << 21u64) ^ 0xC0FF_EE42u64;
    let low = mixed as u32;
    let rotated = (low << 13u32) | (low >> 19u32);
    rotated ^ ((mixed >> 17u64) as u32)
}

/// The world list of the save directory and the selection.
#[derive(Clone, Debug)]
pub struct WorldSaveManager {
    pub index: SaveIndex,
}

impl WorldSaveManager {
    pub fn new(index: SaveIndex) -> (m: Self)
        ensures
            m.index == index,
    {
        WorldSaveManager { index }
    }

    /// Position of the selected world in the list.
    pub fn selected_world_position(&self) -> (p: Option<usize>)
        ensures
            match p {
                Some(i) => selected_position(self.index) == Some(i as int),
                None => selected_position(self.index) is None,
            },
    {
        let selected = match &self.index.selected_world_id {
            Some(id) => id,
            None => return None,
        };
        let mut i: usize = 0;
        while i < self.index.worlds.len()
            invariant
                i <= self.index.worlds@.len(),
                self.index.selected_world_id == Some(*selected),
                first_with_id(self.index.worlds@, selected@, 0) == first_with_id(self.index.worlds@, selected@, i as int),
            decreases self.index.worlds@.len() - i,
        {
            if self.index.worlds[i].id == *selected {
                return Some(i);
            }
            i = i + 1;
        }
        None
    }

    /// The selected world's summary.
    pub fn selected_world(&self) -> (w: Option<&WorldSummary>)
        ensures
            match selected_position(self.index) {
                Some(p) => w == Some(&self.index.worlds@[p]),
                None => w is None,
            },
    {
        match self.selected_world_position() {
            Some(i) => {
                proof {
                    lemma_first_with_id_found(self.index.worlds@, self.index.selected_world_id->0@, 0);
                }
                Some(&self.index.worlds[i])
            },
            None => None,
        }
    }

    /// The selected world's name, or "WORLD".
    pub fn selected_world_name(&self) -> (name: String)
        ensures
            match selected_position(self.index) {
                Some(p) => name@ == self.index.worlds@[p].name@,
                None => name@ == "WORLD"@,
            },
    {
        match self.selected_world() {
            Some(world) => world.name.clone(),
            None => "WORLD".to_owned(),
        }
    }

    /// Selects the world after the selected one (the second when none is selected), wrapping
    /// around. Returns whether the index changed and has to be written.
    pub fn select_next_world(&mut self) -> (changed: bool)
        ensures
            final(self).index.worlds == old(self).index.worlds,
            changed == (old(self).index.worlds@.len() > 0),
            !changed ==> final(self).index == old(self).index,
            changed ==> {
                let n = old(self).index.worlds@.len() as int;
                let p = match selected_position(old(self).index) { Some(p) => p, None => 0 };
                (final(self).index.selected_world_id matches Some(id) && id@ == old(self).index.worlds@[next_position(p, n)].id@)
            },
            changed && distinct_ids(old(self).index.worlds@) ==> selected_position(final(self).index) == Some(next_position(
                match selected_position(old(self).index) { Some(p) => p, None => 0 },
                old(self).index.worlds@.len() as int,
            )),
    {
        let n = self.index.worlds.len();
        if n == 0 {
            return false;
        }
        let current = match self.selected_world_position() {
            Some(i) => i,
            None => 0,
        };
        proof {
            if self.index.selected_world_id is Some {
                lemma_first_with_id_found(self.index.worlds@, self.index.selected_world_id->0@, 0);
            }
        }
        let next = (current + 1) % n;
        let id = self.index.worlds[next].id.clone();
        self.index.selected_world_id = Some(id);
        proof {
            if distinct_ids(self.index.worlds@) {
                lemma_first_with_id(self.index.worlds@, self.index.worlds@[next as int].id@, 0, next as int);
            }
        }
        true
    }

    /// Selects the world before the selected one (the last when the first or none is
    /// selected), wrapping around. Returns whether the index changed and has to be written.
    pub fn select_previous_world(&mut self) -> (changed: bool)
        ensures
            final(self).index.worlds == old(self).index.worlds,
            changed == (old(self).index.worlds@.len() > 0),
            !changed ==> final(self).index == old(self).index,
            changed ==> {
                let n = old(self).index.worlds@.len() as int;
                let p = match selected_position(old(self).index) { Some(p) => p, None => 0 };
                (final(self).index.selected_world_id matches Some(id) && id@ == old(self).index.worlds@[previous_position(p, n)].id@)
            },
            changed && distinct_ids(old(self).index.worlds@) ==> selected_position(final(self).index) == Some(previous_position(
                match selected_position(old(self).index) { Some(p) => p, None => 0 },
                old(self).index.worlds@.len() as int,
            )),
    {
        let n = self.index.worlds.len();
        if n == 0 {
            return false;
        }
        let current = match self.selected_world_position() {
            Some(i) => i,
            None => 0,
        };
        proof {
            if self.index.selected_world_id is Some {
                lemma_first_with_id_found(self.index.worlds@, self.index.selected_world_id->0@, 0);
            }
        }
        let previous = if current == 0 { n - 1 } else { current - 1 };
        let id = self.index.worlds[previous].id.clone();
        self.index.selected_world_id = Some(id);
        proof {
            if distinct_ids(self.index.worlds@) {
                lemma_first_with_id(self.index.worlds@, self.index.worlds@[previous as int].id@, 0, previous as int);
            }
        }
        true
    }

    /// When worlds are listed but none is selected, selects the first. Returns whether the
    /// index changed and has to be written.
    pub fn ensure_selection(&mut self) -> (changed: bool)
        ensures
            final(self).index.worlds == old(self).index.worlds,
            changed == (old(self).index.worlds@.len() > 0 && old(self).index.selected_world_id is None),
            !changed ==> final(self).index == old(self).index,
            changed ==> (final(self).index.selected_world_id matches Some(id) && id@ == old(self).index.worlds@[0].id@),
    {
        if self.index.worlds.len() > 0 && self.index.selected_world_id.is_none() {
            self.index.selected_world_id = Some(self.index.worlds[0].id.clone());
            return true;
        }
        false
    }

    /// The summary of the next new world, made at time `now`: number one past the listed worlds,
    /// identifier "world-<number>-<now>", name "WORLD <number>", seed mixed from both.
    pub fn plan_new_world(&self, now: u64) -> (w: WorldSummary)
        requires
            self.index.worlds@.len() < u64::MAX,
        ensures
            w.id@ == "world-"@ + decimal((self.index.worlds@.len() + 1) as nat) + "-"@ + decimal(now as nat),
            w.name@ == "WORLD "@ + decimal((self.index.worlds@.len() + 1) as nat),
            w.seed == time_seed(now, (self.index.worlds@.len() + 1) as u64),
            w.created_unix_secs == now,
            w.last_played_unix_secs == now,
    {
        let number = (self.index.worlds.len() as u64) + 1;
        let mut id = String::new();
        push_str(&mut id, "world-");
        push_decimal(&mut id, number);
        push_str(&mut id, "-");
        push_decimal(&mut id, now);
        let mut name = String::new();
        push_str(&mut name, "WORLD ");
        push_decimal(&mut name, number);
        WorldSummary {
            id,
            name,
            seed: seed_from_time(now, number),
            created_unix_secs: now,
            last_played_unix_secs: now,
        }
    }

    /// Lists a new world and selects it.
    pub fn register_world(&mut self, summary: WorldSummary)
        ensures
            final(self).index.worlds@ == old(self).index.worlds@.push(summary),
            final(self).index.selected_world_id matches Some(id) && id@ == summary.id@,
    {
        let id = summary.id.clone();
        self.index.worlds.push(summary);
        self.index.selected_world_id = Some(id);
    }

    /// Records that world `id` was last played at `last_played`.
    pub fn touch_world(&mut self, id: &String, last_played: u64)
        ensures
            final(self).index.selected_world_id == old(self).index.selected_world_id,
            final(self).index.worlds@.len() == old(self).index.worlds@.len(),
            forall|i: int| 0 <= i < old(self).index.worlds@.len() ==> {
                let w = old(self).index.worlds@[i];
                let f = #[trigger] final(self).index.worlds@[i];
                if Some(i) == first_with_id(old(self).index.worlds@, id@, 0) {
                    f.id@ == w.id@ && f.name@ == w.name@ && f.seed == w.seed && f.created_unix_secs == w.created_unix_secs
                        && f.last_played_unix_secs == last_played
                } else {
                    f == w
                }
            },
    {
        let mut i: usize = 0;
        while i < self.index.worlds.len()
            invariant
                i <= self.index.worlds@.len(),
                self.index == old(self).index,
                first_with_id(self.index.worlds@, id@, 0) == first_with_id(self.index.worlds@, id@, i as int),
            decreases self.index.worlds@.len() - i,
        {
            if self.index.worlds[i].id == *id {
                let old_summary = &self.index.worlds[i];
                let w = WorldSummary {
                    id: old_summary.id.clone(),
                    name: old_summary.name.clone(),
                    seed: old_summary.seed,
                    created_unix_secs: old_summary.created_unix_secs,
                    last_played_unix_secs: last_played,
                };
                proof {
                    lemma_first_with_id_here(self.index.worlds@, id@, i as int);
                }
                self.index.worlds.set(i, w);
                return;
            }
            i = i + 1;
        }
    }
}

/// Stepping to the next world and back returns to the same world.
pub proof fn law_next_then_previous(p: int, n: int)
    requires
        0 <= p < n,
    ensures
        previous_position(next_position(p, n), n) == p,
        next_position(previous_position(p, n), n) == p,
{
    if p + 1 < n {
        assert((p + 1) % n == p + 1) by (nonlinear_arith)
            requires
                0 <= p + 1 < n,
        ;
    } else {
        assert((p + 1) % n == 0) by (nonlinear_arith)
            requires
                p + 1 == n,
                0 < n,
        ;
    }
    if p == 0 {
        assert((n - 1 + 1) % n == 0) by (nonlinear_arith)
            requires
                0 < n,
        ;
    } else {
        assert((p - 1 + 1) % n == p) by (nonlinear_arith)
            requires
                0 < p < n,
        ;
    }
}

} // verus!
