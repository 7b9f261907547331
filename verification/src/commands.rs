//! Chat commands: what a line typed into the chat asks for, and the lines it is answered with.
use vstd::prelude::*;

use crate::chars::{
    char_is_space, chars_equal, decimal, is_space, lower_chars, lower_seq, push_chars,
    push_decimal, push_str, str_chars, string_from_chars, trim, trim_chars, upper_chars,
    upper_seq,
};
use crate::gameplay::inventory::{grant_result, item_for_token, item_label, ItemId};
use crate::gameplay::loot::{tier_label, ChestTier};
use crate::gameplay::player::{healed, local_player_index, local_position, PlayerRuntimeState};

verus! {

// ----- words -----

/// The white-space separated words of `s`, scanning from the front with the word `cur` begun.
pub open spec fn words_from(s: Seq<char>, cur: Seq<char>) -> Seq<Seq<char>>
    decreases s.len(),
{
    if s.len() == 0 {
        if cur.len() > 0 {
            seq![cur]
        } else {
            Seq::empty()
        }
    } else if is_space(s[0]) {
        (if cur.len() > 0 {
            seq![cur]
        } else {
            Seq::empty()
        }) + words_from(s.drop_first(), Seq::empty())
    } else {
        words_from(s.drop_first(), cur.push(s[0]))
    }
}

/// The white-space separated words of `s`, in order.
pub open spec fn words(s: Seq<char>) -> Seq<Seq<char>> {
    words_from(s, Seq::empty())
}

/// Word `k` of `ws`, or the empty word when there are fewer.
pub open spec fn word_at(ws: Seq<Seq<char>>, k: int) -> Seq<char> {
    if 0 <= k < ws.len() {
        ws[k]
    } else {
        Seq::empty()
    }
}

/// The white-space separated words of `s`.
pub fn split_words(s: &Vec<char>) -> (r: Vec<Vec<char>>)
    ensures
        r@.len() == words(s@).len(),
        forall|k: int| 0 <= k < r@.len() ==> #[trigger] r@[k]@ == words(s@)[k],
{
    let mut done: Vec<Vec<char>> = Vec::new();
    let ghost mut acc: Seq<Seq<char>> = Seq::empty();
    let mut cur: Vec<char> = Vec::new();
    let mut i: usize = 0;
    assert(s@.skip(0) == s@);
    while i < s.len()
        invariant
            i <= s.len(),
            acc.len() == done@.len(),
            forall|k: int| 0 <= k < done@.len() ==> #[trigger] done@[k]@ == acc[k],
            words(s@) == acc + words_from(s@.skip(i as int), cur@),
        decreases s.len() - i,
    {
        let c = s[i];
        let ghost rest = s@.skip(i as int);
        assert(rest.drop_first() == s@.skip(i + 1));
        assert(rest[0] == c);
        if char_is_space(c) {
            if cur.len() > 0 {
                proof {
                    assert(acc + (seq![cur@] + words_from(rest.drop_first(), Seq::empty())) == acc.push(cur@)
                        + words_from(rest.drop_first(), Seq::empty()));
                    acc = acc.push(cur@);
                }
                done.push(cur);
                cur = Vec::new();
            } else {
                assert(Seq::<Seq<char>>::empty() + words_from(rest.drop_first(), Seq::empty()) == words_from(
                    rest.drop_first(),
                    Seq::empty(),
                ));
                cur = Vec::new();
            }
        } else {
            cur.push(c);
        }
        i = i + 1;
    }
    assert(s@.skip(i as int).len() == 0);
    if cur.len() > 0 {
        proof {
            assert(acc + seq![cur@] == acc.push(cur@));
            acc = acc.push(cur@);
        }
        done.push(cur);
    } else {
        assert(acc + Seq::<Seq<char>>::empty() == acc);
    }
    done
}

// ----- numbers -----

pub open spec fn is_digit(c: char) -> bool {
    '0' <= c <= '9'
}

/// The value of a string of decimal digits.
pub open spec fn digits_value(s: Seq<char>) -> int
    decreases s.len(),
{
    if s.len() == 0 {
        0
    } else {
        digits_value(s.drop_last()) * 10 + ((s.last() as int) - ('0' as int))
    }
}

/// One or more decimal digits and nothing else.
pub open spec fn all_digits(s: Seq<char>) -> bool {
    s.len() > 0 && forall|i: int| 0 <= i < s.len() ==> #[trigger] is_digit(s[i])
}

/// The unsigned number `s` spells, optionally after a `+`, when it is at most `max`.
pub open spec fn parse_unsigned(s: Seq<char>, max: int) -> Option<int> {
    let body = if s.len() > 0 && s[0] == '+' {
        s.drop_first()
    } else {
        s
    };
    if all_digits(body) && digits_value(body) <= max {
        Some(digits_value(body))
    } else {
        None
    }
}

/// The signed number `s` spells, optionally after a `+` or a `-`, when it lies in
/// `min ..= max`.
pub open spec fn parse_signed(s: Seq<char>, min: int, max: int) -> Option<int> {
    if s.len() > 0 && s[0] == '-' {
        let body = s.drop_first();
        if all_digits(body) && -digits_value(body) >= min {
            Some(-digits_value(body))
        } else {
            None
        }
    } else {
        parse_unsigned(s, max)
    }
}

proof fn lemma_digits_value_nonneg(s: Seq<char>)
    requires
        forall|i: int| 0 <= i < s.len() ==> #[trigger] is_digit(s[i]),
    ensures
        digits_value(s) >= 0,
    decreases s.len(),
{
    if s.len() > 0 {
        assert(is_digit(s[s.len() - 1]));
        lemma_digits_value_nonneg(s.drop_last());
    }
}

/// The value of the digits of `s` from `start` on, when they are all digits (at least one)
/// and the value is at most `max`.
fn parse_digits(s: &Vec<char>, start: usize, max: u64) -> (r: Option<u64>)
    requires
        start <= s@.len(),
        max >= 9,
    ensures
        match r {
            Some(v) => all_digits(s@.skip(start as int)) && digits_value(s@.skip(start as int)) == v && v <= max,
            None => !(all_digits(s@.skip(start as int)) && digits_value(s@.skip(start as int)) <= max),
        },
{
    if start >= s.len() {
        return None;
    }
    let mut value: u64 = 0;
    let mut overflow = false;
    let mut i: usize = start;
    assert(s@.subrange(start as int, start as int) =~= Seq::<char>::empty());
    while i < s.len()
        invariant
            start < s@.len(),
            start <= i <= s@.len(),
            max >= 9,
            forall|k: int| start <= k < i ==> #[trigger] is_digit(s@[k]),
            !overflow ==> value == digits_value(s@.subrange(start as int, i as int)) && value <= max,
            overflow ==> digits_value(s@.subrange(start as int, i as int)) > max,
        decreases s@.len() - i,
    {
        let c = s[i];
        if !('0' <= c && c <= '9') {
            proof {
                assert(s@.skip(start as int)[i - start] == c);
                assert(!is_digit(s@.skip(start as int)[i - start]));
            }
            return None;
        }
        let d = (c as u32 - 48) as u64;
        let ghost prefix = s@.subrange(start as int, i as int);
        let ghost next = s@.subrange(start as int, i + 1);
        proof {
            assert(next.drop_last() == prefix);
            assert(next.last() == c);
            assert(digits_value(next) == digits_value(prefix) * 10 + d);
            assert forall|k: int| 0 <= k < prefix.len() implies #[trigger] is_digit(prefix[k]) by {
                assert(prefix[k] == s@[start + k]);
            }
            lemma_digits_value_nonneg(prefix);
        }
        if overflow {
            proof {
                let p = digits_value(prefix);
                assert(p * 10 + d > max) by (nonlinear_arith)
                    requires
                        p > max,
                        max >= 0,
                        d >= 0,
                ;
            }
        } else if value > (max - d) / 10 {
            proof {
                assert(value * 10 + d > max) by (nonlinear_arith)
                    requires
                        value > (max - d) / 10,
                        max >= d,
                        d >= 0,
                ;
            }
            overflow = true;
        } else {
            proof {
                assert(value * 10 + d <= max) by (nonlinear_arith)
                    requires
                        value <= (max - d) / 10,
                        max >= d,
                        d >= 0,
                ;
            }
            value = value * 10 + d;
        }
        i = i + 1;
    }
    proof {
        assert(s@.subrange(start as int, s@.len() as int) == s@.skip(start as int));
        assert forall|k: int| 0 <= k < s@.skip(start as int).len() implies #[trigger] is_digit(
            s@.skip(start as int)[k],
        ) by {
            assert(s@.skip(start as int)[k] == s@[start + k]);
        }
    }
    if overflow {
        None
    } else {
        Some(value)
    }
}

/// The unsigned number `s` spells, when it is at most `max`.
fn parse_unsigned_chars(s: &Vec<char>, max: u64) -> (r: Option<u64>)
    requires
        max >= 9,
    ensures
        match r {
            Some(v) => parse_unsigned(s@, max as int) == Some(v as int),
            None => parse_unsigned(s@, max as int) is None,
        },
{
    let start: usize = if s.len() > 0 && s[0] == '+' { 1 } else { 0 };
    assert(s@.skip(0) == s@);
    assert(s@.skip(1) == s@.drop_first());
    parse_digits(s, start, max)
}

/// The number in `s` as a `u32`, or `default` when `s` is not one.
pub fn parse_u32_or(s: &Vec<char>, default: u32) -> (v: u32)
    ensures
        v == match parse_unsigned(s@, u32::MAX as int) {
            Some(n) => n,
            None => default as int,
        },
{
    match parse_unsigned_chars(s, u32::MAX as u64) {
        Some(n) => n as u32,
        None => default,
    }
}

/// The number in `s` as a `usize`, or `default` when `s` is not one.
pub fn parse_usize_or(s: &Vec<char>, default: usize) -> (v: usize)
    ensures
        v == match parse_unsigned(s@, usize::MAX as int) {
            Some(n) => n,
            None => default as int,
        },
{
    match parse_unsigned_chars(s, usize::MAX as u64) {
        Some(n) => n as usize,
        None => default,
    }
}

/// The number in `s` as an `i32`, or `default` when `s` is not one.
pub fn parse_i32_or(s: &Vec<char>, default: i32) -> (v: i32)
    ensures
        v == match parse_signed(s@, i32::MIN as int, i32::MAX as int) {
            Some(n) => n,
            None => default as int,
        },
{
    if s.len() > 0 && s[0] == '-' {
        assert(s@.skip(1) == s@.drop_first());
        match parse_digits(s, 1, 2147483648u64) {
            Some(n) => {
                if n == 2147483648u64 {
                    i32::MIN
                } else {
                    -(n as i32)
                }
            },
            None => default,
        }
    } else {
        match parse_unsigned_chars(s, i32::MAX as u64) {
            Some(n) => n as i32,
            None => default,
        }
    }
}

// ----- the command grammar -----

/// What a chat line asks for, with its texts as character sequences.
pub enum CommandView {
    Say(Seq<char>),
    Help,
    Day,
    Night,
    SetTime(Seq<char>),
    TimeUsage,
    Give(ItemId, u32),
    GiveUsage,
    Heal(i32),
    SpawnEnemies(usize),
    SpawnChest(ChestTier),
    SpawnChestUsage,
    SpawnUsage,
    Save,
    Load,
    Unknown(Seq<char>),
}

/// What a chat line asks for.
#[derive(Clone, Debug)]
pub enum ChatCommand {
    /// A line that is not a command: said in local chat, trimmed.
    Say { text: String },
    Help,
    Day,
    Night,
    /// Set the time of day to the fraction the text spells.
    SetTime { value: String },
    TimeUsage,
    Give { item: ItemId, count: u32 },
    GiveUsage,
    Heal { amount: i32 },
    SpawnEnemies { count: usize },
    SpawnChest { tier: ChestTier },
    SpawnChestUsage,
    SpawnUsage,
    Save,
    Load,
    /// A command of no known name; the name is kept without its slashes.
    Unknown { name: String },
}

impl View for ChatCommand {
    type V = CommandView;

    open spec fn view(&self) -> CommandView {
        match self {
            ChatCommand::Say { text } => CommandView::Say(text@),
            ChatCommand::Help => CommandView::Help,
            ChatCommand::Day => CommandView::Day,
            ChatCommand::Night => CommandView::Night,
            ChatCommand::SetTime { value } => CommandView::SetTime(value@),
            ChatCommand::TimeUsage => CommandView::TimeUsage,
            ChatCommand::Give { item, count } => CommandView::Give(*item, *count),
            ChatCommand::GiveUsage => CommandView::GiveUsage,
            ChatCommand::Heal { amount } => CommandView::Heal(*amount),
            ChatCommand::SpawnEnemies { count } => CommandView::SpawnEnemies(*count),
            ChatCommand::SpawnChest { tier } => CommandView::SpawnChest(*tier),
            ChatCommand::SpawnChestUsage => CommandView::SpawnChestUsage,
            ChatCommand::SpawnUsage => CommandView::SpawnUsage,
            ChatCommand::Save => CommandView::Save,
            ChatCommand::Load => CommandView::Load,
            ChatCommand::Unknown { name } => CommandView::Unknown(name@),
        }
    }
}

/// `w` without its leading slashes.
pub open spec fn strip_slashes(w: Seq<char>) -> Seq<char>
    decreases w.len(),
{
    if w.len() > 0 && w[0] == '/' {
        strip_slashes(w.drop_first())
    } else {
        w
    }
}

/// The chest tier a word names, in any letter case.
pub open spec fn tier_for(word: Seq<char>) -> Option<ChestTier> {
    let l = lower_seq(word);
    if l == "common"@ {
        Some(ChestTier::Common)
    } else if l == "rare"@ {
        Some(ChestTier::Rare)
    } else if l == "epic"@ {
        Some(ChestTier::Epic)
    } else {
        None
    }
}

/// A chest tier's label names that tier again as a command word, in any letter case, and no
/// other tier: the word and the tier it selects agree.
pub proof fn law_tier_word_names_its_tier(t: ChestTier, word: Seq<char>)
    requires
        lower_seq(word) == lower_seq(tier_label(t)),
    ensures
        tier_for(tier_label(t)) == Some(t),
        tier_for(word) == Some(t),
{
    reveal_strlit("COMMON");
    reveal_strlit("RARE");
    reveal_strlit("EPIC");
    reveal_strlit("common");
    reveal_strlit("rare");
    reveal_strlit("epic");
    let n = lower_seq(tier_label(t));
    assert(n =~= match t {
        ChestTier::Common => "common"@,
        ChestTier::Rare => "rare"@,
        ChestTier::Epic => "epic"@,
    });
    assert("rare"@.len() != "common"@.len());
    assert("epic"@.len() != "common"@.len());
    assert("epic"@[0] != "rare"@[0]);
    assert(lower_seq(word) == n);
}

/// What the chat line `input` asks for. A line that does not start with `/` once trimmed is
/// said in chat. Otherwise its first word, without slashes, names the command and the next
/// words are its arguments; a missing or malformed number takes the command's default.
pub open spec fn command_of(input: Seq<char>) -> CommandView {
    let t = trim(input);
    if !(t.len() > 0 && t[0] == '/') {
        CommandView::Say(t)
    } else {
        let ws = words(t);
        let name = strip_slashes(word_at(ws, 0));
        let a1 = word_at(ws, 1);
        let a2 = word_at(ws, 2);
        if name == "help"@ {
            CommandView::Help
        } else if name == "day"@ {
            CommandView::Day
        } else if name == "night"@ {
            CommandView::Night
        } else if name == "time"@ {
            if a1 == "set"@ && ws.len() > 2 {
                CommandView::SetTime(a2)
            } else {
                CommandView::TimeUsage
            }
        } else if name == "give"@ {
            match item_for_token(a1) {
                Some(item) => CommandView::Give(
                    item,
                    match parse_unsigned(a2, u32::MAX as int) {
                        Some(n) => n as u32,
                        None => 1u32,
                    },
                ),
                None => CommandView::GiveUsage,
            }
        } else if name == "heal"@ {
            CommandView::Heal(
                match parse_signed(a1, i32::MIN as int, i32::MAX as int) {
                    Some(n) => n as i32,
                    None => 35i32,
                },
            )
        } else if name == "spawn"@ {
            if a1 == "enemy"@ {
                CommandView::SpawnEnemies(
                    match parse_unsigned(a2, usize::MAX as int) {
                        Some(n) => n as usize,
                        None => 1usize,
                    },
                )
            } else if a1 == "chest"@ {
                match tier_for(a2) {
                    Some(tier) => CommandView::SpawnChest(tier),
                    None => CommandView::SpawnChestUsage,
                }
            } else {
                CommandView::SpawnUsage
            }
        } else if name == "save"@ {
            CommandView::Save
        } else if name == "load"@ {
            CommandView::Load
        } else {
            CommandView::Unknown(name)
        }
    }
}

/// `w` without its leading slashes.
fn strip_slashes_chars(w: &Vec<char>) -> (r: Vec<char>)
    ensures
        r@ == strip_slashes(w@),
{
    let mut k: usize = 0;
    assert(w@.skip(0) == w@);
    while k < w.len() && w[k] == '/'
        invariant
            k <= w@.len(),
            strip_slashes(w@) == strip_slashes(w@.skip(k as int)),
        decreases w@.len() - k,
    {
        assert(w@.skip(k as int).drop_first() == w@.skip(k + 1));
        k = k + 1;
    }
    let mut r: Vec<char> = Vec::new();
    let mut i: usize = k;
    while i < w.len()
        invariant
            k <= i <= w@.len(),
            r@ == w@.subrange(k as int, i as int),
        decreases w@.len() - i,
    {
        r.push(w[i]);
        i = i + 1;
    }
    assert(r@ == w@.skip(k as int));
    r
}

/// Word `k` of `ws`, or no characters.
fn word_or_empty(ws: &Vec<Vec<char>>, k: usize) -> (w: Vec<char>)
    ensures
        k < ws@.len() ==> w@ == ws@[k as int]@,
        k >= ws@.len() ==> w@.len() == 0,
{
    if k < ws.len() {
        ws[k].clone()
    } else {
        Vec::new()
    }
}

fn tier_from_word(word: &Vec<char>) -> (t: Option<ChestTier>)
    ensures
        t == tier_for(word@),
{
    let l = lower_chars(word);
    if chars_equal(&l, "common") {
        Some(ChestTier::Common)
    } else if chars_equal(&l, "rare") {
        Some(ChestTier::Rare)
    } else if chars_equal(&l, "epic") {
        Some(ChestTier::Epic)
    } else {
        None
    }
}

/// What the chat line `input` asks for.
pub fn parse_command(input: &str) -> (cmd: ChatCommand)
    ensures
        cmd@ == command_of(input@),
{
    let t = trim_chars(&str_chars(input));
    if !(t.len() > 0 && t[0] == '/') {
        return ChatCommand::Say { text: string_from_chars(&t) };
    }
    let ws = split_words(&t);
    let ghost wv = words(t@);
    let first = word_or_empty(&ws, 0);
    let name = strip_slashes_chars(&first);
    let a1 = word_or_empty(&ws, 1);
    let a2 = word_or_empty(&ws, 2);
    proof {
        assert(first@ == word_at(wv, 0));
        assert(a1@ == word_at(wv, 1));
        assert(a2@ == word_at(wv, 2));
    }
    if chars_equal(&name, "help") {
        ChatCommand::Help
    } else if chars_equal(&name, "day") {
        ChatCommand::Day
    } else if chars_equal(&name, "night") {
        ChatCommand::Night
    } else if chars_equal(&name, "time") {
        if chars_equal(&a1, "set") && ws.len() > 2 {
            ChatCommand::SetTime { value: string_from_chars(&a2) }
        } else {
            ChatCommand::TimeUsage
        }
    } else if chars_equal(&name, "give") {
        let token = string_from_chars(&a1);
        match ItemId::from_token(token.as_str()) {
            Some(item) => ChatCommand::Give { item, count: parse_u32_or(&a2, 1) },
            None => ChatCommand::GiveUsage,
        }
    } else if chars_equal(&name, "heal") {
        ChatCommand::Heal { amount: parse_i32_or(&a1, 35) }
    } else if chars_equal(&name, "spawn") {
        if chars_equal(&a1, "enemy") {
            ChatCommand::SpawnEnemies { count: parse_usize_or(&a2, 1) }
        } else if chars_equal(&a1, "chest") {
            match tier_from_word(&a2) {
                Some(tier) => ChatCommand::SpawnChest { tier },
                None => ChatCommand::SpawnChestUsage,
            }
        } else {
            ChatCommand::SpawnUsage
        }
    } else if chars_equal(&name, "save") {
        ChatCommand::Save
    } else if chars_equal(&name, "load") {
        ChatCommand::Load
    } else {
        ChatCommand::Unknown { name: string_from_chars(&name) }
    }
}

// ----- answering a command -----

/// The lines a command is answered with, and whether it asks the caller to save or load the
/// world.
#[derive(Clone, Debug)]
pub struct CommandOutcome {
    pub lines: Vec<String>,
    pub save_requested: bool,
    pub load_requested: bool,
}

impl CommandOutcome {
    pub open spec fn lines_view(self) -> Seq<Seq<char>> {
        self.lines@.map_values(|l: String| l@)
    }
}

pub open spec fn help_lines() -> Seq<Seq<char>> {
    seq![
        "COMMANDS: /HELP /DAY /NIGHT /TIME SET <0..1>"@,
        "/GIVE <ITEM> <COUNT> /HEAL <AMOUNT> /SPAWN ENEMY <COUNT>"@,
        "/SPAWN CHEST <COMMON|RARE|EPIC> /SAVE /LOAD"@,
    ]
}

/// The answer to granting `count` of `item` when `remaining` did not fit.
pub open spec fn give_lines(item: ItemId, count: u32, remaining: u32) -> Seq<Seq<char>> {
    let gained: nat = if count >= remaining { (count - remaining) as nat } else { 0 };
    let first = "GAVE "@ + item_label(item) + " X"@ + decimal(gained);
    if remaining > 0 {
        seq![first, "NO ROOM FOR "@ + decimal(remaining as nat) + " MORE"@]
    } else {
        seq![first]
    }
}

/// The lines that answer `cmd` when the world's players are `players`. Setting the time to a
/// fraction is answered by the caller, which reads the fraction.
pub open spec fn reply_of(cmd: CommandView, players: Seq<PlayerRuntimeState>) -> Seq<Seq<char>> {
    match cmd {
        CommandView::Say(t) => seq!["LOCAL CHAT: "@ + t],
        CommandView::Help => help_lines(),
        CommandView::Day => seq!["TIME SET TO DAY"@],
        CommandView::Night => seq!["TIME SET TO NIGHT"@],
        CommandView::SetTime(_) => Seq::empty(),
        CommandView::TimeUsage => seq!["USAGE: /TIME SET <0..1>"@],
        CommandView::Give(item, count) => match local_position(players) {
            Some(p) => give_lines(item, count, grant_result(players[p].inventory, item, count).1),
            None => Seq::empty(),
        },
        CommandView::GiveUsage => seq!["USAGE: /GIVE <SIDEARM|LAUNCHER|MEDKIT|GRENADE> <COUNT>"@],
        CommandView::Heal(amount) => match local_position(players) {
            Some(p) => seq!["HEALED TO "@ + decimal(healed(players[p], amount as int) as nat)],
            None => Seq::empty(),
        },
        CommandView::SpawnEnemies(count) => seq!["SPAWNED "@ + decimal(count as nat) + " ENEMIES"@],
        CommandView::SpawnChest(tier) => seq!["SPAWNED "@ + tier_label(tier) + " CHEST"@],
        CommandView::SpawnChestUsage => seq!["USAGE: /SPAWN CHEST <COMMON|RARE|EPIC>"@],
        CommandView::SpawnUsage => seq!["USAGE: /SPAWN ENEMY <COUNT> OR /SPAWN CHEST <TIER>"@],
        CommandView::Save => seq!["WORLD SAVE REQUESTED"@],
        CommandView::Load => seq!["WORLD LOAD REQUESTED"@],
        CommandView::Unknown(name) => seq!["UNKNOWN COMMAND: /"@ + upper_seq(name)],
    }
}

/// How `cmd` changes the world's players: granting fills the local player's hotbar slots as
/// `grant_result` says, healing raises the local player's health; nothing else is touched.
pub open spec fn players_follow(
    cmd: CommandView,
    before: Seq<PlayerRuntimeState>,
    after: Seq<PlayerRuntimeState>,
) -> bool {
    match (cmd, local_position(before)) {
        (CommandView::Give(item, count), Some(p)) => {
            &&& after.len() == before.len()
            &&& forall|i: int| 0 <= i < before.len() && i != p ==> after[i] == before[i]
            &&& after[p].id == before[p].id
            &&& after[p].health == before[p].health
            &&& after[p].max_health == before[p].max_health
            &&& after[p].inventory.slots@ == grant_result(before[p].inventory, item, count).0
            &&& after[p].inventory.selected_weapon_slot == before[p].inventory.selected_weapon_slot
        },
        (CommandView::Heal(amount), Some(p)) => after == before.update(
            p,
            PlayerRuntimeState { health: healed(before[p], amount as int) as i32, ..before[p] },
        ),
        _ => after == before,
    }
}

/// Healing the local player by `cmd` keeps its health inside `i32`.
pub open spec fn heal_fits(cmd: CommandView, players: Seq<PlayerRuntimeState>) -> bool {
    match (cmd, local_position(players)) {
        (CommandView::Heal(amount), Some(p)) => players[p].health + (if amount < 0 {
            0
        } else {
            amount as int
        }) <= i32::MAX,
        _ => true,
    }
}

fn line_from(prefix: &str, middle: &Vec<char>, suffix: &str) -> (l: String)
    ensures
        l@ == prefix@ + middle@ + suffix@,
{
    let mut l = String::new();
    push_str(&mut l, prefix);
    push_chars(&mut l, middle);
    push_str(&mut l, suffix);
    l
}

fn number_line(prefix: &str, n: u64, suffix: &str) -> (l: String)
    ensures
        l@ == prefix@ + decimal(n as nat) + suffix@,
{
    let mut l = String::new();
    push_str(&mut l, prefix);
    push_decimal(&mut l, n);
    push_str(&mut l, suffix);
    l
}

fn single(line: String) -> (o: CommandOutcome)
    ensures
        o.lines_view() == seq![line@],
        !o.save_requested,
        !o.load_requested,
{
    let mut lines = Vec::new();
    lines.push(line);
    let o = CommandOutcome { lines, save_requested: false, load_requested: false };
    assert(o.lines_view() =~= seq![line@]);
    o
}

fn silent() -> (o: CommandOutcome)
    ensures
        o.lines_view() == Seq::<Seq<char>>::empty(),
        !o.save_requested,
        !o.load_requested,
{
    let o = CommandOutcome { lines: Vec::new(), save_requested: false, load_requested: false };
    assert(o.lines_view() =~= Seq::<Seq<char>>::empty());
    o
}

/// Grants `count` of `item` to the local player, if there is one, and answers with what was
/// given and what did not fit.
#[verifier::spinoff_prover]
#[verifier::rlimit(40)]
fn give_to_local(players: &mut Vec<PlayerRuntimeState>, item: ItemId, count: u32) -> (o: CommandOutcome)
    ensures
        o.lines_view() == reply_of(CommandView::Give(item, count), old(players)@),
        !o.save_requested,
        !o.load_requested,
        players_follow(CommandView::Give(item, count), old(players)@, final(players)@),
{
    match local_player_index(players) {
        Some(k) => {
            let mut player = players[k];
            let remaining = player.inventory.grant_item(item, count);
            players.set(k, player);
            let gained: u32 = if count >= remaining { count - remaining } else { 0 };
            let mut first = String::new();
            push_str(&mut first, "GAVE ");
            push_str(&mut first, item.label());
            push_str(&mut first, " X");
            push_decimal(&mut first, gained as u64);
            let mut lines = Vec::new();
            lines.push(first);
            if remaining > 0 {
                lines.push(number_line("NO ROOM FOR ", remaining as u64, " MORE"));
            }
            let o = CommandOutcome { lines, save_requested: false, load_requested: false };
            assert(o.lines_view() =~= give_lines(item, count, remaining));
            o
        },
        None => silent(),
    }
}

/// Heals the local player, if there is one, and answers with the new health.
fn heal_local(players: &mut Vec<PlayerRuntimeState>, amount: i32) -> (o: CommandOutcome)
    requires
        heal_fits(CommandView::Heal(amount), old(players)@),
    ensures
        o.lines_view() == reply_of(CommandView::Heal(amount), old(players)@),
        !o.save_requested,
        !o.load_requested,
        players_follow(CommandView::Heal(amount), old(players)@, final(players)@),
{
    proof {
        reveal_strlit("");
    }
    match local_player_index(players) {
        Some(k) => {
            let mut player = players[k];
            player.heal(amount);
            players.set(k, player);
            single(number_line("HEALED TO ", player.health as u64, ""))
        },
        None => silent(),
    }
}

/// Answers `cmd`, granting items to or healing the local player in `players`. Saving and
/// loading are asked of the caller through the outcome's flags; changing the time and
/// spawning enemies or chests are the caller's to do.
pub fn execute_command(cmd: &ChatCommand, players: &mut Vec<PlayerRuntimeState>) -> (o: CommandOutcome)
    requires
        heal_fits(cmd@, old(players)@),
    ensures
        o.lines_view() == reply_of(cmd@, old(players)@),
        o.save_requested == (cmd@ is Save),
        o.load_requested == (cmd@ is Load),
        players_follow(cmd@, old(players)@, final(players)@),
{
    proof {
        reveal_strlit("");
    }
    match cmd {
        ChatCommand::Say { text } => {
            let chars = str_chars(text.as_str());
            single(line_from("LOCAL CHAT: ", &chars, ""))
        },
        ChatCommand::Help => {
            let mut lines = Vec::new();
            lines.push("COMMANDS: /HELP /DAY /NIGHT /TIME SET <0..1>".to_owned());
            lines.push("/GIVE <ITEM> <COUNT> /HEAL <AMOUNT> /SPAWN ENEMY <COUNT>".to_owned());
            lines.push("/SPAWN CHEST <COMMON|RARE|EPIC> /SAVE /LOAD".to_owned());
            let o = CommandOutcome { lines, save_requested: false, load_requested: false };
            assert(o.lines_view() =~= help_lines());
            o
        },
        ChatCommand::Day => single("TIME SET TO DAY".to_owned()),
        ChatCommand::Night => single("TIME SET TO NIGHT".to_owned()),
        ChatCommand::SetTime { .. } => silent(),
        ChatCommand::TimeUsage => single("USAGE: /TIME SET <0..1>".to_owned()),
        ChatCommand::Give { item, count } => give_to_local(players, *item, *count),
        ChatCommand::GiveUsage => single(
            "USAGE: /GIVE <SIDEARM|LAUNCHER|MEDKIT|GRENADE> <COUNT>".to_owned(),
        ),
        ChatCommand::Heal { amount } => heal_local(players, *amount),
        ChatCommand::SpawnEnemies { count } => single(number_line("SPAWNED ", *count as u64, " ENEMIES")),
        ChatCommand::SpawnChest { tier } => {
            let mut l = String::new();
            push_str(&mut l, "SPAWNED ");
            push_str(&mut l, tier.label());
            push_str(&mut l, " CHEST");
            single(l)
        },
        ChatCommand::SpawnChestUsage => single("USAGE: /SPAWN CHEST <COMMON|RARE|EPIC>".to_owned()),
        ChatCommand::SpawnUsage => single(
            "USAGE: /SPAWN ENEMY <COUNT> OR /SPAWN CHEST <TIER>".to_owned(),
        ),
        ChatCommand::Save => {
            let mut lines = Vec::new();
            lines.push("WORLD SAVE REQUESTED".to_owned());
            let o = CommandOutcome { lines, save_requested: true, load_requested: false };
            assert(o.lines_view() =~= seq!["WORLD SAVE REQUESTED"@]);
            o
        },
        ChatCommand::Load => {
            let mut lines = Vec::new();
            lines.push("WORLD LOAD REQUESTED".to_owned());
            let o = CommandOutcome { lines, save_requested: false, load_requested: true };
            assert(o.lines_view() =~= seq!["WORLD LOAD REQUESTED"@]);
            o
        },
        ChatCommand::Unknown { name } => {
            let upper = upper_chars(&str_chars(name.as_str()));
            single(line_from("UNKNOWN COMMAND: /", &upper, ""))
        },
    }
}

/// Reads chat lines as commands and answers them.
#[derive(Clone, Copy, Debug)]
pub struct CommandRegistry;

impl CommandRegistry {
    pub fn new() -> (r: Self) {
        CommandRegistry
    }

    /// Reads `input` as a command and answers it; also hands back the command, so that the
    /// caller can do what falls to it.
    pub fn execute(&self, input: &str, players: &mut Vec<PlayerRuntimeState>) -> (r: (ChatCommand, CommandOutcome))
        requires
            heal_fits(command_of(input@), old(players)@),
        ensures
            r.0@ == command_of(input@),
            r.1.lines_view() == reply_of(command_of(input@), old(players)@),
            r.1.save_requested == (command_of(input@) is Save),
            r.1.load_requested == (command_of(input@) is Load),
            players_follow(command_of(input@), old(players)@, final(players)@),
    {
        let cmd = parse_command(input);
        let outcome = execute_command(&cmd, players);
        (cmd, outcome)
    }
}

} // verus!


