//! What the keys pressed since the last frame do: move through the start menu, type into and
//! send from the chat, and use the hotbar. The frame loop calls these steps in order and does
//! what they hand back that needs the window, the clock or the world's geometry.
use vstd::prelude::*;

use crate::chars::trim;
use crate::commands::{command_of, heal_fits, players_follow, reply_of, ChatCommand, CommandRegistry, CommandView};
use crate::gameplay::inventory::{consume_result, ItemId};
use crate::gameplay::player::{healed, local_player_index, local_position, PlayerRuntimeState, MEDKIT_HEAL};
use crate::input::InputHandler;
use crate::ui::chat::{last_n, typed, ChatState};
use crate::ui::menu::{MenuCommand, StartMenuState};

verus! {

pub const KEY_ARROW_UP: u32 = 1;
pub const KEY_ARROW_DOWN: u32 = 2;
pub const KEY_ARROW_LEFT: u32 = 3;
pub const KEY_ARROW_RIGHT: u32 = 4;
pub const KEY_W: u32 = 5;
pub const KEY_A: u32 = 6;
pub const KEY_S: u32 = 7;
pub const KEY_D: u32 = 8;
pub const KEY_ENTER: u32 = 9;
pub const KEY_BACKSPACE: u32 = 10;
pub const KEY_ESCAPE: u32 = 11;
pub const KEY_T: u32 = 12;
pub const KEY_SLASH: u32 = 13;
pub const KEY_DIGIT1: u32 = 14;
pub const KEY_DIGIT2: u32 = 15;
pub const KEY_DIGIT3: u32 = 16;
pub const KEY_DIGIT4: u32 = 17;
pub const KEY_E: u32 = 18;
pub const KEY_Q: u32 = 19;
pub const KEY_F: u32 = 20;
pub const KEY_R: u32 = 21;
pub const KEY_H: u32 = 22;

/// Consuming `a`, or `b` when `a` was not pressed: the fresh presses left.
pub open spec fn consume_either(j: Set<u32>, a: u32, b: u32) -> Set<u32> {
    if j.contains(a) { j.remove(a) } else { j.remove(b) }
}

/// The selection after moving up (when `up`) and then down (when `down`).
pub open spec fn moved_selection(sel: usize, up: bool, down: bool) -> usize {
    let s1: usize = if up { if sel == 0 { 0 } else { (sel - 1) as usize } } else { sel };
    if down { if s1 + 1 > 3 { 3 } else { (s1 + 1) as usize } } else { s1 }
}

/// The command of the button `sel` of the start menu.
pub open spec fn button_command(sel: usize) -> MenuCommand {
    if sel == 0 {
        MenuCommand::PlaySelectedWorld
    } else if sel == 1 {
        MenuCommand::CreateWorld
    } else if sel == 2 {
        MenuCommand::SaveWorld
    } else {
        MenuCommand::Quit
    }
}

/// The menu commands of one frame: previous world (left or A), next world (right or D), then
/// the highlighted button (Enter).
pub open spec fn menu_commands(left: bool, right: bool, enter: bool, sel: usize) -> Seq<MenuCommand> {
    let a = if left { seq![MenuCommand::SelectPreviousWorld] } else { Seq::empty() };
    let b = if right { a.push(MenuCommand::SelectNextWorld) } else { a };
    if enter { b.push(button_command(sel)) } else { b }
}

/// The start menu's keys, while the menu is open: up (or W) and down (or S) move the
/// highlight; left (or A) and right (or D) step through the saved worlds; Enter activates the
/// highlighted button. Returns the commands for the caller to carry out, in order. The arrow
/// key is used up in preference to its letter; with the menu closed nothing happens.
pub fn menu_input_step(menu_open: bool, input: &mut InputHandler, menu: &mut StartMenuState) -> (cmds: Vec<MenuCommand>)
    requires
        old(input).wf(),
        old(menu).wf(),
    ensures
        final(input).wf(),
        final(menu).wf(),
        final(input).pressed() == old(input).pressed(),
        final(input).typed() == old(input).typed(),
        !menu_open ==> cmds@.len() == 0 && final(input).just_pressed() == old(input).just_pressed() && final(menu).selected()
            == old(menu).selected(),
        menu_open ==> {
            let j = old(input).just_pressed();
            let up = j.contains(KEY_ARROW_UP) || j.contains(KEY_W);
            let down = j.contains(KEY_ARROW_DOWN) || j.contains(KEY_S);
            let left = j.contains(KEY_ARROW_LEFT) || j.contains(KEY_A);
            let right = j.contains(KEY_ARROW_RIGHT) || j.contains(KEY_D);
            let enter = j.contains(KEY_ENTER);
            let sel = moved_selection(old(menu).selected(), up, down);
            &&& final(menu).selected() == sel
            &&& cmds@ == menu_commands(left, right, enter, sel)
            &&& final(input).just_pressed() == consume_either(
                consume_either(consume_either(consume_either(j, KEY_ARROW_UP, KEY_W), KEY_ARROW_DOWN, KEY_S), KEY_ARROW_LEFT, KEY_A),
                KEY_ARROW_RIGHT,
                KEY_D,
            ).remove(KEY_ENTER)
        },
{
    let mut cmds: Vec<MenuCommand> = Vec::new();
    if !menu_open {
        return cmds;
    }
    let ghost j = input.just_pressed();
    let up = input.consume_key_press(KEY_ARROW_UP) || input.consume_key_press(KEY_W);
    if up {
        menu.move_selection_up();
    }
    let down = input.consume_key_press(KEY_ARROW_DOWN) || input.consume_key_press(KEY_S);
    if down {
        menu.move_selection_down();
    }
    let left = input.consume_key_press(KEY_ARROW_LEFT) || input.consume_key_press(KEY_A);
    if left {
        cmds.push(MenuCommand::SelectPreviousWorld);
    }
    let right = input.consume_key_press(KEY_ARROW_RIGHT) || input.consume_key_press(KEY_D);
    if right {
        cmds.push(MenuCommand::SelectNextWorld);
    }
    if input.consume_key_press(KEY_ENTER) {
        let c = menu.activate_selected();
        cmds.push(c);
    }
    proof {
        assert(cmds@ =~= menu_commands(
            j.contains(KEY_ARROW_LEFT) || j.contains(KEY_A),
            j.contains(KEY_ARROW_RIGHT) || j.contains(KEY_D),
            j.contains(KEY_ENTER),
            menu.selected(),
        ));
    }
    cmds
}

/// `after` is `before` with the local player, if there is one, changed only in its hotbar
/// slots, to `slots`, and its health, to `health`.
pub open spec fn local_changed(
    before: Seq<PlayerRuntimeState>,
    after: Seq<PlayerRuntimeState>,
    slots: Seq<crate::gameplay::inventory::HotbarSlot>,
    health: int,
) -> bool {
    match local_position(before) {
        None => after == before,
        Some(k) => {
            &&& after.len() == before.len()
            &&& forall|i: int| 0 <= i < before.len() && i != k ==> after[i] == before[i]
            &&& after[k].id == before[k].id
            &&& after[k].max_health == before[k].max_health
            &&& after[k].inventory.selected_weapon_slot == before[k].inventory.selected_weapon_slot
            &&& after[k].inventory.slots@ == slots
            &&& after[k].health == health
        },
    }
}

/// The players after the local player, if there is one, selected weapon slot `slot` (the
/// second at most).
pub open spec fn with_slot(before: Seq<PlayerRuntimeState>, slot: usize) -> Seq<PlayerRuntimeState> {
    match local_position(before) {
        None => before,
        Some(k) => before.update(
            k,
            PlayerRuntimeState {
                inventory: crate::gameplay::inventory::InventoryState {
                    selected_weapon_slot: if slot < 1 { slot } else { 1 },
                    ..before[k].inventory
                },
                ..before[k]
            },
        ),
    }
}

/// The local player uses a medkit: `line` is its report, none without a local player.
pub open spec fn medkit_used(before: Seq<PlayerRuntimeState>, after: Seq<PlayerRuntimeState>, line: Option<Seq<char>>) -> bool {
    match local_position(before) {
        None => after == before && line is None,
        Some(k) => {
            let p = before[k];
            let (slots, used) = consume_result(p.inventory, 2, ItemId::Medkit);
            &&& local_changed(before, after, slots, if used { healed(p, MEDKIT_HEAL as int) } else { p.health as int })
            &&& line == Some(if used { "USED MEDKIT HP "@ + crate::chars::decimal(healed(p, MEDKIT_HEAL as int) as nat) } else { "NO MEDKITS"@ })
        },
    }
}

/// Using a medkit would raise the local player's health past `i32`.
pub open spec fn medkit_overflows(players: Seq<PlayerRuntimeState>) -> bool {
    match local_position(players) {
        None => false,
        Some(k) => consume_result(players[k].inventory, 2, ItemId::Medkit).1 && players[k].health + MEDKIT_HEAL > i32::MAX,
    }
}

/// The local player takes a grenade from the hotbar; `thrown` tells whether there was one.
pub open spec fn grenade_taken(before: Seq<PlayerRuntimeState>, after: Seq<PlayerRuntimeState>, thrown: bool) -> bool {
    match local_position(before) {
        None => after == before && !thrown,
        Some(k) => {
            let (slots, used) = consume_result(before[k].inventory, 3, ItemId::Grenade);
            &&& thrown == used
            &&& local_changed(before, after, slots, before[k].health as int)
        },
    }
}

/// Selects weapon slot `slot` for the local player.
pub fn select_local_slot(players: &mut Vec<PlayerRuntimeState>, slot: usize)
    ensures
        final(players)@ == with_slot(old(players)@, slot),
{
    match local_player_index(players) {
        None => {},
        Some(k) => {
            let mut p = players[k];
            p.inventory.select_weapon_slot(slot);
            players.set(k, p);
            proof {
                assert(p.inventory.slots == old(players)@[k as int].inventory.slots);
                assert(players@ =~= with_slot(old(players)@, slot));
            }
        },
    }
}

/// Whether using a medkit would raise the local player's health past `i32`.
pub fn medkit_would_overflow(players: &Vec<PlayerRuntimeState>) -> (b: bool)
    ensures
        b == medkit_overflows(players@),
{
    match local_player_index(players) {
        None => false,
        Some(k) => {
            let mut inv = players[k].inventory;
            let has = inv.consume_heal();
            has && players[k].health > i32::MAX - MEDKIT_HEAL
        },
    }
}

/// The local player uses a medkit; the report, none without a local player.
pub fn use_local_medkit(players: &mut Vec<PlayerRuntimeState>) -> (line: Option<String>)
    requires
        !medkit_overflows(old(players)@),
    ensures
        medkit_used(old(players)@, final(players)@, line_view(line)),
{
    match local_player_index(players) {
        None => None,
        Some(k) => {
            let mut p = players[k];
            let line = p.use_heal_item();
            players.set(k, p);
            Some(line)
        },
    }
}

/// The local player takes a grenade from the hotbar, if it holds one.
pub fn throw_local_grenade(players: &mut Vec<PlayerRuntimeState>) -> (thrown: bool)
    ensures
        grenade_taken(old(players)@, final(players)@, thrown),
{
    match local_player_index(players) {
        None => false,
        Some(k) => {
            let mut p = players[k];
            let used = p.inventory.consume_throwable();
            players.set(k, p);
            used
        },
    }
}

/// The view of a command that may be missing.
pub open spec fn command_view(c: Option<ChatCommand>) -> Option<CommandView> {
    match c {
        Some(c) => Some(c@),
        None => None,
    }
}

/// The text of a line that may be missing.
pub open spec fn line_view(l: Option<String>) -> Option<Seq<char>> {
    match l {
        Some(l) => Some(l@),
        None => None,
    }
}

/// `lines` after each of `outs`, in order, was added as a system line (six are kept).
pub open spec fn with_system_lines(lines: Seq<(Seq<char>, bool)>, outs: Seq<Seq<char>>) -> Seq<(Seq<char>, bool)>
    decreases outs.len(),
{
    if outs.len() == 0 {
        lines
    } else {
        last_n(with_system_lines(lines, outs.drop_last()).push((outs.last(), true)), 6)
    }
}

/// What one frame's input does for the game, beyond the chat, for the caller to carry out.
#[derive(Debug)]
pub struct FrameActions {
    /// The chat command that was carried out this frame, for the parts that fall to the caller
    /// (the time of day, spawning).
    pub command: Option<ChatCommand>,
    pub save_requested: bool,
    pub load_requested: bool,
    /// A heal (a chat command or a medkit) would have raised the local player's health past
    /// `i32`; it was not carried out.
    pub heal_overflow: bool,
    /// The menu or the chat is open: the game stands still.
    pub paused: bool,
    /// A grenade was taken from the hotbar to be thrown.
    pub grenade_thrown: bool,
}

/// How the chat's part of a frame changed input `i0`, chat `c0` and players `p0` into `i1`,
/// `c1` and `p1`. With the chat open: the typed text goes into it, Backspace deletes a
/// character, Enter sends the input (a command is carried out and its reply added as system
/// lines, unless healing would overflow), Escape closes it; these keys are used up. With the
/// chat closed and the menu closed: T opens it, or else "/" opens it ready for a command.
/// The typed text is taken in any case.
pub open spec fn chat_stage(
    menu_open: bool,
    i0: InputHandler,
    c0: ChatState,
    p0: Seq<PlayerRuntimeState>,
    i1: InputHandler,
    c1: ChatState,
    p1: Seq<PlayerRuntimeState>,
    command: Option<CommandView>,
    save: bool,
    load: bool,
    overflow: bool,
) -> bool {
    let j = i0.just_pressed();
    &&& i1.pressed() == i0.pressed()
    &&& i1.typed() == Seq::<char>::empty()
    &&& if c0.spec_open() {
        let in1 = typed(c0.spec_input(), i0.typed());
        let in2 = if j.contains(KEY_BACKSPACE) && in1.len() > 0 { in1.drop_last() } else { in1 };
        let ent = j.contains(KEY_ENTER);
        let esc = j.contains(KEY_ESCAPE);
        let t = trim(in2);
        let sent = ent && t.len() > 0;
        let lines3 = if sent { last_n(c0.spec_lines().push((seq!['>', ' '] + t, t[0] != '/')), 6) } else { c0.spec_lines() };
        let cmd = command_of(t);
        let runs = sent && heal_fits(cmd, p0);
        &&& i1.just_pressed() == j.remove(KEY_BACKSPACE).remove(KEY_ENTER).remove(KEY_ESCAPE)
        &&& c1.spec_open() == !(ent || esc)
        &&& c1.spec_input() == if ent || esc { Seq::<char>::empty() } else { in2 }
        &&& c1.spec_lines() == if runs { with_system_lines(lines3, reply_of(cmd, p0)) } else { lines3 }
        &&& overflow == (sent && !heal_fits(cmd, p0))
        &&& if runs {
            &&& players_follow(cmd, p0, p1)
            &&& command == Some(cmd)
            &&& save == (cmd is Save)
            &&& load == (cmd is Load)
        } else {
            p1 == p0 && command is None && !save && !load
        }
    } else {
        &&& p1 == p0 && command is None && !save && !load && !overflow
        &&& c1.spec_lines() == c0.spec_lines()
        &&& if menu_open || !(j.contains(KEY_T) || j.contains(KEY_SLASH)) {
            &&& i1.just_pressed() == j
            &&& c1.spec_open() == c0.spec_open()
            &&& c1.spec_input() == c0.spec_input()
        } else if j.contains(KEY_T) {
            &&& i1.just_pressed() == j.remove(KEY_T)
            &&& c1.spec_open()
            &&& c1.spec_input() == Seq::<char>::empty()
        } else {
            &&& i1.just_pressed() == j.remove(KEY_SLASH)
            &&& c1.spec_open()
            &&& c1.spec_input() == seq!['/']
        }
    }
}

/// Whether carrying out `cmd` keeps healing within `i32`.
pub fn heal_fits_now(cmd: &ChatCommand, players: &Vec<PlayerRuntimeState>) -> (b: bool)
    ensures
        b == heal_fits(cmd@, players@),
{
    match cmd {
        ChatCommand::Heal { amount } => match local_player_index(players) {
            Some(k) => {
                let gained: i32 = if *amount < 0 { 0 } else { *amount };
                (players[k].health as i64) + (gained as i64) <= i32::MAX as i64
            },
            None => true,
        },
        _ => true,
    }
}

/// The chat's part of a frame: see `chat_stage`. The actions' `paused` tells whether the menu
/// or the chat is open afterwards; no grenade is thrown here.
pub fn chat_input_step(menu_open: bool, input: &mut InputHandler, chat: &mut ChatState, players: &mut Vec<PlayerRuntimeState>) -> (a: FrameActions)
    requires
        old(input).wf(),
        old(chat).wf(),
    ensures
        final(input).wf(),
        final(chat).wf(),
        chat_stage(
            menu_open,
            *old(input),
            *old(chat),
            old(players)@,
            *final(input),
            *final(chat),
            final(players)@,
            command_view(a.command),
            a.save_requested,
            a.load_requested,
            a.heal_overflow,
        ),
        a.paused == (menu_open || final(chat).spec_open()),
        !a.grenade_thrown,
{
    let ghost i0 = *input;
    let ghost c0 = *chat;
    let ghost p0 = players@;
    let text = input.take_typed_text();
    let mut command: Option<ChatCommand> = None;
    let mut save = false;
    let mut load = false;
    let mut overflow = false;
    if chat.is_open() {
        chat.append_text(text.as_str());
        if input.consume_key_press(KEY_BACKSPACE) {
            chat.backspace();
        }
        let ghost c2 = *chat;
        if input.consume_key_press(KEY_ENTER) {
            match chat.submit() {
                Some(sub) => {
                    let cmd = crate::commands::parse_command(sub.as_str());
                    if heal_fits_now(&cmd, players) {
                        let registry = CommandRegistry::new();
                        let (c, outcome) = registry.execute(sub.as_str(), players);
                        save = outcome.save_requested;
                        load = outcome.load_requested;
                        let ghost outs = outcome.lines_view();
                        let ghost start = chat.spec_lines();
                        let mut lines = outcome.lines;
                        let mut k: usize = 0;
                        while lines.len() > 0
                            invariant
                                chat.wf(),
                                k <= outs.len(),
                                lines@.map_values(|l: String| l@) == outs.skip(k as int),
                                chat.spec_lines() == with_system_lines(start, outs.take(k as int)),
                                c0.spec_open(),
                                !chat.spec_open(),
                                lines@.len() + k == outs.len(),
                                outs.len() <= usize::MAX,
                                chat.spec_input().len() == 0,
                            decreases lines@.len(),
                        {
                            let ghost before = lines@;
                            let line = lines.remove(0);
                            proof {
                                assert(before.map_values(|l: String| l@)[0] == outs.skip(k as int)[0]);
                                assert(line@ == outs[k as int]);
                                let now = lines@.map_values(|l: String| l@);
                                let was = before.map_values(|l: String| l@);
                                let rest = outs.skip(k + 1);
                                assert forall|m: int| 0 <= m < now.len() implies #[trigger] now[m] == rest[m] by {
                                    assert(lines@[m] == before[m + 1]);
                                    assert(was[m + 1] == outs.skip(k as int)[m + 1]);
                                }
                                assert(now =~= rest);
                                assert(lines@.map_values(|l: String| l@) =~= outs.skip(k + 1));
                                assert(outs.take(k + 1).drop_last() =~= outs.take(k as int));
                            }
                            chat.push_system_line(line);
                            k = k + 1;
                        }
                        proof {
                            assert(outs.take(k as int) =~= outs);
                        }
                        command = Some(c);
                    } else {
                        overflow = true;
                    }
                },
                None => {},
            }
        }
        if input.consume_key_press(KEY_ESCAPE) {
            chat.close();
        }
        proof {
            let j = i0.just_pressed();
            let in1 = typed(c0.spec_input(), i0.typed());
            let in2 = if j.contains(KEY_BACKSPACE) && in1.len() > 0 { in1.drop_last() } else { in1 };
            assert(c2.spec_input() == in2);
            assert(c2.spec_open());
            assert(c2.spec_lines() == c0.spec_lines());
            assert(input.just_pressed() == j.remove(KEY_BACKSPACE).remove(KEY_ENTER).remove(KEY_ESCAPE));
            assert(input.pressed() == i0.pressed());
            assert(input.typed() == Seq::<char>::empty());
            if !chat.spec_open() {
                assert(chat.spec_input() =~= Seq::<char>::empty());
            }
        }
    } else if !menu_open {
        let ghost j = i0.just_pressed();
        if input.consume_key_press(KEY_T) {
            chat.open();
            assert(chat.spec_input() =~= Seq::<char>::empty());
        } else if input.consume_key_press(KEY_SLASH) {
            chat.open_with_slash();
            assert(input.just_pressed() =~= j.remove(KEY_SLASH));
        } else {
            assert(input.just_pressed() =~= j);
        }
    }
    let paused = menu_open || chat.is_open();
    FrameActions { command, save_requested: save, load_requested: load, heal_overflow: overflow, paused, grenade_thrown: false }
}

/// The report of a medkit used by the local player of `players`; none without a local player.
pub open spec fn medkit_line(players: Seq<PlayerRuntimeState>) -> Option<Seq<char>> {
    match local_position(players) {
        None => None,
        Some(k) => {
            let p = players[k];
            if consume_result(p.inventory, 2, ItemId::Medkit).1 {
                Some("USED MEDKIT HP "@ + crate::chars::decimal(healed(p, MEDKIT_HEAL as int) as nat))
            } else {
                Some("NO MEDKITS"@)
            }
        },
    }
}

/// `lines` with `line`, if there is one, added as a system line.
pub open spec fn with_line(lines: Seq<(Seq<char>, bool)>, line: Option<Seq<char>>) -> Seq<(Seq<char>, bool)> {
    match line {
        None => lines,
        Some(l) => last_n(lines.push((l, true)), 6),
    }
}

/// Keys 1 and 2, unless the game stands still: select the first or the second weapon slot of
/// the local player. They are used up only while the game runs.
pub open spec fn slot_stage(paused: bool, i1: InputHandler, p1: Seq<PlayerRuntimeState>, i2: InputHandler, p2: Seq<PlayerRuntimeState>) -> bool {
    let j = i1.just_pressed();
    let d1 = !paused && j.contains(KEY_DIGIT1);
    let d2 = !paused && j.contains(KEY_DIGIT2);
    let q1 = if d1 { with_slot(p1, 0) } else { p1 };
    &&& i2.just_pressed() == if paused { j } else { j.remove(KEY_DIGIT1).remove(KEY_DIGIT2) }
    &&& i2.pressed() == i1.pressed()
    &&& i2.typed() == i1.typed()
    &&& p2 == if d2 { with_slot(q1, 1) } else { q1 }
}

/// Key 3, unless the game stands still: the local player uses a medkit and the report goes to
/// the chat, unless healing would raise its health past `i32` (`overflow`), when nothing
/// changes. The key is used up in any case.
pub open spec fn medkit_stage(
    paused: bool,
    i1: InputHandler,
    c1: ChatState,
    p1: Seq<PlayerRuntimeState>,
    i2: InputHandler,
    c2: ChatState,
    p2: Seq<PlayerRuntimeState>,
    overflow: bool,
) -> bool {
    let d3 = !paused && i1.just_pressed().contains(KEY_DIGIT3);
    &&& i2.just_pressed() == i1.just_pressed().remove(KEY_DIGIT3)
    &&& i2.pressed() == i1.pressed()
    &&& i2.typed() == i1.typed()
    &&& c2.spec_open() == c1.spec_open()
    &&& c2.spec_input() == c1.spec_input()
    &&& overflow == (d3 && medkit_overflows(p1))
    &&& if d3 && !overflow {
        &&& medkit_used(p1, p2, medkit_line(p1))
        &&& c2.spec_lines() == with_line(c1.spec_lines(), medkit_line(p1))
    } else {
        p2 == p1 && c2.spec_lines() == c1.spec_lines()
    }
}

/// Key 4, unless the game stands still: the local player takes a grenade to throw, and the
/// chat reports whether there was one. The key is used up in any case.
pub open spec fn grenade_stage(
    paused: bool,
    i1: InputHandler,
    c1: ChatState,
    p1: Seq<PlayerRuntimeState>,
    i2: InputHandler,
    c2: ChatState,
    p2: Seq<PlayerRuntimeState>,
    thrown: bool,
) -> bool {
    let d4 = !paused && i1.just_pressed().contains(KEY_DIGIT4);
    &&& i2.just_pressed() == i1.just_pressed().remove(KEY_DIGIT4)
    &&& i2.pressed() == i1.pressed()
    &&& i2.typed() == i1.typed()
    &&& c2.spec_open() == c1.spec_open()
    &&& c2.spec_input() == c1.spec_input()
    &&& if d4 {
        &&& grenade_taken(p1, p2, thrown)
        &&& c2.spec_lines() == last_n(c1.spec_lines().push((if thrown { "THREW GRENADE"@ } else { "NO GRENADES"@ }, true)), 6)
    } else {
        p2 == p1 && !thrown && c2.spec_lines() == c1.spec_lines()
    }
}

/// How the hotbar keys of a frame changed input `i1`, chat `c1` and players `p1` into `i2`,
/// `c2` and `p2`: keys 1 and 2, then 3, then 4, each as its stage says.
pub open spec fn hotbar_stage(
    paused: bool,
    i1: InputHandler,
    c1: ChatState,
    p1: Seq<PlayerRuntimeState>,
    i2: InputHandler,
    c2: ChatState,
    p2: Seq<PlayerRuntimeState>,
    overflow: bool,
    thrown: bool,
) -> bool {
    exists|ia: InputHandler, pa: Seq<PlayerRuntimeState>, ib: InputHandler, cb: ChatState, pb: Seq<PlayerRuntimeState>|
        #![trigger slot_stage(paused, i1, p1, ia, pa), medkit_stage(paused, ia, c1, pa, ib, cb, pb, overflow)]
        {
            &&& slot_stage(paused, i1, p1, ia, pa)
            &&& medkit_stage(paused, ia, c1, pa, ib, cb, pb, overflow)
            &&& grenade_stage(paused, ib, cb, pb, i2, c2, p2, thrown)
        }
}

/// While the game stands still the hotbar keys change neither the players nor the chat, and
/// neither heal nor throw.
pub proof fn law_paused_hotbar_keeps_state(
    i1: InputHandler,
    c1: ChatState,
    p1: Seq<PlayerRuntimeState>,
    i2: InputHandler,
    c2: ChatState,
    p2: Seq<PlayerRuntimeState>,
    overflow: bool,
    thrown: bool,
)
    requires
        hotbar_stage(true, i1, c1, p1, i2, c2, p2, overflow, thrown),
    ensures
        p2 == p1,
        c2.spec_lines() == c1.spec_lines(),
        c2.spec_open() == c1.spec_open(),
        c2.spec_input() == c1.spec_input(),
        !overflow,
        !thrown,
{
    let (ia, pa, ib, cb, pb) = choose|ia: InputHandler, pa: Seq<PlayerRuntimeState>, ib: InputHandler, cb: ChatState, pb: Seq<PlayerRuntimeState>|
        #![trigger slot_stage(true, i1, p1, ia, pa), medkit_stage(true, ia, c1, pa, ib, cb, pb, overflow)]
        {
            &&& slot_stage(true, i1, p1, ia, pa)
            &&& medkit_stage(true, ia, c1, pa, ib, cb, pb, overflow)
            &&& grenade_stage(true, ib, cb, pb, i2, c2, p2, thrown)
        };
}

fn slot_keys_step(paused: bool, input: &mut InputHandler, players: &mut Vec<PlayerRuntimeState>)
    requires
        old(input).wf(),
    ensures
        final(input).wf(),
        slot_stage(paused, *old(input), old(players)@, *final(input), final(players)@),
{
    if !paused && input.consume_key_press(KEY_DIGIT1) {
        select_local_slot(players, 0);
    }
    if !paused && input.consume_key_press(KEY_DIGIT2) {
        select_local_slot(players, 1);
    }
}

fn medkit_key_step(paused: bool, input: &mut InputHandler, chat: &mut ChatState, players: &mut Vec<PlayerRuntimeState>) -> (overflow: bool)
    requires
        old(input).wf(),
        old(chat).wf(),
    ensures
        final(input).wf(),
        final(chat).wf(),
        medkit_stage(paused, *old(input), *old(chat), old(players)@, *final(input), *final(chat), final(players)@, overflow),
{
    let mut overflow = false;
    if input.consume_key_press(KEY_DIGIT3) && !paused {
        if medkit_would_overflow(players) {
            overflow = true;
        } else {
            let line = use_local_medkit(players);
            match line {
                Some(l) => chat.push_system_line(l),
                None => {},
            }
        }
    }
    overflow
}

fn grenade_key_step(paused: bool, input: &mut InputHandler, chat: &mut ChatState, players: &mut Vec<PlayerRuntimeState>) -> (thrown: bool)
    requires
        old(input).wf(),
        old(chat).wf(),
    ensures
        final(input).wf(),
        final(chat).wf(),
        grenade_stage(paused, *old(input), *old(chat), old(players)@, *final(input), *final(chat), final(players)@, thrown),
{
    let mut thrown = false;
    if input.consume_key_press(KEY_DIGIT4) && !paused {
        thrown = throw_local_grenade(players);
        if thrown {
            chat.push_system_line("THREW GRENADE".to_owned());
        } else {
            chat.push_system_line("NO GRENADES".to_owned());
        }
    }
    thrown
}

/// The hotbar keys of a frame: see `hotbar_stage`. Returns whether healing would have
/// overflowed and whether a grenade was taken to be thrown.
pub fn hotbar_input_step(paused: bool, input: &mut InputHandler, chat: &mut ChatState, players: &mut Vec<PlayerRuntimeState>) -> (r: (bool, bool))
    requires
        old(input).wf(),
        old(chat).wf(),
    ensures
        final(input).wf(),
        final(chat).wf(),
        hotbar_stage(paused, *old(input), *old(chat), old(players)@, *final(input), *final(chat), final(players)@, r.0, r.1),
{
    let ghost i1 = *input;
    let ghost c1 = *chat;
    let ghost p1 = players@;
    slot_keys_step(paused, input, players);
    let ghost ia = *input;
    let ghost pa = players@;
    let overflow = medkit_key_step(paused, input, chat, players);
    let ghost ib = *input;
    let ghost cb = *chat;
    let ghost pb = players@;
    let thrown = grenade_key_step(paused, input, chat, players);
    proof {
        assert(slot_stage(paused, i1, p1, ia, pa));
        assert(medkit_stage(paused, ia, c1, pa, ib, cb, pb, overflow));
        assert(grenade_stage(paused, ib, cb, pb, *input, *chat, players@, thrown));
    }
    (overflow, thrown)
}

/// How one frame's chat and hotbar keys changed input `i0`, chat `c0` and players `p0` into
/// `i2`, `c2` and `p2`, with the actions `a` handed back: the chat's part first, then the
/// hotbar's, with the game standing still while the menu or the chat is open. A heal that would
/// overflow, from the chat or from a medkit, is reported in `a.heal_overflow`.
pub open spec fn frame_went(
    menu_open: bool,
    i0: InputHandler,
    c0: ChatState,
    p0: Seq<PlayerRuntimeState>,
    i2: InputHandler,
    c2: ChatState,
    p2: Seq<PlayerRuntimeState>,
    command: Option<CommandView>,
    save: bool,
    load: bool,
    heal_overflow: bool,
    paused: bool,
    thrown: bool,
) -> bool {
    exists|i1: InputHandler, c1: ChatState, p1: Seq<PlayerRuntimeState>, chat_over: bool, medkit_over: bool|
        #![trigger chat_stage(menu_open, i0, c0, p0, i1, c1, p1, command, save, load, chat_over), hotbar_stage(paused, i1, c1, p1, i2, c2, p2, medkit_over, thrown)]
        {
            &&& chat_stage(menu_open, i0, c0, p0, i1, c1, p1, command, save, load, chat_over)
            &&& paused == (menu_open || c1.spec_open())
            &&& hotbar_stage(paused, i1, c1, p1, i2, c2, p2, medkit_over, thrown)
            &&& heal_overflow == (chat_over || medkit_over)
        }
}

/// The keys of one frame once the start menu's commands are carried out: the chat's keys, then
/// the hotbar's (see `frame_went`). Returns what is left for the caller to do: save or load the
/// world, throw a grenade, stop on a heal that would overflow.
pub fn frame_input_step(menu_open: bool, input: &mut InputHandler, chat: &mut ChatState, players: &mut Vec<PlayerRuntimeState>) -> (a: FrameActions)
    requires
        old(input).wf(),
        old(chat).wf(),
    ensures
        final(input).wf(),
        final(chat).wf(),
        frame_went(
            menu_open,
            *old(input),
            *old(chat),
            old(players)@,
            *final(input),
            *final(chat),
            final(players)@,
            command_view(a.command),
            a.save_requested,
            a.load_requested,
            a.heal_overflow,
            a.paused,
            a.grenade_thrown,
        ),
{
    let ghost i0 = *input;
    let ghost c0 = *chat;
    let ghost p0 = players@;
    let first = chat_input_step(menu_open, input, chat, players);
    let ghost i1 = *input;
    let ghost c1 = *chat;
    let ghost p1 = players@;
    let (medkit_over, thrown) = hotbar_input_step(first.paused, input, chat, players);
    let a = FrameActions {
        command: first.command,
        save_requested: first.save_requested,
        load_requested: first.load_requested,
        heal_overflow: first.heal_overflow || medkit_over,
        paused: first.paused,
        grenade_thrown: thrown,
    };
    proof {
        let cmd = command_view(a.command);
        assert(chat_stage(menu_open, i0, c0, p0, i1, c1, p1, cmd, a.save_requested, a.load_requested, first.heal_overflow));
        assert(hotbar_stage(a.paused, i1, c1, p1, *input, *chat, players@, medkit_over, thrown));
    }
    a
}

/// Whether the game takes the keys of play (E, Q, F, R, H): the mouse is captured and the game
/// does not stand still.
pub open spec fn in_play(mouse_captured: bool, paused: bool) -> bool {
    mouse_captured && !paused
}

/// The E key, in play: the caller opens the chest in front of the player. Used up only in play.
pub fn chest_key_step(mouse_captured: bool, paused: bool, input: &mut InputHandler) -> (open: bool)
    requires
        old(input).wf(),
    ensures
        final(input).wf(),
        final(input).pressed() == old(input).pressed(),
        final(input).typed() == old(input).typed(),
        open == (in_play(mouse_captured, paused) && old(input).just_pressed().contains(KEY_E)),
        final(input).just_pressed() == if in_play(mouse_captured, paused) {
            old(input).just_pressed().remove(KEY_E)
        } else {
            old(input).just_pressed()
        },
{
    mouse_captured && !paused && input.consume_key_press(KEY_E)
}

/// What the keys Q, F, R and H asked for, for the caller to report or carry out in this order:
/// the grenade's report (and its flight), a shot, the time of day, the medkit's report.
#[derive(Debug)]
pub struct ActionKeys {
    pub grenade_line: Option<String>,
    pub grenade_thrown: bool,
    pub fire: bool,
    pub report_time: bool,
    pub heal_line: Option<String>,
    /// Using a medkit would have raised the local player's health past `i32`; it was not used.
    pub heal_overflow: bool,
}

/// Q, in play: the local player takes a grenade to throw; the line reports whether there was
/// one. Without the key nothing changes.
pub open spec fn grenade_key_went(live: bool, j: Set<u32>, p1: Seq<PlayerRuntimeState>, p2: Seq<PlayerRuntimeState>, thrown: bool, line: Option<Seq<char>>) -> bool {
    if live && j.contains(KEY_Q) {
        &&& grenade_taken(p1, p2, thrown)
        &&& line == Some(if thrown { "THREW GRENADE"@ } else { "NO GRENADES"@ })
    } else {
        p2 == p1 && !thrown && line is None
    }
}

/// H, in play: the local player uses a medkit and `line` is its report, unless healing would
/// raise its health past `i32` (`overflow`), when nothing changes.
pub open spec fn heal_key_went(live: bool, j: Set<u32>, p1: Seq<PlayerRuntimeState>, p2: Seq<PlayerRuntimeState>, overflow: bool, line: Option<Seq<char>>) -> bool {
    let h = live && j.contains(KEY_H);
    &&& overflow == (h && medkit_overflows(p1))
    &&& if h && !overflow { medkit_used(p1, p2, line) } else { p2 == p1 && line is None }
}

/// The keys Q, F, R and H, in play, each used up; out of play they stay and nothing changes.
/// Q and H act on the players here; F and R are handed back.
pub fn action_keys_step(mouse_captured: bool, paused: bool, input: &mut InputHandler, players: &mut Vec<PlayerRuntimeState>) -> (a: ActionKeys)
    requires
        old(input).wf(),
    ensures
        final(input).wf(),
        final(input).pressed() == old(input).pressed(),
        final(input).typed() == old(input).typed(),
        ({
            let j = old(input).just_pressed();
            let live = in_play(mouse_captured, paused);
            &&& final(input).just_pressed() == if live {
                j.remove(KEY_Q).remove(KEY_F).remove(KEY_R).remove(KEY_H)
            } else {
                j
            }
            &&& a.fire == (live && j.contains(KEY_F))
            &&& a.report_time == (live && j.contains(KEY_R))
            &&& exists|mid: Seq<PlayerRuntimeState>|
                #[trigger] grenade_key_went(live, j, old(players)@, mid, a.grenade_thrown, line_view(a.grenade_line))
                    && heal_key_went(live, j, mid, final(players)@, a.heal_overflow, line_view(a.heal_line))
        }),
{
    let ghost p0 = players@;
    let ghost j = input.just_pressed();
    let live = mouse_captured && !paused;
    let (thrown, grenade_line) = grenade_key(live, input, players);
    let ghost mid = players@;
    let fire = live && input.consume_key_press(KEY_F);
    let report_time = live && input.consume_key_press(KEY_R);
    let (heal_overflow, heal_line) = heal_key(live, input, players);
    let a = ActionKeys { grenade_line, grenade_thrown: thrown, fire, report_time, heal_line, heal_overflow };
    proof {
        assert(grenade_key_went(live, j, p0, mid, a.grenade_thrown, line_view(a.grenade_line)));
    }
    a
}

fn grenade_key(live: bool, input: &mut InputHandler, players: &mut Vec<PlayerRuntimeState>) -> (r: (bool, Option<String>))
    requires
        old(input).wf(),
    ensures
        final(input).wf(),
        final(input).pressed() == old(input).pressed(),
        final(input).typed() == old(input).typed(),
        final(input).just_pressed() == if live { old(input).just_pressed().remove(KEY_Q) } else { old(input).just_pressed() },
        grenade_key_went(live, old(input).just_pressed(), old(players)@, final(players)@, r.0, line_view(r.1)),
{
    if live && input.consume_key_press(KEY_Q) {
        let thrown = throw_local_grenade(players);
        (thrown, Some(if thrown { "THREW GRENADE".to_owned() } else { "NO GRENADES".to_owned() }))
    } else {
        (false, None)
    }
}

fn heal_key(live: bool, input: &mut InputHandler, players: &mut Vec<PlayerRuntimeState>) -> (r: (bool, Option<String>))
    requires
        old(input).wf(),
    ensures
        final(input).wf(),
        final(input).pressed() == old(input).pressed(),
        final(input).typed() == old(input).typed(),
        final(input).just_pressed() == if live { old(input).just_pressed().remove(KEY_H) } else { old(input).just_pressed() },
        heal_key_went(live, old(input).just_pressed(), old(players)@, final(players)@, r.0, line_view(r.1)),
{
    if live && input.consume_key_press(KEY_H) {
        if medkit_would_overflow(players) {
            (true, None)
        } else {
            (false, use_local_medkit(players))
        }
    } else {
        (false, None)
    }
}

} // verus!
