use neosurv::commands::ChatCommand;
use neosurv::frame::{
    action_keys_step, chest_key_step, frame_input_step, menu_input_step, KEY_ARROW_DOWN, KEY_ARROW_UP, KEY_A,
    KEY_BACKSPACE, KEY_D, KEY_DIGIT1, KEY_DIGIT2, KEY_DIGIT3, KEY_DIGIT4, KEY_E, KEY_ENTER, KEY_ESCAPE, KEY_F, KEY_H,
    KEY_Q, KEY_R, KEY_SLASH, KEY_T,
};
use neosurv::gameplay::player::PlayerRuntimeState;
use neosurv::input::InputHandler;
use neosurv::ui::chat::ChatState;
use neosurv::ui::menu::{MenuCommand, StartMenuState};

fn press(input: &mut InputHandler, key: u32) {
    input.key_event(key, true);
}

fn release_all(input: &mut InputHandler, keys: &[u32]) {
    for key in keys {
        input.key_event(*key, false);
    }
}

fn lines(chat: &ChatState) -> Vec<String> {
    chat.visual_state().lines.into_iter().map(|(text, _)| text).collect()
}

#[test]
fn menu_keys_move_the_highlight_and_activate_it() {
    let mut input = InputHandler::new();
    let mut menu = StartMenuState::new();
    press(&mut input, KEY_ARROW_DOWN);
    press(&mut input, KEY_ENTER);
    let cmds = menu_input_step(true, &mut input, &mut menu);
    assert_eq!(cmds, vec![MenuCommand::CreateWorld]);
    assert_eq!(menu.selected_button(), 1);
    assert!(!input.consume_key_press(KEY_ENTER));

    release_all(&mut input, &[KEY_ARROW_DOWN, KEY_ENTER]);
    press(&mut input, KEY_A);
    press(&mut input, KEY_D);
    press(&mut input, KEY_ARROW_UP);
    let cmds = menu_input_step(true, &mut input, &mut menu);
    assert_eq!(cmds, vec![MenuCommand::SelectPreviousWorld, MenuCommand::SelectNextWorld]);
    assert_eq!(menu.selected_button(), 0);
}

#[test]
fn menu_keys_do_nothing_with_the_menu_closed() {
    let mut input = InputHandler::new();
    let mut menu = StartMenuState::new();
    press(&mut input, KEY_ENTER);
    press(&mut input, KEY_ARROW_DOWN);
    let cmds = menu_input_step(false, &mut input, &mut menu);
    assert!(cmds.is_empty());
    assert_eq!(menu.selected_button(), 0);
    assert!(input.consume_key_press(KEY_ENTER));
    assert!(input.consume_key_press(KEY_ARROW_DOWN));
}

#[test]
fn t_opens_the_chat_and_enter_runs_a_save_command() {
    let mut input = InputHandler::new();
    let mut chat = ChatState::new();
    let mut players = vec![PlayerRuntimeState::new_local()];

    press(&mut input, KEY_T);
    let a = frame_input_step(false, &mut input, &mut chat, &mut players);
    assert!(chat.is_open());
    assert!(a.paused);
    assert!(a.command.is_none());

    release_all(&mut input, &[KEY_T]);
    input.text_event("/save");
    press(&mut input, KEY_ENTER);
    let a = frame_input_step(false, &mut input, &mut chat, &mut players);
    assert!(!chat.is_open());
    assert!(a.save_requested);
    assert!(!a.load_requested);
    assert!(matches!(a.command, Some(ChatCommand::Save)));
    assert!(!a.paused);
    assert_eq!(lines(&chat), vec!["> /save".to_owned(), "WORLD SAVE REQUESTED".to_owned()]);
}

#[test]
fn slash_opens_the_chat_ready_for_a_command_and_escape_closes_it() {
    let mut input = InputHandler::new();
    let mut chat = ChatState::new();
    let mut players = vec![PlayerRuntimeState::new_local()];
    press(&mut input, KEY_SLASH);
    frame_input_step(false, &mut input, &mut chat, &mut players);
    assert!(chat.is_open());
    assert_eq!(chat.visual_state().input, "/");

    release_all(&mut input, &[KEY_SLASH]);
    input.text_event("loadx");
    press(&mut input, KEY_BACKSPACE);
    frame_input_step(false, &mut input, &mut chat, &mut players);
    assert_eq!(chat.visual_state().input, "/load");

    release_all(&mut input, &[KEY_BACKSPACE]);
    press(&mut input, KEY_ESCAPE);
    let a = frame_input_step(false, &mut input, &mut chat, &mut players);
    assert!(!chat.is_open());
    assert_eq!(chat.visual_state().input, "");
    assert!(a.command.is_none());
    assert!(!a.load_requested);
}

#[test]
fn the_chat_does_not_open_over_the_menu() {
    let mut input = InputHandler::new();
    let mut chat = ChatState::new();
    let mut players = vec![PlayerRuntimeState::new_local()];
    press(&mut input, KEY_T);
    press(&mut input, KEY_DIGIT2);
    let a = frame_input_step(true, &mut input, &mut chat, &mut players);
    assert!(!chat.is_open());
    assert!(a.paused);
    assert_eq!(players[0].inventory.selected_weapon_slot, 0);
    assert!(input.consume_key_press(KEY_T));
    assert!(input.consume_key_press(KEY_DIGIT2));
}

#[test]
fn hotbar_keys_select_heal_and_throw() {
    let mut input = InputHandler::new();
    let mut chat = ChatState::new();
    let mut players = vec![PlayerRuntimeState::new_local()];
    players[0].health = 50;
    press(&mut input, KEY_DIGIT2);
    press(&mut input, KEY_DIGIT3);
    press(&mut input, KEY_DIGIT4);
    let a = frame_input_step(false, &mut input, &mut chat, &mut players);
    assert!(!a.paused);
    assert!(a.grenade_thrown);
    assert!(!a.heal_overflow);
    assert_eq!(players[0].inventory.selected_weapon_slot, 1);
    assert_eq!(players[0].health, 85);
    assert_eq!(players[0].inventory.slots[2].stack.unwrap().count, 1);
    assert_eq!(players[0].inventory.slots[3].stack.unwrap().count, 2);
    assert_eq!(lines(&chat), vec!["USED MEDKIT HP 85".to_owned(), "THREW GRENADE".to_owned()]);

    release_all(&mut input, &[KEY_DIGIT2, KEY_DIGIT3, KEY_DIGIT4]);
    press(&mut input, KEY_DIGIT1);
    frame_input_step(false, &mut input, &mut chat, &mut players);
    assert_eq!(players[0].inventory.selected_weapon_slot, 0);
}

#[test]
fn hotbar_keys_wait_while_the_chat_is_open() {
    let mut input = InputHandler::new();
    let mut chat = ChatState::new();
    chat.open();
    let mut players = vec![PlayerRuntimeState::new_local()];
    press(&mut input, KEY_DIGIT2);
    press(&mut input, KEY_DIGIT4);
    let a = frame_input_step(false, &mut input, &mut chat, &mut players);
    assert!(a.paused);
    assert!(!a.grenade_thrown);
    assert_eq!(players[0].inventory.selected_weapon_slot, 0);
    assert_eq!(players[0].inventory.slots[3].stack.unwrap().count, 3);
    // weapon keys stay for later, the medkit and grenade keys are used up
    assert!(input.consume_key_press(KEY_DIGIT2));
    assert!(!input.consume_key_press(KEY_DIGIT4));
}

#[test]
fn a_heal_past_the_integer_range_is_reported_and_not_done() {
    let mut input = InputHandler::new();
    let mut chat = ChatState::new();
    chat.open();
    let mut players = vec![PlayerRuntimeState::new_local()];
    players[0].max_health = i32::MAX;
    players[0].health = i32::MAX - 1;
    input.text_event("/heal 5");
    press(&mut input, KEY_ENTER);
    let a = frame_input_step(false, &mut input, &mut chat, &mut players);
    assert!(a.heal_overflow);
    assert!(a.command.is_none());
    assert_eq!(players[0].health, i32::MAX - 1);

    release_all(&mut input, &[KEY_ENTER]);
    press(&mut input, KEY_DIGIT3);
    let a = frame_input_step(false, &mut input, &mut chat, &mut players);
    assert!(a.heal_overflow);
    assert_eq!(players[0].inventory.slots[2].stack.unwrap().count, 2);
}

#[test]
fn play_keys_act_only_with_the_mouse_captured() {
    let mut input = InputHandler::new();
    let mut players = vec![PlayerRuntimeState::new_local()];
    for key in [KEY_E, KEY_Q, KEY_F, KEY_R, KEY_H] {
        press(&mut input, key);
    }
    assert!(!chest_key_step(false, false, &mut input));
    let a = action_keys_step(false, false, &mut input, &mut players);
    assert!(a.grenade_line.is_none() && !a.fire && !a.report_time && a.heal_line.is_none());

    assert!(chest_key_step(true, false, &mut input));
    let a = action_keys_step(true, false, &mut input, &mut players);
    assert_eq!(a.grenade_line.as_deref(), Some("THREW GRENADE"));
    assert!(a.grenade_thrown);
    assert!(a.fire);
    assert!(a.report_time);
    assert_eq!(a.heal_line.as_deref(), Some("USED MEDKIT HP 100"));
    assert!(!a.heal_overflow);
    assert_eq!(players[0].inventory.slots[3].stack.unwrap().count, 2);
    assert_eq!(players[0].inventory.slots[2].stack.unwrap().count, 1);
    for key in [KEY_E, KEY_Q, KEY_F, KEY_R, KEY_H] {
        assert!(!input.consume_key_press(key));
    }
}

#[test]
fn play_keys_wait_while_the_game_stands_still() {
    let mut input = InputHandler::new();
    let mut players = vec![PlayerRuntimeState::new_local()];
    press(&mut input, KEY_Q);
    let a = action_keys_step(true, true, &mut input, &mut players);
    assert!(a.grenade_line.is_none());
    assert!(input.consume_key_press(KEY_Q));
}

#[test]
fn without_a_local_player_the_grenade_key_reports_none() {
    let mut input = InputHandler::new();
    let mut players: Vec<PlayerRuntimeState> = Vec::new();
    press(&mut input, KEY_Q);
    press(&mut input, KEY_H);
    let a = action_keys_step(true, false, &mut input, &mut players);
    assert_eq!(a.grenade_line.as_deref(), Some("NO GRENADES"));
    assert!(a.heal_line.is_none());
}
