use neosurv::ui::chat::ChatState;
use neosurv::ui::modes::{CursorCommand, EscapeOutcome, UiModeState};

fn playing() -> UiModeState {
    UiModeState {
        mouse_captured: true,
        menu_open: false,
        primary_fire_requested: false,
    }
}

#[test]
fn escape_closes_chat_without_forcing_menu_open() {
    let mut modes = playing();
    let mut chat = ChatState::new();
    chat.open();

    let outcome = modes.handle_escape_action(&mut chat, false);

    assert_eq!(outcome, EscapeOutcome::ClosedChat);
    assert!(!chat.is_open());
    assert!(!modes.menu_open);
    assert!(modes.mouse_captured);
}

#[test]
fn open_menu_closes_chat_and_clears_pending_fire() {
    let mut modes = playing();
    modes.primary_fire_requested = true;
    let mut chat = ChatState::new();
    chat.open();

    modes.open_menu(&mut chat, false);

    assert!(modes.menu_open);
    assert!(!modes.mouse_captured);
    assert!(!chat.is_open());
    assert!(!modes.primary_fire_requested);
}

#[test]
fn capture_toggle_is_ignored_while_chat_is_open() {
    let mut modes = playing();
    let mut chat = ChatState::new();
    chat.open();

    let command = modes.handle_capture_toggle(&chat, false);

    assert_eq!(command, CursorCommand::Keep);
    assert!(chat.is_open());
    assert!(!modes.menu_open);
    assert!(modes.mouse_captured);
}

#[test]
fn escape_without_chat_opens_menu_and_releases_cursor() {
    let mut modes = playing();
    let mut chat = ChatState::new();
    let outcome = modes.handle_escape_action(&mut chat, true);
    assert_eq!(outcome, EscapeOutcome::OpenedMenu(CursorCommand::Release));
    assert!(modes.menu_open);
    assert!(!modes.mouse_captured);
}

#[test]
fn capture_with_window_waits_for_grab() {
    let mut modes = UiModeState::new();
    assert!(modes.menu_open);
    let command = modes.set_mouse_captured(true, true);
    assert_eq!(command, CursorCommand::Grab);
    assert!(!modes.mouse_captured);
    modes.finish_grab(true);
    assert!(modes.mouse_captured);
    assert!(!modes.menu_open);
}

#[test]
fn capture_without_window_is_immediate() {
    let mut modes = UiModeState::new();
    let command = modes.set_mouse_captured(true, false);
    assert_eq!(command, CursorCommand::Keep);
    assert!(modes.mouse_captured);
    assert!(!modes.menu_open);
}

#[test]
fn primary_button_requests_fire_only_while_playing() {
    let mut modes = playing();
    let chat = ChatState::new();
    modes.register_button_press(1, &chat);
    assert!(!modes.primary_fire_requested);
    modes.register_button_press(0, &chat);
    assert!(modes.primary_fire_requested);

    let mut menu = UiModeState::new();
    menu.register_button_press(0, &chat);
    assert!(!menu.primary_fire_requested);
}

#[test]
fn a_click_in_the_menu_captures_the_mouse_and_fires_without_a_window() {
    let mut modes = UiModeState::new();
    let chat = ChatState::new();
    let c = modes.primary_click(&chat, false);
    assert_eq!(c, CursorCommand::Keep);
    assert!(modes.mouse_captured);
    assert!(!modes.menu_open);
    assert!(modes.primary_fire_requested);
}

#[test]
fn a_click_with_a_window_waits_for_the_grab() {
    let mut modes = UiModeState::new();
    let chat = ChatState::new();
    let c = modes.primary_click(&chat, true);
    assert_eq!(c, CursorCommand::Grab);
    assert!(!modes.primary_fire_requested);
    modes.finish_grab(true);
    modes.register_button_press(0, &chat);
    assert!(modes.primary_fire_requested);
}

#[test]
fn a_click_is_ignored_while_the_chat_is_open() {
    let mut modes = UiModeState::new();
    let mut chat = ChatState::new();
    chat.open();
    let c = modes.primary_click(&chat, false);
    assert_eq!(c, CursorCommand::Keep);
    assert_eq!(modes, UiModeState::new());
}
