use neosurv::input::InputHandler;

const KEY_W: u32 = 1;
const KEY_S: u32 = 2;
const KEY_A: u32 = 3;
const KEY_D: u32 = 4;

#[test]
fn a_key_press_is_consumed_once() {
    let mut input = InputHandler::new();
    input.key_event(KEY_W, true);
    assert!(input.is_key_pressed(KEY_W));
    assert!(input.consume_key_press(KEY_W));
    assert!(!input.consume_key_press(KEY_W));
    // held keys repeating do not count as fresh presses
    input.key_event(KEY_W, true);
    assert!(!input.consume_key_press(KEY_W));
    input.key_event(KEY_W, false);
    assert!(!input.is_key_pressed(KEY_W));
    input.key_event(KEY_W, true);
    assert!(input.consume_key_press(KEY_W));
}

#[test]
fn releasing_a_key_forgets_an_unconsumed_press() {
    let mut input = InputHandler::new();
    input.key_event(KEY_A, true);
    input.key_event(KEY_A, false);
    assert!(!input.consume_key_press(KEY_A));
}

#[test]
fn typed_text_drops_control_characters() {
    let mut input = InputHandler::new();
    input.text_event("hi\u{8}");
    input.text_event("\r!");
    assert_eq!(input.take_typed_text(), "hi!");
    assert_eq!(input.take_typed_text(), "");
}

#[test]
fn movement_axis_follows_held_keys() {
    let mut input = InputHandler::new();
    assert_eq!(input.movement_axis(KEY_W, KEY_S, KEY_A, KEY_D), (0, 0));
    input.key_event(KEY_W, true);
    input.key_event(KEY_D, true);
    assert_eq!(input.movement_axis(KEY_W, KEY_S, KEY_A, KEY_D), (1, -1));
    input.key_event(KEY_S, true);
    input.key_event(KEY_A, true);
    assert_eq!(input.movement_axis(KEY_W, KEY_S, KEY_A, KEY_D), (0, 0));
    input.clear();
    assert!(!input.is_key_pressed(KEY_S));
    assert_eq!(input.movement_axis(KEY_W, KEY_S, KEY_A, KEY_D), (0, 0));
}
