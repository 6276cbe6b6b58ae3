use cubetracer::input::{KeyState, KeyboardInput, MouseButton, StateChange, WinInput};

#[test]
fn fresh_input_has_nothing_pressed_or_changed() {
    let mut input = WinInput::new();
    assert!(!input.is_pressed(0));
    assert!(!input.is_pressed(42));
    assert!(!input.is_button_pressed(MouseButton::Left));
    assert!(!input.updated(StateChange::Keyboard));
    assert!(!input.updated(StateChange::MouseButton));
    assert!(!input.updated(StateChange::MouseScroll));
    assert!(!input.updated(StateChange::MouseMotion));
}

#[test]
fn default_matches_new() {
    let mut input = WinInput::default();
    assert!(!input.is_pressed(7));
    assert!(!input.updated(StateChange::Keyboard));
}

#[test]
fn keyboard_press_is_seen_once() {
    let mut input = WinInput::new();
    input.on_keyboard_input(KeyboardInput {
        virtual_keycode: Some(5),
        state: KeyState::Pressed,
    });
    assert!(input.is_pressed(5));
    assert!(!input.is_pressed(6));
    // the change flag reports once, then clears
    assert!(input.updated(StateChange::Keyboard));
    assert!(!input.updated(StateChange::Keyboard));
}

#[test]
fn repeated_keyboard_state_does_not_flag_a_change() {
    let mut input = WinInput::new();
    input.on_keyboard_input(KeyboardInput {
        virtual_keycode: Some(5),
        state: KeyState::Pressed,
    });
    assert!(input.updated(StateChange::Keyboard));
    // same key, same state: nothing changed
    input.on_keyboard_input(KeyboardInput {
        virtual_keycode: Some(5),
        state: KeyState::Pressed,
    });
    assert!(!input.updated(StateChange::Keyboard));
    // releasing is a change again
    input.on_keyboard_input(KeyboardInput {
        virtual_keycode: Some(5),
        state: KeyState::Released,
    });
    assert!(!input.is_pressed(5));
    assert!(input.updated(StateChange::Keyboard));
}

#[test]
fn unresolved_keycode_is_ignored() {
    let mut input = WinInput::new();
    input.on_keyboard_input(KeyboardInput { virtual_keycode: None, state: KeyState::Pressed });
    assert!(!input.updated(StateChange::Keyboard));
}

#[test]
fn mouse_buttons_track_their_own_slots() {
    let mut input = WinInput::new();
    input.on_mouse_input(MouseButton::Right, KeyState::Pressed);
    assert!(input.is_button_pressed(MouseButton::Right));
    assert!(!input.is_button_pressed(MouseButton::Middle));
    assert!(input.updated(StateChange::MouseButton));
    assert!(!input.updated(StateChange::MouseButton));

    input.on_mouse_input(MouseButton::Other(7), KeyState::Pressed);
    assert!(input.is_button_pressed(MouseButton::Other(7)));
    assert!(input.updated(StateChange::MouseButton));

    // same state again: no new change
    input.on_mouse_input(MouseButton::Other(7), KeyState::Pressed);
    assert!(!input.updated(StateChange::MouseButton));
}

#[test]
fn scroll_and_motion_flags_are_set_by_the_window_layer() {
    let mut input = WinInput::new();
    input.set_state_updated(StateChange::MouseScroll);
    input.set_state_updated(StateChange::MouseMotion);
    assert!(input.updated(StateChange::MouseScroll));
    assert!(!input.updated(StateChange::MouseScroll));
    assert!(input.updated(StateChange::MouseMotion));
    // the keyboard flag was never touched
    assert!(!input.updated(StateChange::Keyboard));
}
