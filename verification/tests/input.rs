use gui_core::{Button, InputState};

#[test]
fn nothing_is_down_at_first() {
    let state = InputState::new();
    assert!(!state.is_key_down(0));
    assert!(!state.is_scan_code_down(0));
    assert!(!state.is_mouse_button_down(0));
    assert!(!state.is_button_down(Button::Key(16)));
}

#[test]
fn keys_go_down_and_up() {
    let mut state = InputState::new();
    state.key_event(16, 24, true);
    assert!(state.is_key_down(16));
    assert!(state.is_scan_code_down(24));
    assert!(!state.is_key_down(24));
    assert!(!state.is_scan_code_down(16));
    assert!(!state.is_mouse_button_down(16));
    state.key_event(16, 24, true);
    assert!(state.is_key_down(16));
    state.key_event(17, 24, false);
    assert!(state.is_key_down(16));
    assert!(!state.is_scan_code_down(24));
    state.key_event(16, 99, false);
    assert!(!state.is_key_down(16));
}

#[test]
fn mouse_buttons_go_down_and_up() {
    let mut state = InputState::new();
    state.mouse_event(0, true);
    state.mouse_event(2, true);
    assert!(state.is_mouse_button_down(0));
    assert!(state.is_mouse_button_down(2));
    assert!(!state.is_mouse_button_down(1));
    assert!(!state.is_key_down(0));
    state.mouse_event(0, false);
    assert!(!state.is_mouse_button_down(0));
    assert!(state.is_button_down(Button::Mouse(2)));
    assert!(!state.is_button_down(Button::Key(2)));
    assert!(!state.is_button_down(Button::ScanCode(2)));
}

#[test]
fn focus_lost_releases_everything() {
    let mut state = InputState::new();
    state.key_event(1, 2, true);
    state.mouse_event(3, true);
    state.focus_lost();
    assert!(!state.is_key_down(1));
    assert!(!state.is_scan_code_down(2));
    assert!(!state.is_mouse_button_down(3));
}

#[test]
fn a_binding_needs_all_its_buttons() {
    let mut state = InputState::new();
    let binding = vec![Button::Key(29), Button::Key(16)];
    assert!(!state.is_binding_down(&binding));
    state.key_event(29, 0, true);
    assert!(!state.is_binding_down(&binding));
    state.key_event(16, 1, true);
    assert!(state.is_binding_down(&binding));
    assert!(state.is_binding_down(&Vec::new()));
    assert!(state.is_binding_down(&vec![Button::ScanCode(1)]));
    assert!(!state.is_binding_down(&vec![Button::ScanCode(1), Button::Mouse(0)]));
}

#[test]
fn an_action_needs_one_of_its_bindings() {
    let mut state = InputState::new();
    let bindings = vec![vec![Button::Key(29), Button::Key(16)], vec![Button::Mouse(1)]];
    assert!(!state.is_action_down(&bindings));
    state.key_event(29, 0, true);
    assert!(!state.is_action_down(&bindings));
    state.mouse_event(1, true);
    assert!(state.is_action_down(&bindings));
    state.mouse_event(1, false);
    state.key_event(16, 0, true);
    assert!(state.is_action_down(&bindings));
    assert!(!state.is_action_down(&Vec::new()));
    assert!(state.is_action_down(&vec![Vec::new()]));
}

#[test]
fn emulated_axis_shows_which_end_is_down() {
    let mut state = InputState::new();
    let pos = Button::Key(1);
    let neg = Button::Key(2);
    assert_eq!(state.emulated_axis_value(pos, neg), 0);
    state.key_event(1, 0, true);
    assert_eq!(state.emulated_axis_value(pos, neg), 1);
    state.key_event(2, 0, true);
    assert_eq!(state.emulated_axis_value(pos, neg), 0);
    state.key_event(1, 0, false);
    assert_eq!(state.emulated_axis_value(pos, neg), -1);
}
