use cacao_engine::{GamepadButton, InputButton, InputManager, KeyCode, MouseBtn};

#[test]
fn key_edges_are_tracked_and_cleared_once_per_tick() {
    let mut input = InputManager::new();
    input.on_key_event(KeyCode::Space, true);
    assert!(input.is_key_pressed(KeyCode::Space));
    assert!(input.is_key_just_pressed(KeyCode::Space));
    input.update();
    assert!(input.is_key_pressed(KeyCode::Space));
    assert!(!input.is_key_just_pressed(KeyCode::Space));
    input.on_key_event(KeyCode::Space, false);
    assert!(!input.is_key_pressed(KeyCode::Space));
    assert!(input.is_key_just_released(KeyCode::Space));
    input.update();
    assert!(!input.is_key_just_released(KeyCode::Space));
}

#[test]
fn action_is_pressed_when_any_bound_button_is() {
    let mut input = InputManager::new();
    input.map_input(
        "fire".to_string(),
        vec![
            InputButton::Key(KeyCode::Space),
            InputButton::Mouse(MouseBtn::Left),
            InputButton::Gamepad(GamepadButton::A),
        ],
    );
    assert!(!input.is_action_pressed("fire"));
    input.on_key_event(KeyCode::Space, true);
    assert!(input.is_action_pressed("fire"));
    assert!(input.is_action_just_pressed("fire"));
    input.update();
    assert!(input.is_action_pressed("fire"));
    assert!(!input.is_action_just_pressed("fire"));
    input.on_key_event(KeyCode::Space, false);
    assert!(!input.is_action_pressed("fire"));
    assert!(input.is_action_just_released("fire"));
    assert!(!input.is_action_pressed("unmapped"));
}

#[test]
fn default_mappings_cover_the_standard_actions() {
    let mut input = InputManager::new();
    input.setup_default_mappings();
    input.on_key_event(KeyCode::W, true);
    assert!(input.is_action_pressed("move_up"));
    input.on_key_event(KeyCode::W, false);
    input.on_key_event(KeyCode::Up, true);
    assert!(input.is_action_pressed("move_up"));
    input.on_key_event(KeyCode::Escape, true);
    assert!(input.is_action_pressed("cancel"));
    assert!(!input.is_action_pressed("jump"));
}

#[test]
fn mappings_can_be_replaced_and_removed() {
    let mut input = InputManager::new();
    input.map_input("go".to_string(), vec![InputButton::Key(KeyCode::A)]);
    input.on_key_event(KeyCode::A, true);
    assert!(input.is_action_pressed("go"));
    input.map_input("go".to_string(), vec![InputButton::Key(KeyCode::B)]);
    assert!(!input.is_action_pressed("go"));
    input.remove_input_mapping("go");
    assert!(!input.is_action_pressed("go"));
    input.map_input("go".to_string(), vec![InputButton::Key(KeyCode::A)]);
    input.clear_input_map();
    assert!(!input.is_action_pressed("go"));
    assert_eq!(input.get_pressed_keys(), vec![KeyCode::A]);
}
