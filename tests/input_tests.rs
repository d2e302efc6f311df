use collision_core::assets::{PlayersAnimations, TextureName};
use collision_core::control_flow::FlowState;
use collision_core::input::{Input, Keys, KEY_COUNT};
use collision_core::interfaces::Initializable;

fn pressed(keys: &[Keys]) -> Vec<bool> {
    let mut states = vec![false; KEY_COUNT];
    for key in keys {
        states[key.index()] = true;
    }
    states
}

#[test]
fn initialize_creates_one_slot_per_key() {
    let mut input = Input::new();
    assert_eq!(input.key_count(), 0);
    input.initialize();
    assert_eq!(input.key_count(), KEY_COUNT);
    input.initialize();
    assert_eq!(input.key_count(), KEY_COUNT);
}

#[test]
fn keys_start_released() {
    let mut input = Input::new();
    input.initialize();
    for key in [Keys::Left, Keys::Right, Keys::Up, Keys::Down, Keys::Enter, Keys::Esc] {
        assert!(!input.is_pressed(key));
        assert!(!input.just_pressed(key));
    }
}

#[test]
fn just_pressed_holds_for_one_tick() {
    let mut input = Input::new();
    input.initialize();
    input.update(&pressed(&[Keys::Up, Keys::Enter]));
    assert!(input.is_pressed(Keys::Up));
    assert!(input.just_pressed(Keys::Up));
    assert!(input.just_pressed(Keys::Enter));
    assert!(!input.is_pressed(Keys::Down));

    input.update(&pressed(&[Keys::Up]));
    assert!(input.is_pressed(Keys::Up));
    assert!(!input.just_pressed(Keys::Up));
    assert!(!input.is_pressed(Keys::Enter));
    assert!(!input.just_pressed(Keys::Enter));

    input.update(&pressed(&[Keys::Enter]));
    assert!(input.just_pressed(Keys::Enter));
    assert!(!input.is_pressed(Keys::Up));
}

#[test]
fn key_slots_follow_declaration_order() {
    assert_eq!(Keys::Left.index(), 0);
    assert_eq!(Keys::Esc.index(), 5);
    assert_eq!(Keys::Size.index(), KEY_COUNT);
}

#[test]
fn asset_names() {
    assert_eq!(PlayersAnimations::Idle.as_str(), "idle");
    assert_eq!(TextureName::Character, TextureName::Character);
    assert!(FlowState::Enter != FlowState::Exit);
}
