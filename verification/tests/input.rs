use navagfx_engine::application::input::Input;
use navagfx_engine::application::input::KeyboardInput;
use navagfx_engine::application::input::KeyboardKey;
use navagfx_engine::application::input::KeyboardKeyState;
use navagfx_engine::keyed::KeyMap;
use winit::keyboard::KeyCode;

#[test]
fn nothing_is_pressed_on_a_new_keyboard() {
    let keyboard = KeyboardInput::new();
    assert!(!keyboard.is_key_pressed(KeyboardKey::Code(KeyCode::KeyA)));
    assert!(!keyboard.is_key_released(KeyboardKey::Code(KeyCode::KeyA)));
    assert!(!keyboard.is_key_pressed(KeyboardKey::Symbol('a')));
    let input = Input::new();
    assert!(!input.keyboard_input.is_key_pressed(KeyboardKey::Code(KeyCode::Escape)));
}

#[test]
fn a_pressed_key_is_pressed_until_it_is_reported_anew() {
    let mut keyboard = KeyboardInput::new();
    keyboard.set_key_state(KeyCode::KeyW, Some('w'), KeyboardKeyState::Pressed);
    assert!(keyboard.is_key_pressed(KeyboardKey::Code(KeyCode::KeyW)));
    assert!(!keyboard.is_key_released(KeyboardKey::Code(KeyCode::KeyW)));
    keyboard.set_released_keys_to_idle();
    keyboard.set_released_keys_to_idle();
    assert!(keyboard.is_key_pressed(KeyboardKey::Code(KeyCode::KeyW)));
    keyboard.set_key_state(KeyCode::KeyW, Some('w'), KeyboardKeyState::Released);
    assert!(!keyboard.is_key_pressed(KeyboardKey::Code(KeyCode::KeyW)));
    assert!(keyboard.is_key_released(KeyboardKey::Code(KeyCode::KeyW)));
}

#[test]
fn a_released_key_is_released_for_one_event() {
    let mut keyboard = KeyboardInput::new();
    keyboard.set_key_state(KeyCode::Space, None, KeyboardKeyState::Pressed);
    keyboard.set_key_state(KeyCode::Space, None, KeyboardKeyState::Released);
    assert!(keyboard.is_key_released(KeyboardKey::Code(KeyCode::Space)));
    keyboard.set_released_keys_to_idle();
    assert!(!keyboard.is_key_released(KeyboardKey::Code(KeyCode::Space)));
    assert!(!keyboard.is_key_pressed(KeyboardKey::Code(KeyCode::Space)));
}

#[test]
fn settling_touches_released_keys_only() {
    let mut keyboard = KeyboardInput::new();
    keyboard.set_key_state(KeyCode::KeyA, Some('a'), KeyboardKeyState::Pressed);
    keyboard.set_key_state(KeyCode::KeyB, Some('b'), KeyboardKeyState::Released);
    keyboard.set_key_state(KeyCode::KeyC, Some('c'), KeyboardKeyState::Idle);
    keyboard.set_released_keys_to_idle();
    assert!(keyboard.is_key_pressed(KeyboardKey::Code(KeyCode::KeyA)));
    assert!(!keyboard.is_key_released(KeyboardKey::Code(KeyCode::KeyB)));
    assert!(!keyboard.is_key_pressed(KeyboardKey::Code(KeyCode::KeyB)));
    assert!(!keyboard.is_key_pressed(KeyboardKey::Code(KeyCode::KeyC)));
}

#[test]
fn a_key_can_be_asked_for_by_the_character_it_typed() {
    let mut keyboard = KeyboardInput::new();
    keyboard.set_key_state(KeyCode::KeyQ, Some('q'), KeyboardKeyState::Pressed);
    assert!(keyboard.is_key_pressed(KeyboardKey::Symbol('q')));
    assert!(!keyboard.is_key_pressed(KeyboardKey::Symbol('Q')));
    keyboard.set_key_state(KeyCode::KeyQ, None, KeyboardKeyState::Released);
    assert!(keyboard.is_key_released(KeyboardKey::Symbol('q')));
}

#[test]
fn a_character_names_the_key_that_typed_it_last() {
    let mut keyboard = KeyboardInput::new();
    keyboard.set_key_state(KeyCode::KeyZ, Some('y'), KeyboardKeyState::Pressed);
    keyboard.set_key_state(KeyCode::KeyZ, Some('y'), KeyboardKeyState::Released);
    keyboard.set_key_state(KeyCode::KeyY, Some('y'), KeyboardKeyState::Pressed);
    assert!(keyboard.is_key_pressed(KeyboardKey::Symbol('y')));
    assert!(!keyboard.is_key_released(KeyboardKey::Symbol('y')));
    assert!(keyboard.is_key_released(KeyboardKey::Code(KeyCode::KeyZ)));
}

#[test]
fn keys_are_kept_apart() {
    let mut keyboard = KeyboardInput::new();
    keyboard.set_key_state(KeyCode::ArrowLeft, None, KeyboardKeyState::Pressed);
    assert!(!keyboard.is_key_pressed(KeyboardKey::Code(KeyCode::ArrowRight)));
    keyboard.set_key_state(KeyCode::ArrowRight, None, KeyboardKeyState::Pressed);
    keyboard.set_key_state(KeyCode::ArrowLeft, None, KeyboardKeyState::Released);
    assert!(keyboard.is_key_pressed(KeyboardKey::Code(KeyCode::ArrowRight)));
    assert!(keyboard.is_key_released(KeyboardKey::Code(KeyCode::ArrowLeft)));
}

#[test]
fn a_key_map_keeps_the_last_value_of_each_key() {
    let mut map: KeyMap<u32, &str> = KeyMap::new();
    assert!(map.is_empty());
    assert!(!map.insert(1, "one"));
    assert!(!map.insert(2, "two"));
    assert!(map.insert(1, "uno"));
    assert!(!map.is_empty());
    assert_eq!(map.get(&1), Some(&"uno"));
    assert_eq!(map.get(&2), Some(&"two"));
    assert_eq!(map.get(&3), None);
    assert!(map.contains_key(&2));
    assert!(!map.contains_key(&3));
    if let Some(value) = map.get_mut(&2) {
        *value = "zwei";
    }
    assert_eq!(map.get(&2), Some(&"zwei"));
    assert!(map.get_mut(&9).is_none());
    map.map_values(|value| if value == "uno" { "eins" } else { value });
    assert_eq!(map.get(&1), Some(&"eins"));
    assert_eq!(map.get(&2), Some(&"zwei"));
}

#[test]
fn a_key_map_of_characters() {
    let mut map: KeyMap<char, u8> = KeyMap::new();
    map.insert('a', 1);
    map.insert('b', 2);
    map.map_values(|value| value * 10);
    assert_eq!(map.get(&'a'), Some(&10));
    assert_eq!(map.get(&'b'), Some(&20));
    assert_eq!(map.get(&'c'), None);
}
