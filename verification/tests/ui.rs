use kay::ui::{
    key_pressed, key_released, KeyCombination, KeyOrButton, MouseButton, VirtualKeyCode,
    LEFT_BUTTON_CODE, MIDDLE_BUTTON_CODE, OTHER_BUTTON_BASE, RIGHT_BUTTON_CODE,
};

fn key(code: u8) -> KeyOrButton {
    KeyOrButton::Key(VirtualKeyCode { code })
}

#[test]
fn keys_and_buttons_are_stored_as_their_numbers() {
    assert_eq!(key(0).code(), 0);
    assert_eq!(key(37).code(), 37);
    assert_eq!(key(255).code(), 255);
    assert_eq!(KeyOrButton::Button(MouseButton::Left).code(), 1001);
    assert_eq!(KeyOrButton::Button(MouseButton::Middle).code(), 1002);
    assert_eq!(KeyOrButton::Button(MouseButton::Right).code(), 1003);
    assert_eq!(KeyOrButton::Button(MouseButton::Other(0)).code(), 2000);
    assert_eq!(KeyOrButton::Button(MouseButton::Other(7)).code(), 2007);
    assert_eq!(KeyOrButton::Button(MouseButton::Other(255)).code(), 2255);
    assert_eq!(
        (LEFT_BUTTON_CODE, MIDDLE_BUTTON_CODE, RIGHT_BUTTON_CODE, OTHER_BUTTON_BASE),
        (1001, 1002, 1003, 2000)
    );
}

#[test]
fn numbers_are_read_as_the_keys_and_buttons_that_are_stored_as_them() {
    assert_eq!(KeyOrButton::from_code(37), Some(key(37)));
    assert_eq!(KeyOrButton::from_code(1001), Some(KeyOrButton::Button(MouseButton::Left)));
    assert_eq!(KeyOrButton::from_code(1002), Some(KeyOrButton::Button(MouseButton::Middle)));
    assert_eq!(KeyOrButton::from_code(1003), Some(KeyOrButton::Button(MouseButton::Right)));
    assert_eq!(KeyOrButton::from_code(2009), Some(KeyOrButton::Button(MouseButton::Other(9))));
}

#[test]
fn numbers_that_nothing_is_stored_as_are_not_read() {
    for code in [256, 1000, 1004, 1999, 2256, u64::MAX] {
        assert_eq!(KeyOrButton::from_code(code), None);
    }
}

#[test]
fn every_key_and_button_is_read_back_from_its_number() {
    let mut all: Vec<KeyOrButton> = (0..=255u8).map(key).collect();
    all.extend((0..=255u8).map(|other| KeyOrButton::Button(MouseButton::Other(other))));
    all.push(KeyOrButton::Button(MouseButton::Left));
    all.push(KeyOrButton::Button(MouseButton::Middle));
    all.push(KeyOrButton::Button(MouseButton::Right));
    for one in all {
        assert_eq!(KeyOrButton::from_code(one.code()), Some(one));
    }
    for code in 0..3000u64 {
        if let Some(read) = KeyOrButton::from_code(code) {
            assert_eq!(read.code(), code);
        }
    }
}

#[test]
fn a_released_key_leaves_the_keys_that_are_down_at_its_first_place() {
    let mut keys_down = Vec::new();
    key_pressed(&mut keys_down, key(1));
    key_pressed(&mut keys_down, KeyOrButton::Button(MouseButton::Left));
    key_pressed(&mut keys_down, key(2));
    key_pressed(&mut keys_down, key(1));
    assert_eq!(keys_down.len(), 4);
    key_released(&mut keys_down, key(1));
    assert_eq!(keys_down, vec![KeyOrButton::Button(MouseButton::Left), key(2), key(1)]);
    key_released(&mut keys_down, key(9));
    key_released(&mut keys_down, KeyOrButton::Button(MouseButton::Other(1)));
    assert_eq!(keys_down.len(), 3);
    key_released(&mut keys_down, KeyOrButton::Button(MouseButton::Left));
    key_released(&mut keys_down, key(1));
    key_released(&mut keys_down, key(2));
    assert!(keys_down.is_empty());
    key_released(&mut keys_down, key(2));
    assert!(keys_down.is_empty());
}

#[test]
fn a_key_combination_lists_groups_of_keys() {
    let combination = KeyCombination { keys: vec![vec![key(1), key(2)], vec![key(3)]] };
    assert_eq!(combination.clone().keys, vec![vec![key(1), key(2)], vec![key(3)]]);
    assert_ne!(key(1), key(2));
    assert_ne!(key(1), KeyOrButton::Button(MouseButton::Other(1)));
    assert_ne!(MouseButton::Left, MouseButton::Right);
}
