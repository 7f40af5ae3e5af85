use zipchord::stream::listener::{
    find_keyboards, is_keyboard, key_transition, DeviceCaps, ListenerError, KEY_A, KEY_SPACE,
    KEY_Z,
};

fn caps(key_events: bool, keys: &[u16]) -> DeviceCaps {
    DeviceCaps { supports_key_events: key_events, supported_keys: keys.to_vec() }
}

#[test]
fn keyboard_needs_a_z_and_space() {
    assert!(is_keyboard(true, &[1, KEY_A, KEY_Z, KEY_SPACE]));
    assert!(!is_keyboard(false, &[KEY_A, KEY_Z, KEY_SPACE]));
    assert!(!is_keyboard(true, &[KEY_A, KEY_Z]));
    assert!(!is_keyboard(true, &[]));
}

#[test]
fn finds_keyboards_in_order() {
    let devices = vec![
        caps(true, &[113, 114, 115]),
        caps(true, &[KEY_SPACE, KEY_Z, KEY_A]),
        caps(false, &[KEY_SPACE, KEY_Z, KEY_A]),
        caps(true, &[KEY_A, KEY_Z, KEY_SPACE, 1]),
    ];
    assert_eq!(find_keyboards(&devices), Ok(vec![1, 3]));
}

#[test]
fn no_keyboard_is_an_error() {
    let devices = vec![caps(true, &[113, 114, 115])];
    assert_eq!(find_keyboards(&devices), Err(ListenerError::NoKeyboardFound));
    assert_eq!(find_keyboards(&[]), Err(ListenerError::NoKeyboardFound));
}

#[test]
fn key_values() {
    assert_eq!(key_transition(1), Some(true));
    assert_eq!(key_transition(0), Some(false));
    assert_eq!(key_transition(2), None);
    assert_eq!(key_transition(-1), None);
}
