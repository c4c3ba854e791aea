use nightwriter::{ConfigError, KeyboardShortcut, ModKeys};

fn shortcut(ctrl: bool, shift: bool, key: char) -> KeyboardShortcut {
    KeyboardShortcut { mod_keys: ModKeys { ctrl, shift }, key }
}

#[test]
fn decode_control_shift_c() {
    let k = KeyboardShortcut::decode("C-S-c").unwrap();
    assert_eq!(k, shortcut(true, true, 'c'));
}

#[test]
fn control_shift_c_round_trips() {
    let k = KeyboardShortcut::decode("C-S-c").unwrap();
    assert_eq!(k.encode(), "C-S-c");
}

#[test]
fn shift_before_control_decodes_equal() {
    let a = KeyboardShortcut::decode("S-C-c").unwrap();
    let b = KeyboardShortcut::decode("C-S-c").unwrap();
    assert_eq!(a, b);
    assert_eq!(a.encode(), "C-S-c");
}

#[test]
fn bare_character_decodes() {
    assert_eq!(KeyboardShortcut::decode("c").unwrap(), shortcut(false, false, 'c'));
    assert_eq!(KeyboardShortcut::decode("C").unwrap(), shortcut(false, false, 'C'));
}

#[test]
fn double_dash_is_the_dash_key() {
    assert_eq!(KeyboardShortcut::decode("--").unwrap(), shortcut(false, false, '-'));
}

#[test]
fn control_dash_decodes() {
    let k = KeyboardShortcut::decode("C--").unwrap();
    assert_eq!(k, shortcut(true, false, '-'));
    assert_eq!(k.encode(), "C--");
}

#[test]
fn dash_key_round_trips_without_modifiers() {
    let k = shortcut(false, false, '-');
    assert_eq!(k.encode(), "-");
    assert_eq!(KeyboardShortcut::decode(&k.encode()).unwrap(), k);
}

#[test]
fn every_modifier_set_round_trips() {
    for &key in &['a', 'Z', '-', 'é', '7', 'C', 'S'] {
        for &ctrl in &[false, true] {
            for &shift in &[false, true] {
                let k = shortcut(ctrl, shift, key);
                assert_eq!(KeyboardShortcut::decode(&k.encode()).unwrap(), k);
            }
        }
    }
}

#[test]
fn encode_puts_control_first() {
    assert_eq!(shortcut(true, true, 'x').encode(), "C-S-x");
    assert_eq!(shortcut(false, true, 'x').encode(), "S-x");
    assert_eq!(shortcut(true, false, 'x').encode(), "C-x");
    assert_eq!(shortcut(false, false, 'x').encode(), "x");
}

#[test]
fn unknown_modifier_is_rejected() {
    match KeyboardShortcut::decode("M-c") {
        Err(ConfigError::InvalidModifier(m)) => assert_eq!(m, "M"),
        other => panic!("unexpected {:?}", other),
    }
    match KeyboardShortcut::decode("C-Ctrl-x-c") {
        Err(ConfigError::InvalidModifier(m)) => assert_eq!(m, "Ctrl"),
        other => panic!("unexpected {:?}", other),
    }
}

#[test]
fn long_key_is_rejected() {
    match KeyboardShortcut::decode("C-ab") {
        Err(ConfigError::InvalidKey(k)) => assert_eq!(k, "ab"),
        other => panic!("unexpected {:?}", other),
    }
    match KeyboardShortcut::decode("-ab") {
        Err(ConfigError::InvalidKey(k)) => assert_eq!(k, "ab"),
        other => panic!("unexpected {:?}", other),
    }
}

#[test]
fn empty_key_is_rejected() {
    match KeyboardShortcut::decode("") {
        Err(ConfigError::InvalidKey(k)) => assert_eq!(k, ""),
        other => panic!("unexpected {:?}", other),
    }
    match KeyboardShortcut::decode("C-") {
        Err(ConfigError::InvalidKey(k)) => assert_eq!(k, ""),
        other => panic!("unexpected {:?}", other),
    }
}

#[test]
fn multibyte_key_decodes() {
    assert_eq!(KeyboardShortcut::decode("S-é").unwrap(), shortcut(false, true, 'é'));
}
