use nightwriter::{
    decide, looks_like_exit, should_insert, Action, Bindings, Command, KeyPress, ModKeys, Writer,
    KEYSYM_BACKSPACE, KEYSYM_ESCAPE,
};

fn press(ctrl: bool, shift: bool, key_sym: Option<u32>, text: &str) -> KeyPress {
    KeyPress { mod_keys: ModKeys { ctrl, shift }, key_code: 9, key_sym, key_string: text.to_string() }
}

fn bindings() -> Bindings {
    Bindings::load(&vec![("C-S-x".to_string(), vec!["bash echo hi".to_string()])]).unwrap()
}

#[test]
fn bound_shortcut_runs_its_command() {
    let r = decide(&press(true, true, Some('x' as u32), "\u{18}"), &bindings());
    match r {
        Action::RunCommands(cs) => {
            assert_eq!(cs.len(), 1);
            match &cs[0] {
                Command::Bash(s) => assert_eq!(s, "echo hi"),
            }
        }
        other => panic!("unexpected {:?}", other),
    }
}

#[test]
fn unbound_modifiers_do_not_run_the_command() {
    let r = decide(&press(true, false, Some('x' as u32), "\u{18}"), &bindings());
    assert!(!matches!(r, Action::RunCommands(_)));
}

#[test]
fn control_shift_escape_exits() {
    let r = decide(&press(true, true, Some(KEYSYM_ESCAPE), "\u{1b}"), &bindings());
    assert!(matches!(r, Action::Exit));
    let empty = Bindings::new();
    assert!(matches!(decide(&press(true, true, Some(KEYSYM_ESCAPE), ""), &empty), Action::Exit));
}

#[test]
fn exit_does_not_depend_on_the_journal() {
    let mut w = Writer::initialize(0);
    w.append('x');
    w.delete_word();
    let exit_bound = Bindings::load(&vec![("C-S-\u{1b}".to_string(), vec!["bash no".to_string()])]).unwrap();
    assert!(matches!(decide(&press(true, true, Some(KEYSYM_ESCAPE), "\u{1b}"), &exit_bound), Action::Exit));
}

#[test]
fn plain_escape_gives_a_hint() {
    assert!(matches!(decide(&press(false, false, Some(KEYSYM_ESCAPE), "\u{1b}"), &bindings()), Action::ExitHint));
    assert!(matches!(decide(&press(true, false, Some(KEYSYM_ESCAPE), ""), &bindings()), Action::ExitHint));
}

#[test]
fn control_c_gives_a_hint() {
    for t in &["\u{3}", "\u{4}", "\u{1c}", "\u{1a}"] {
        assert!(matches!(decide(&press(true, false, None, t), &bindings()), Action::ExitHint));
    }
}

#[test]
fn backspace_deletes() {
    assert!(matches!(decide(&press(false, false, Some(KEYSYM_BACKSPACE), "\u{8}"), &bindings()), Action::DeleteChar));
    assert!(matches!(decide(&press(true, false, Some(KEYSYM_BACKSPACE), "\u{8}"), &bindings()), Action::DeleteWord));
}

#[test]
fn carriage_return_inserts_newline() {
    match decide(&press(false, false, Some(0xff0d), "\r"), &bindings()) {
        Action::Insert(cs) => {
            assert_eq!(cs, vec!['\n']);
            let mut w = Writer::initialize(0);
            assert_eq!(w.append(cs[0]), vec![b'\n']);
            assert_eq!(w.file_len(), 1);
        }
        other => panic!("unexpected {:?}", other),
    }
}

#[test]
fn typed_text_is_inserted_without_control_characters() {
    match decide(&press(false, false, None, "a\u{1}\tb\u{85}é"), &bindings()) {
        Action::Insert(cs) => assert_eq!(cs, vec!['a', '\t', 'b', 'é']),
        other => panic!("unexpected {:?}", other),
    }
}

#[test]
fn key_without_text_is_ignored() {
    assert!(matches!(decide(&press(false, true, Some(0xffe1), ""), &bindings()), Action::Ignore));
}

#[test]
fn should_insert_filters_control_characters() {
    assert!(should_insert('a'));
    assert!(should_insert('\r'));
    assert!(should_insert('\t'));
    assert!(should_insert(' '));
    assert!(!should_insert('\u{1}'));
    assert!(!should_insert('\n'));
    assert!(!should_insert('\u{7f}'));
    assert!(!should_insert('\u{9f}'));
    assert!(should_insert('\u{a0}'));
}

#[test]
fn looks_like_exit_cases() {
    assert!(looks_like_exit(&"\u{3}".to_string(), &None));
    assert!(looks_like_exit(&String::new(), &Some(KEYSYM_ESCAPE)));
    assert!(!looks_like_exit(&"\u{3}\u{3}".to_string(), &None));
    assert!(!looks_like_exit(&"c".to_string(), &Some('c' as u32)));
}
