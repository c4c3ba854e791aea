use nightwriter::{default_config, Bindings, Command, Config, ConfigError, KeyboardShortcut, ModKeys, RawConfig};

fn bash_body(c: &Command) -> String {
    match c {
        Command::Bash(s) => s.clone(),
    }
}

fn raw(entries: &[(&str, &[&str])]) -> Vec<(String, Vec<String>)> {
    entries
        .iter()
        .map(|(k, cs)| (k.to_string(), cs.iter().map(|c| c.to_string()).collect()))
        .collect()
}

#[test]
fn bash_command_parses() {
    let c = Command::parse("bash echo hi").unwrap();
    assert_eq!(bash_body(&c), "echo hi");
    assert_eq!(c.encode(), "bash echo hi");
}

#[test]
fn bash_body_is_kept_verbatim() {
    let c = Command::parse("bash  a  b ").unwrap();
    assert_eq!(bash_body(&c), " a  b ");
    let empty = Command::parse("bash ").unwrap();
    assert_eq!(bash_body(&empty), "");
}

#[test]
fn unknown_command_kind_is_rejected() {
    for text in &["sh echo hi", "bash", "", "bashecho", "Bash echo"] {
        match Command::parse(text) {
            Err(ConfigError::UnknownCommandKind(t)) => assert_eq!(&t, text),
            other => panic!("unexpected {:?}", other),
        }
    }
}

#[test]
fn bindings_resolve_loaded_commands() {
    let b = Bindings::load(&raw(&[("C-S-x", &["bash echo hi"]), ("C-y", &["bash a", "bash b"])])).unwrap();
    let k = KeyboardShortcut { mod_keys: ModKeys { ctrl: true, shift: true }, key: 'x' };
    let cs = b.resolve(&k).unwrap();
    assert_eq!(cs.len(), 1);
    assert_eq!(bash_body(&cs[0]), "echo hi");
    let y = KeyboardShortcut { mod_keys: ModKeys { ctrl: true, shift: false }, key: 'y' };
    let ys = b.resolve(&y).unwrap();
    assert_eq!(ys.iter().map(bash_body).collect::<Vec<_>>(), vec!["a", "b"]);
    let z = KeyboardShortcut { mod_keys: ModKeys { ctrl: true, shift: false }, key: 'z' };
    assert!(b.resolve(&z).is_none());
}

#[test]
fn later_duplicate_binding_wins() {
    let b = Bindings::load(&raw(&[("C-S-x", &["bash first"]), ("S-C-x", &["bash second"])])).unwrap();
    let k = KeyboardShortcut { mod_keys: ModKeys { ctrl: true, shift: true }, key: 'x' };
    let cs = b.resolve(&k).unwrap();
    assert_eq!(bash_body(&cs[0]), "second");
}

#[test]
fn bad_binding_key_fails_the_load() {
    match Bindings::load(&raw(&[("C-x", &["bash ok"]), ("Q-x", &["bash ok"])])) {
        Err(ConfigError::InvalidModifier(m)) => assert_eq!(m, "Q"),
        Ok(_) => panic!("loaded"),
        Err(e) => panic!("unexpected {:?}", e),
    }
}

#[test]
fn bad_binding_command_fails_the_load() {
    match Bindings::load(&raw(&[("C-x", &["bash ok", "zsh no"])])) {
        Err(ConfigError::UnknownCommandKind(c)) => assert_eq!(c, "zsh no"),
        Ok(_) => panic!("loaded"),
        Err(e) => panic!("unexpected {:?}", e),
    }
}

#[test]
fn empty_bindings_resolve_nothing() {
    let b = Bindings::new();
    let k = KeyboardShortcut { mod_keys: ModKeys { ctrl: false, shift: false }, key: 'a' };
    assert!(b.resolve(&k).is_none());
}

#[test]
fn default_config_sets_nothing() {
    let c = default_config();
    assert!(c.output_file_template.is_none());
    assert!(c.on_start.is_none());
    assert!(c.on_end.is_none());
    assert!(c.bindings.is_none());
    assert_eq!(c.output_template(), "night-%Y-%m-%d");
}

#[test]
fn raw_config_loads() {
    let c = Config::from_raw(RawConfig {
        output_file_template: Some("journal-%F".to_string()),
        on_start: Some("bash echo start".to_string()),
        on_end: None,
        bindings: Some(raw(&[("C-S-x", &["bash echo hi"])])),
    })
    .unwrap();
    assert_eq!(c.output_template(), "journal-%F");
    assert_eq!(bash_body(c.on_start.as_ref().unwrap()), "echo start");
    assert!(c.on_end.is_none());
    let k = KeyboardShortcut { mod_keys: ModKeys { ctrl: true, shift: true }, key: 'x' };
    assert!(c.bindings.unwrap().resolve(&k).is_some());
}

#[test]
fn raw_config_reports_first_error() {
    let r = Config::from_raw(RawConfig {
        output_file_template: None,
        on_start: Some("bash fine".to_string()),
        on_end: Some("python nope".to_string()),
        bindings: Some(raw(&[("X-y", &["bash echo"])])),
    });
    match r {
        Err(ConfigError::UnknownCommandKind(c)) => assert_eq!(c, "python nope"),
        Ok(_) => panic!("loaded"),
        Err(e) => panic!("unexpected {:?}", e),
    }
}

#[test]
fn error_message_names_the_text() {
    let e = KeyboardShortcut::decode("M-c").unwrap_err();
    assert!(e.message().ends_with(": M"));
}
