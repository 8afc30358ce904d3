use nemux::config::{parse_keybind, Config, KeyCode, KeyModifiers, Keybindings};

#[test]
fn parses_simple_char() {
    let kb = parse_keybind("Alt+c").unwrap();
    assert_eq!(kb.code, KeyCode::Char('c'));
    assert_eq!(kb.modifiers, KeyModifiers::alt());
}

#[test]
fn parses_multiple_modifiers() {
    let kb = parse_keybind("Ctrl+Shift+n").unwrap();
    assert_eq!(kb.code, KeyCode::Char('n'));
    assert!(kb.modifiers.contains(KeyModifiers::control()));
    assert!(kb.modifiers.contains(KeyModifiers::shift()));
}

#[test]
fn parses_named_keys() {
    assert_eq!(parse_keybind("Alt+Right").unwrap().code, KeyCode::Right);
    assert_eq!(parse_keybind("F2").unwrap().code, KeyCode::F(2));
    assert_eq!(parse_keybind("Alt+/").unwrap().code, KeyCode::Char('/'));
}

#[test]
fn rejects_empty_and_garbage() {
    assert!(parse_keybind("").is_err());
    assert!(parse_keybind("Ctrl+Alt+").is_err());
    assert!(parse_keybind("Frobnicate+x").is_err());
}

#[test]
fn default_keybindings_all_parse() {
    let kb = Keybindings::default();
    for spec in [
        &kb.new_tab,
        &kb.next_tab,
        &kb.prev_tab,
        &kb.close_tab,
        &kb.rename_tab,
        &kb.detach,
        &kb.picker,
    ] {
        parse_keybind(spec).unwrap_or_else(|e| panic!("default keybind {spec:?} failed: {e:?}"));
    }
}

#[test]
fn keybind_errors_say_why() {
    assert_eq!(parse_keybind(" + ").unwrap_err(), "empty keybind: \" + \"");
    assert_eq!(parse_keybind("Ctrl+Alt+").unwrap_err(), "missing key in \"Ctrl+Alt+\"");
    assert_eq!(
        parse_keybind("Frobnicate+x").unwrap_err(),
        "unknown modifier \"frobnicate\" in \"Frobnicate+x\""
    );
    assert_eq!(parse_keybind("Alt+Nope").unwrap_err(), "unknown key \"nope\"");
    assert_eq!(parse_keybind("f256").unwrap_err(), "unknown key \"f256\"");
    assert_eq!(parse_keybind("Alt+\"q\"").unwrap_err(), "unknown key \"\\\"q\\\"\"");
}

#[test]
fn keybind_words_are_trimmed_and_lowercased() {
    let kb = parse_keybind("  CONTROL + option +  SPACE ").unwrap();
    assert_eq!(kb.code, KeyCode::Char(' '));
    assert_eq!(kb.modifiers.bits, 2 | 4);
    assert_eq!(parse_keybind("Shift+C").unwrap().code, KeyCode::Char('c'));
    assert_eq!(parse_keybind("Del").unwrap().code, KeyCode::Delete);
    assert_eq!(parse_keybind("alt+alt+f12").unwrap().code, KeyCode::F(12));
    assert_eq!(parse_keybind("Return").unwrap().code, KeyCode::Enter);
}

#[test]
fn config_defaults() {
    let c = Config::default();
    assert_eq!(c.scrollback_lines, 5000);
    assert!(c.shell.is_none());
    assert!(!c.auto_close_exited_tabs);
    assert_eq!(c.keybindings.next_tab, "Alt+Right");
    assert_eq!(c.keybindings.picker, "Alt+/");
}
