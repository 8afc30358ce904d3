use nemux::config::{Config, KeyCode, KeyModifiers};
use nemux::input::KeyEvent;
use nemux::protocol::{Request, Response, TabInfo};
use nemux::tui::{
    apply_response, handle_key, handle_resize, start_requests, switch_relative, upsert_tab, viewport,
    Effect, Mode, ParsedKeybinds, Start, State,
};

fn tab(id: u32, title: &str) -> TabInfo {
    TabInfo {
        id,
        title: title.to_string(),
        command: vec!["vim".to_string()],
        pid: None,
        created_at: 0,
        cols: 80,
        rows: 24,
        bell: false,
        exit: None,
        workspace: String::new(),
    }
}

fn attach_target(effects: &[Effect]) -> Option<u32> {
    match effects {
        [Effect::Send(Request::Attach { tab_id, .. })] => Some(*tab_id),
        _ => None,
    }
}

#[test]
fn viewport_keeps_a_row_for_the_tab_bar() {
    assert_eq!(viewport((80, 24)), (80, 23));
    assert_eq!(viewport((0, 0)), (1, 1));
    assert_eq!(viewport((10, 1)), (10, 1));
}

#[test]
fn overview_attaches_to_the_newest_tab() {
    let mut s = State::new(80, 23);
    let e = start_requests(Start::Overview, &mut s);
    assert!(matches!(e.as_slice(), [Effect::Send(Request::ListTabs)]));
    assert!(s.awaiting_list);
    let e = apply_response(Response::TabList(vec![tab(0, "a"), tab(4, "b"), tab(2, "c")]), &mut s);
    assert_eq!(attach_target(&e), Some(4));
    assert!(!s.awaiting_list);
    // a later list does not attach again
    let e = apply_response(Response::TabList(vec![tab(0, "a")]), &mut s);
    assert!(e.is_empty());
}

#[test]
fn overview_with_no_tabs_creates_a_shell() {
    let mut s = State::new(80, 23);
    start_requests(Start::Overview, &mut s);
    let e = apply_response(Response::TabList(vec![]), &mut s);
    match e.as_slice() {
        [Effect::Send(Request::CreateTab { command, cwd, cols, rows })] => {
            assert!(command.is_empty());
            assert!(cwd.is_none());
            assert_eq!((*cols, *rows), (80, 23));
        }
        _ => panic!("expected a create request"),
    }
}

#[test]
fn attached_and_closed_tabs() {
    let mut s = State::new(80, 23);
    let e = apply_response(Response::Attached(tab(3, "x")), &mut s);
    assert!(matches!(e.as_slice(), [Effect::ResetScreen { rows: 23, cols: 80 }]));
    assert_eq!(s.current_tab, Some(3));
    let e = apply_response(Response::Screen { tab_id: 3, data: vec![65] }, &mut s);
    assert!(matches!(e.as_slice(), [Effect::FeedScreen(d)] if d == &vec![65]));
    let e = apply_response(Response::Screen { tab_id: 9, data: vec![65] }, &mut s);
    assert!(e.is_empty());
    let e = apply_response(Response::TabClosed(3), &mut s);
    assert!(matches!(e.as_slice(), [Effect::DropScreen, Effect::Send(Request::ListTabs)]));
    assert_eq!(s.current_tab, None);
    assert_eq!(s.status.as_deref(), Some("tab 3 closed"));
    assert!(s.tabs.is_empty());
    assert!(s.awaiting_list);
    apply_response(Response::Error("boom".into()), &mut s);
    assert_eq!(s.status.as_deref(), Some("boom"));
}

#[test]
fn upsert_replaces_or_inserts_sorted() {
    let mut s = State::new(80, 23);
    upsert_tab(&mut s, tab(5, "e"));
    upsert_tab(&mut s, tab(1, "a"));
    upsert_tab(&mut s, tab(3, "c"));
    upsert_tab(&mut s, tab(3, "renamed"));
    let ids: Vec<u32> = s.tabs.iter().map(|t| t.id).collect();
    assert_eq!(ids, vec![1, 3, 5]);
    assert_eq!(s.tabs[1].title, "renamed");
}

#[test]
fn switching_wraps_around() {
    let mut s = State::new(80, 23);
    s.tabs = vec![tab(1, "a"), tab(2, "b"), tab(7, "c")];
    s.current_tab = Some(7);
    assert_eq!(attach_target(&switch_relative(&s, 1)), Some(1));
    assert_eq!(attach_target(&switch_relative(&s, -1)), Some(2));
    s.current_tab = None;
    assert_eq!(attach_target(&switch_relative(&s, -1)), Some(7));
    assert_eq!(attach_target(&switch_relative(&s, -4)), Some(7));
    s.tabs.clear();
    assert!(switch_relative(&s, 1).is_empty());
}

#[test]
fn resize_updates_viewport_and_tab() {
    let mut s = State::new(80, 23);
    let e = handle_resize(100, 40, &mut s);
    assert_eq!((s.cols, s.rows), (100, 39));
    assert_eq!(e.len(), 1);
    s.current_tab = Some(0);
    let e = handle_resize(0, 0, &mut s);
    assert!(matches!(
        e.as_slice(),
        [Effect::ResizeScreen { rows: 1, cols: 1 }, Effect::Send(Request::Resize { cols: 1, rows: 1 })]
    ));
}

fn kb() -> ParsedKeybinds {
    ParsedKeybinds::from_config(&Config::default())
}

#[test]
fn normal_keys_follow_bindings() {
    let keys = kb();
    let mut s = State::new(80, 23);
    s.tabs = vec![tab(0, "a"), tab(1, "b")];
    s.current_tab = Some(0);
    let (exit, e) = handle_key(KeyEvent::new(KeyCode::Right, KeyModifiers::alt()), &mut s, &keys);
    assert!(!exit);
    assert_eq!(attach_target(&e), Some(1));
    let (_, e) = handle_key(KeyEvent::new(KeyCode::Char('x'), KeyModifiers::alt()), &mut s, &keys);
    assert!(matches!(e.as_slice(), [Effect::Send(Request::KillTab { tab_id: 0 })]));
    let (_, e) = handle_key(KeyEvent::new(KeyCode::Char('q'), KeyModifiers::none()), &mut s, &keys);
    assert!(matches!(e.as_slice(), [Effect::Send(Request::Input(b))] if b == &vec![b'q']));
    let (exit, e) = handle_key(KeyEvent::new(KeyCode::Char('d'), KeyModifiers::alt()), &mut s, &keys);
    assert!(exit);
    assert!(matches!(e.as_slice(), [Effect::Send(Request::Detach)]));
}

#[test]
fn rename_prompt_edits_and_submits() {
    let keys = kb();
    let mut s = State::new(80, 23);
    s.current_tab = Some(2);
    handle_key(KeyEvent::new(KeyCode::Char('r'), KeyModifiers::alt()), &mut s, &keys);
    assert!(matches!(&s.mode, Mode::Rename { input } if input.is_empty()));
    for c in ['h', 'i', 'x'] {
        handle_key(KeyEvent::new(KeyCode::Char(c), KeyModifiers::none()), &mut s, &keys);
    }
    handle_key(KeyEvent::new(KeyCode::Backspace, KeyModifiers::none()), &mut s, &keys);
    let (_, e) = handle_key(KeyEvent::new(KeyCode::Enter, KeyModifiers::none()), &mut s, &keys);
    assert!(matches!(&s.mode, Mode::Normal));
    match e.as_slice() {
        [Effect::Send(Request::RenameTab { tab_id, title })] => {
            assert_eq!(*tab_id, 2);
            assert_eq!(title, "hi");
        }
        _ => panic!("expected a rename request"),
    }
}

#[test]
fn picker_filters_and_attaches() {
    let keys = kb();
    let mut s = State::new(80, 23);
    s.tabs = vec![tab(0, "shell"), tab(1, "codex"), tab(2, "logs")];
    handle_key(KeyEvent::new(KeyCode::Char('/'), KeyModifiers::alt()), &mut s, &keys);
    assert!(matches!(&s.mode, Mode::Picker { matches, .. } if matches.len() == 3));
    handle_key(KeyEvent::new(KeyCode::Char('o'), KeyModifiers::none()), &mut s, &keys);
    match &s.mode {
        Mode::Picker { query, matches, selected } => {
            assert_eq!(query, "o");
            assert_eq!(matches.iter().map(|t| t.id).collect::<Vec<_>>(), vec![1, 2]);
            assert_eq!(*selected, 0);
        }
        _ => panic!("expected the picker"),
    }
    handle_key(KeyEvent::new(KeyCode::Down, KeyModifiers::none()), &mut s, &keys);
    handle_key(KeyEvent::new(KeyCode::Down, KeyModifiers::none()), &mut s, &keys);
    let (_, e) = handle_key(KeyEvent::new(KeyCode::Enter, KeyModifiers::none()), &mut s, &keys);
    assert_eq!(attach_target(&e), Some(2));
    assert!(matches!(&s.mode, Mode::Normal));
}

#[test]
fn unparsable_bindings_fall_back_to_defaults() {
    let mut cfg = Config::default();
    cfg.keybindings.detach = "Bogus+q".into();
    cfg.keybindings.new_tab = "Ctrl+t".into();
    let keys = ParsedKeybinds::from_config(&cfg);
    assert_eq!(keys.detach.code, KeyCode::Char('d'));
    assert_eq!(keys.detach.modifiers, KeyModifiers::alt());
    assert_eq!(keys.new_tab.code, KeyCode::Char('t'));
    assert_eq!(keys.new_tab.modifiers, KeyModifiers::control());
}

#[test]
fn ctrl_c_is_forwarded_to_the_attached_tab() {
    let keys = kb();
    let mut s = State::new(80, 23);
    s.tabs = vec![tab(0, "a")];
    s.current_tab = Some(0);
    let (exit, e) = handle_key(KeyEvent::new(KeyCode::Char('c'), KeyModifiers::control()), &mut s, &keys);
    assert!(!exit);
    assert!(matches!(e.as_slice(), [Effect::Send(Request::Input(b))] if b == &vec![3u8]));
    // with nothing attached, typed keys go nowhere
    s.current_tab = None;
    let (_, e) = handle_key(KeyEvent::new(KeyCode::Char('c'), KeyModifiers::control()), &mut s, &keys);
    assert!(e.is_empty());
}
