use nemux::protocol::TabInfo;
use nemux::selector::{find_matches, parse_u32};

fn tab(id: u32, title: &str, program: &str) -> TabInfo {
    TabInfo {
        id,
        title: title.to_string(),
        command: vec![program.to_string()],
        pid: None,
        created_at: 0,
        cols: 80,
        rows: 24,
        bell: false,
        exit: None,
        workspace: String::new(),
    }
}

#[test]
fn matches_exact_id() {
    let tabs = vec![tab(0, "shell", "bash"), tab(1, "codex", "codex")];
    let m = find_matches(&tabs, "1");
    assert_eq!(m.len(), 1);
    assert_eq!(m[0].id, 1);
}

#[test]
fn numeric_selector_falls_back_to_text_when_no_id_matches() {
    // A tab titled "1password" should still be reachable even though "1" also looks numeric,
    // as long as no tab actually has id 1.
    let tabs = vec![tab(0, "1password", "op")];
    let m = find_matches(&tabs, "1");
    assert_eq!(m.len(), 1);
    assert_eq!(m[0].id, 0);
}

#[test]
fn matches_title_substring_case_insensitive() {
    let tabs = vec![tab(0, "Codex Session", "codex")];
    let m = find_matches(&tabs, "sess");
    assert_eq!(m.len(), 1);
}

#[test]
fn matches_program_name() {
    let tabs = vec![tab(0, "custom title", "/usr/bin/codex")];
    let m = find_matches(&tabs, "codex");
    assert_eq!(m.len(), 1);
}

#[test]
fn ambiguous_selector_returns_all_matches_sorted() {
    let tabs = vec![tab(2, "b", "vim"), tab(0, "a", "vim"), tab(1, "c", "vim")];
    let m = find_matches(&tabs, "vim");
    assert_eq!(m.iter().map(|t| t.id).collect::<Vec<_>>(), vec![0, 1, 2]);
}

#[test]
fn no_match_returns_empty() {
    let tabs = vec![tab(0, "a", "bash")];
    assert!(find_matches(&tabs, "zzz").is_empty());
}

#[test]
fn exact_id_wins_over_text_matches() {
    let tabs = vec![tab(0, "tab 7", "vim"), tab(7, "other", "bash")];
    let m = find_matches(&tabs, "7");
    assert_eq!(m.len(), 1);
    assert_eq!(m[0].id, 7);
}

#[test]
fn selector_is_lowercased_before_matching() {
    let tabs = vec![tab(3, "build log", "make")];
    assert_eq!(find_matches(&tabs, "BUILD").len(), 1);
    assert_eq!(find_matches(&tabs, "MAKE").len(), 1);
}

#[test]
fn equal_ids_keep_their_order() {
    let tabs = vec![tab(5, "first", "vim"), tab(1, "x", "vim"), tab(5, "second", "vim")];
    let m = find_matches(&tabs, "vim");
    let titles: Vec<&str> = m.iter().map(|t| t.title.as_str()).collect();
    assert_eq!(titles, vec!["x", "first", "second"]);
}

#[test]
fn empty_selector_matches_every_tab() {
    let tabs = vec![tab(1, "a", "x"), tab(0, "b", "y")];
    let m = find_matches(&tabs, "");
    assert_eq!(m.iter().map(|t| t.id).collect::<Vec<_>>(), vec![0, 1]);
}

#[test]
fn parse_u32_follows_std() {
    for s in ["0", "42", "+7", "4294967295", "4294967296", "", "+", "-1", "12a", " 1", "007"] {
        assert_eq!(parse_u32(s), s.parse::<u32>().ok(), "input {s:?}");
    }
}
