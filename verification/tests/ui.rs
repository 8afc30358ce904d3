use nemux::protocol::{ExitInfo, TabInfo};
use nemux::ui::{centered, picker_line, tab_bar, tab_label, tab_style, tab_window, trim_path, Color, Rect};

fn labels(widths: &[usize]) -> Vec<String> {
    widths.iter().map(|w| " ".repeat(*w)).collect()
}

#[test]
fn window_shows_everything_when_it_fits() {
    let labels = labels(&[5, 5, 5]);
    assert_eq!(tab_window(&labels, 1, 30), (0, 3, false, false));
}

#[test]
fn window_centers_selection_in_the_middle() {
    let labels = labels(&[3; 11]);
    let (start, end, left, right) = tab_window(&labels, 5, 3 * 3 + 4);
    assert!(start <= 5 && end > 5, "selection must stay visible");
    assert_eq!(end - start, 3);
    assert!(left && right, "hidden tabs on both sides");
}

#[test]
fn window_clamps_at_the_start() {
    let labels = labels(&[3; 10]);
    let (start, _end, left, right) = tab_window(&labels, 0, 3 * 3 + 4);
    assert_eq!(start, 0);
    assert!(!left);
    assert!(right);
}

#[test]
fn window_clamps_at_the_end() {
    let labels = labels(&[3; 10]);
    let (_start, end, left, right) = tab_window(&labels, 9, 3 * 3 + 4);
    assert_eq!(end, 10);
    assert!(left);
    assert!(!right);
}

#[test]
fn window_handles_empty_tab_list() {
    assert_eq!(tab_window(&[], 0, 80), (0, 0, false, false));
}

#[test]
fn window_keeps_an_oversized_selection_alone() {
    let labels = labels(&[3, 50, 3]);
    assert_eq!(tab_window(&labels, 1, 20), (1, 2, true, true));
}

#[test]
fn window_grows_right_first() {
    let labels = labels(&[4, 4, 4]);
    // room for two labels: the one to the right of the selection comes first
    assert_eq!(tab_window(&labels, 1, 8 + 4), (1, 3, true, false));
}

#[test]
fn trim_path_pads_short_paths() {
    assert_eq!(trim_path("/tmp", 10), "      /tmp");
}

#[test]
fn trim_path_ellipsizes_long_paths() {
    let trimmed = trim_path("/very/long/workspace/path", 10);
    assert_eq!(trimmed.chars().count(), 10);
    assert!(trimmed.starts_with('\u{2026}'));
    assert!(trimmed.ends_with("path"));
}

#[test]
fn trim_path_tiny_widths() {
    assert_eq!(trim_path("/abc", 0), "");
    assert_eq!(trim_path("/abc", 1), "\u{2026}");
    assert_eq!(trim_path("/abc", 2), "\u{2026}c");
    assert_eq!(trim_path("", 0), "");
}

fn tab(id: u32, title: &str) -> TabInfo {
    TabInfo {
        id,
        title: title.to_string(),
        command: vec!["/bin/bash".to_string()],
        pid: None,
        created_at: 0,
        cols: 80,
        rows: 24,
        bell: false,
        exit: None,
        workspace: String::new(),
    }
}

#[test]
fn labels_show_id_title_and_exit() {
    assert_eq!(tab_label(&tab(12, "build")), " 12:build ");
    assert_eq!(tab_label(&tab(0, "")), " 0:bash ");
    let mut dead = tab(3, "x");
    dead.exit = Some(ExitInfo { code: 1, success: false, at: 0 });
    assert_eq!(tab_label(&dead), " 3:x [exited] ");
}

#[test]
fn styles_follow_state() {
    let t = tab(1, "a");
    let s = tab_style(&t, true);
    assert_eq!((s.fg, s.bg, s.bold), (Color::Black, Some(Color::Cyan), true));
    let s = tab_style(&t, false);
    assert_eq!((s.fg, s.bg, s.bold), (Color::Gray, None, false));
    let mut rang = tab(2, "b");
    rang.bell = true;
    assert_eq!(tab_style(&rang, false).fg, Color::Yellow);
    assert_eq!(tab_style(&rang, true).fg, Color::Black);
    let mut dead = tab(3, "c");
    dead.exit = Some(ExitInfo { code: 0, success: true, at: 0 });
    assert_eq!(tab_style(&dead, true).bg, Some(Color::Yellow));
    assert_eq!(tab_style(&dead, false).fg, Color::DarkGray);
}

#[test]
fn popups_are_centered_and_clipped() {
    let area = Rect { x: 0, y: 0, width: 80, height: 24 };
    assert_eq!(centered(area, 50, 12), Rect { x: 15, y: 6, width: 50, height: 12 });
    let small = Rect { x: 2, y: 1, width: 30, height: 2 };
    assert_eq!(centered(small, 40, 3), Rect { x: 2, y: 1, width: 30, height: 2 });
}

#[test]
fn tab_bar_plans_labels_window_and_exit_note() {
    let mut dead = tab(7, "job");
    dead.exit = Some(ExitInfo { code: 2, success: false, at: 0 });
    let tabs = vec![tab(1, "one"), tab(4, "four"), dead];
    // " 1:one " (7) + " 4:four " (8) + " 7:job [exited] " (16) need 31
    // columns, plus 6 for the prefix and 4 for the arrows
    let bar = tab_bar(&tabs, Some(7), 41);
    assert_eq!(bar.labels, vec![" 1:one ", " 4:four ", " 7:job [exited] "]);
    assert_eq!(bar.selected, 2);
    assert_eq!((bar.start, bar.end, bar.show_left, bar.show_right), (0, 3, false, false));
    assert_eq!(bar.exit_note.as_deref(), Some("  process exited (code 2)"));

    // one column less: the leftmost label no longer fits
    let bar = tab_bar(&tabs, Some(7), 40);
    assert_eq!((bar.start, bar.end, bar.show_left, bar.show_right), (1, 3, true, false));

    // a running current tab has no note; an unknown current tab selects the first
    let bar = tab_bar(&tabs, Some(4), 80);
    assert_eq!(bar.selected, 1);
    assert!(bar.exit_note.is_none());
    let bar = tab_bar(&tabs, Some(99), 80);
    assert_eq!(bar.selected, 0);
    assert!(bar.exit_note.is_none());

    let mut ok = tab(3, "done");
    ok.exit = Some(ExitInfo { code: 0, success: true, at: 0 });
    let bar = tab_bar(&vec![ok], Some(3), 80);
    assert_eq!(bar.exit_note.as_deref(), Some("  process exited"));

    let bar = tab_bar(&Vec::new(), None, 80);
    assert!(bar.labels.is_empty());
    assert_eq!((bar.start, bar.end, bar.show_left, bar.show_right), (0, 0, false, false));
}

#[test]
fn picker_lines_right_align_ids() {
    assert_eq!(picker_line(&tab(7, "logs")), "  7  logs");
    assert_eq!(picker_line(&tab(12, "")), " 12  bash");
    assert_eq!(picker_line(&tab(1234, "x")), "1234  x");
}
