use nemux::color::{should_colorize, Painter};
use nemux::config::ColorMode;

#[test]
fn forced_override_wins_over_mode() {
    assert!(should_colorize(ColorMode::Never, Some(true), false, true));
    assert!(!should_colorize(ColorMode::Always, Some(false), true, false));
}

#[test]
fn always_and_never_ignore_terminal_detection() {
    assert!(should_colorize(ColorMode::Always, None, false, true));
    assert!(!should_colorize(ColorMode::Never, None, true, false));
}

#[test]
fn auto_needs_a_terminal_and_no_no_color() {
    assert!(should_colorize(ColorMode::Auto, None, true, false));
    assert!(!should_colorize(ColorMode::Auto, None, false, false));
    assert!(!should_colorize(ColorMode::Auto, None, true, true));
}

#[test]
fn painter_wraps_only_when_enabled() {
    let on = Painter::new(true);
    let off = Painter::new(false);
    assert_eq!(off.bold("x"), "x");
    assert_ne!(on.bold("x"), "x");
    assert!(on.bold("x").contains('x'));
}

#[test]
fn painter_codes() {
    let on = Painter::new(true);
    assert_eq!(on.bold("x"), "\x1b[1mx\x1b[0m");
    assert_eq!(on.dim("x"), "\x1b[2mx\x1b[0m");
    assert_eq!(on.red("x"), "\x1b[31mx\x1b[0m");
    assert_eq!(on.green("x"), "\x1b[32mx\x1b[0m");
    assert_eq!(on.yellow("x"), "\x1b[33mx\x1b[0m");
    assert_eq!(on.cyan("x"), "\x1b[36mx\x1b[0m");
}

#[test]
fn toml_highlight_is_a_noop_when_disabled() {
    let src = "[layout]\nfoo = \"bar\"";
    assert_eq!(Painter::new(false).toml(src), src);
}

#[test]
fn toml_highlight_wraps_sections_and_strings_when_enabled() {
    let out = Painter::new(true).toml("[layout]\nname = \"x\"\ncount = 3");
    assert!(out.contains("\x1b[36m[layout]\x1b[0m"));
    assert!(out.contains("\x1b[32m\"x\"\x1b[0m"));
    assert!(out.contains("\x1b[33m3\x1b[0m"));
}

#[test]
fn toml_highlight_exact_output() {
    let out = Painter::new(true).toml("  [a]\r\nk = v = w\nplain\n");
    assert_eq!(out, "\x1b[36m  [a]\r\x1b[0m\nk = \x1b[33mv = w\x1b[0m\nplain\n");
}

fn strip_codes(s: &str) -> String {
    let mut out = String::new();
    let mut skipping = false;
    for c in s.chars() {
        if skipping {
            skipping = c != 'm';
        } else if c == '\x1b' {
            skipping = true;
        } else {
            out.push(c);
        }
    }
    out
}

#[test]
fn toml_highlight_keeps_everything_but_the_colors() {
    assert_eq!(Painter::new(true).toml("[x]\n"), "\x1b[36m[x]\x1b[0m\n");
    for src in ["[x]\n", "a = 1\r\nb = \"s\"\r\n\n", "", "\n\n", "plain", "[t]\nk = [1, 2]\n"] {
        let out = Painter::new(true).toml(src);
        assert_eq!(strip_codes(&out), src);
    }
}
