use nemux::cli::{listing_line, parse_args, pick_from_line, tab_status, CliCommand, CliError, PickError};
use nemux::ipc::{socket_id, user_tag};
use nemux::protocol::{ExitInfo, TabInfo};

fn args(words: &[&str]) -> Vec<String> {
    words.iter().map(|w| w.to_string()).collect()
}

#[test]
fn commands_are_recognized() {
    assert_eq!(parse_args(args(&[])), Ok(CliCommand::Overview));
    assert_eq!(parse_args(args(&["--help"])), Ok(CliCommand::Help));
    assert_eq!(parse_args(args(&["-V"])), Ok(CliCommand::Version));
    assert_eq!(parse_args(args(&["__daemon"])), Ok(CliCommand::Daemon));
    assert_eq!(parse_args(args(&["-t", "codex"])), Ok(CliCommand::Attach("codex".into())));
    assert_eq!(parse_args(args(&["kill", "2"])), Ok(CliCommand::Kill("2".into())));
    assert_eq!(parse_args(args(&["ls"])), Ok(CliCommand::List));
    assert_eq!(parse_args(args(&["restart"])), Ok(CliCommand::RestartServer));
    assert_eq!(parse_args(args(&["kill-server"])), Ok(CliCommand::KillServer));
    assert_eq!(parse_args(args(&["status"])), Ok(CliCommand::Status));
    assert_eq!(parse_args(args(&["config"])), Ok(CliCommand::ConfigPath));
}

#[test]
fn rename_joins_the_title() {
    assert_eq!(
        parse_args(args(&["rename", "1", "my", "new", "title"])),
        Ok(CliCommand::Rename { selector: "1".into(), title: "my new title".into() })
    );
    assert_eq!(parse_args(args(&["rename", "1"])), Err(CliError::RenameUsage));
    assert_eq!(parse_args(args(&["-k"])), Err(CliError::MissingSelector));
}

#[test]
fn programs_open_in_new_tabs() {
    assert_eq!(parse_args(args(&["new", "ls", "-l"])), Ok(CliCommand::Create(args(&["ls", "-l"]))));
    assert_eq!(parse_args(args(&["codex"])), Ok(CliCommand::Create(args(&["codex"]))));
    assert_eq!(parse_args(args(&["run"])), Ok(CliCommand::Create(vec![])));
}

#[test]
fn picking_among_matches() {
    assert_eq!(pick_from_line(" 1\n", 3), Ok(1));
    assert_eq!(pick_from_line("3", 3), Err(PickError::OutOfRange));
    assert_eq!(pick_from_line("x", 3), Err(PickError::InvalidSelection));
    assert_eq!(pick_from_line("", 3), Err(PickError::InvalidSelection));
}

#[test]
fn listing_status() {
    assert_eq!(tab_status(None), "running");
    assert_eq!(tab_status(Some(ExitInfo { code: 0, success: true, at: 0 })), "exited");
    assert_eq!(tab_status(Some(ExitInfo { code: 130, success: false, at: 0 })), "exited(code 130)");
}

#[test]
fn user_tag_and_socket_name() {
    assert_eq!(user_tag(&vec![None, Some(String::new()), Some("ann".into())]), "ann");
    assert_eq!(user_tag(&vec![None, None, None]), "default");
    assert_eq!(socket_id("ann"), "nux-ann.sock");
}

#[test]
fn listing_lines_are_aligned() {
    let mut t = TabInfo {
        id: 3,
        title: String::new(),
        command: vec!["/usr/bin/htop".to_string()],
        pid: Some(4242),
        created_at: 0,
        cols: 80,
        rows: 23,
        bell: false,
        exit: None,
        workspace: String::new(),
    };
    assert_eq!(listing_line(&t), "  3  htop                 pid=4242     80x23  running");
    t.id = 1234;
    t.title = "a title that is longer than twenty".into();
    t.pid = None;
    t.exit = Some(ExitInfo { code: 1, success: false, at: 0 });
    assert_eq!(
        listing_line(&t),
        "1234  a title that is longer than twenty pid=-        80x23  exited(code 1)"
    );
}
