use nemux::daemon::{
    attach_reply, clamp_size, create_reply, detach_reply, kill_reply, no_such_tab, plan_request, rename_reply,
    resolve_command, shutdown_reply, title_bell_update, Step,
};
use nemux::manager::KillOutcome;
use nemux::protocol::{Request, Response, TabInfo};

#[test]
fn clamp_size_rejects_zero_dimensions() {
    assert_eq!(clamp_size(0, 0), (1, 1));
    assert_eq!(clamp_size(0, 24), (1, 24));
    assert_eq!(clamp_size(80, 0), (80, 1));
    assert_eq!(clamp_size(80, 24), (80, 24));
}

#[test]
fn kill_replies() {
    match kill_reply(42, KillOutcome::NotFound) {
        (Response::Error(m), false) => assert_eq!(m, "no such tab: 42"),
        other => panic!("unexpected {other:?}"),
    }
    assert!(matches!(kill_reply(1, KillOutcome::Killed), (Response::Done, false)));
    assert!(matches!(
        kill_reply(3, KillOutcome::Removed { daemon_now_empty: true }),
        (Response::TabClosed(3), true)
    ));
    assert!(matches!(
        kill_reply(3, KillOutcome::Removed { daemon_now_empty: false }),
        (Response::TabClosed(3), false)
    ));
}

#[test]
fn rename_reply_reports_missing_tab() {
    match rename_reply(7, None) {
        Response::Error(m) => assert_eq!(m, "no such tab: 7"),
        other => panic!("unexpected {other:?}"),
    }
    match no_such_tab(0) {
        Response::Error(m) => assert_eq!(m, "no such tab: 0"),
        other => panic!("unexpected {other:?}"),
    }
}

#[test]
fn requests_are_planned() {
    assert!(matches!(plan_request(Request::Ping, None, vec![]), Step::Reply(Response::Pong)));
    assert!(matches!(plan_request(Request::Input(vec![1]), None, vec![]), Step::Nothing));
    match plan_request(Request::Input(vec![1, 2]), Some(4), vec![]) {
        Step::Input { tab_id, bytes } => {
            assert_eq!(tab_id, 4);
            assert_eq!(bytes, vec![1, 2]);
        }
        _ => panic!("expected input"),
    }
    match plan_request(Request::Attach { tab_id: 2, cols: 0, rows: 30 }, None, vec![]) {
        Step::Attach { tab_id, cols, rows } => assert_eq!((tab_id, cols, rows), (2, 1, 30)),
        _ => panic!("expected attach"),
    }
    match plan_request(Request::Resize { cols: 100, rows: 0 }, Some(9), vec![]) {
        Step::Resize { tab_id, cols, rows } => assert_eq!((tab_id, cols, rows), (9, 100, 1)),
        _ => panic!("expected resize"),
    }
    assert!(matches!(plan_request(Request::Shutdown, Some(1), vec![]), Step::Shutdown));
}

#[test]
fn empty_command_runs_the_default_shell() {
    assert_eq!(resolve_command(vec![], None, "/bin/zsh".into()), vec!["/bin/zsh".to_string()]);
    assert_eq!(
        resolve_command(vec![], Some("/usr/bin/fish".into()), "/bin/zsh".into()),
        vec!["/usr/bin/fish".to_string()]
    );
    assert_eq!(
        resolve_command(vec!["vim".into(), "x".into()], Some("/usr/bin/fish".into()), "/bin/zsh".into()),
        vec!["vim".to_string(), "x".to_string()]
    );
}

#[test]
fn title_follows_terminal_unless_empty() {
    assert_eq!(title_bell_update("bash", "vim", false, false), ("vim".to_string(), false, true));
    assert_eq!(title_bell_update("bash", "", false, false), ("bash".to_string(), false, true));
    assert_eq!(title_bell_update("bash", "bash", true, false), ("bash".to_string(), true, true));
    assert_eq!(title_bell_update("bash", "bash", false, true), ("bash".to_string(), true, false));
}

fn info(id: u32) -> TabInfo {
    TabInfo {
        id,
        title: String::new(),
        command: vec!["sh".to_string()],
        pid: None,
        created_at: 0,
        cols: 80,
        rows: 24,
        bell: false,
        exit: None,
        workspace: String::new(),
    }
}

#[test]
fn session_replies() {
    match create_reply(Some(1), Ok(info(4))) {
        (Response::Attached(t), leave, now) => {
            assert_eq!(t.id, 4);
            assert_eq!((leave, now), (Some(1), Some(4)));
        }
        other => panic!("unexpected {other:?}"),
    }
    match create_reply(Some(1), Err("spawn failed".into())) {
        (Response::Error(m), leave, now) => {
            assert_eq!(m, "spawn failed");
            assert_eq!((leave, now), (None, Some(1)));
        }
        other => panic!("unexpected {other:?}"),
    }
    match attach_reply(None, 2, Some(info(2))) {
        (Response::Attached(t), leave, now) => {
            assert_eq!(t.id, 2);
            assert_eq!((leave, now), (None, Some(2)));
        }
        other => panic!("unexpected {other:?}"),
    }
    match attach_reply(Some(3), 9, None) {
        (Response::Error(m), leave, now) => {
            assert_eq!(m, "no such tab: 9");
            assert_eq!((leave, now), (None, Some(3)));
        }
        other => panic!("unexpected {other:?}"),
    }
    assert!(matches!(detach_reply(Some(3)), (Response::Done, Some(3), None)));
    assert!(matches!(shutdown_reply(), Response::Done));
}
