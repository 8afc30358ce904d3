//! The daemon's decisions: what each request asks of the tab table and the
//! connection, and what is answered. The program around the library owns the
//! sockets, threads and terminals and carries these decisions out.

use vstd::prelude::*;
use crate::manager::{KillOutcome, kill_spec};
use crate::protocol::{Request, Response, TabInfo};
use crate::text::{chars_of, decimal, push_decimal, same_chars, string_of};

verus! {

/// A terminal grid of zero rows or columns is unusable, so every size that a
/// client reports is raised to at least one cell in each dimension.
pub fn clamp_size(cols: u16, rows: u16) -> (r: (u16, u16))
    ensures
        r.0 == if cols == 0 { 1 } else { cols },
        r.1 == if rows == 0 { 1 } else { rows },
{
    let c: u16 = if cols == 0 { 1 } else { cols };
    let r: u16 = if rows == 0 { 1 } else { rows };
    (c, r)
}

/// The message for a request about a tab that does not exist: `no such tab: <id>`.
pub open spec fn no_such_tab_text(tab_id: u32) -> Seq<char> {
    seq!['n', 'o', ' ', 's', 'u', 'c', 'h', ' ', 't', 'a', 'b', ':', ' '] + decimal(tab_id as nat)
}

/// The error response for a request about a tab that does not exist.
pub fn no_such_tab(tab_id: u32) -> (r: Response)
    ensures
        r matches Response::Error(m) && m@ == no_such_tab_text(tab_id),
{
    let mut m = string_of(&['n', 'o', ' ', 's', 'u', 'c', 'h', ' ', 't', 'a', 'b', ':', ' ']);
    push_decimal(&mut m, tab_id as u64);
    Response::Error(m)
}

/// What the daemon does for one request on a connection currently attached
/// to `current_tab` (if any).
pub enum Step {
    /// Answer at once.
    Reply(Response),
    /// Spawn a tab (size already raised to at least 1x1) and answer after
    /// [`create_reply`].
    Create { command: Vec<String>, cwd: Option<String>, cols: u16, rows: u16 },
    /// Resize tab `tab_id` when it is open and answer after [`attach_reply`].
    Attach { tab_id: u32, cols: u16, rows: u16 },
    /// Detach from the current tab and answer after [`detach_reply`].
    Detach,
    /// Forward input bytes to the attached tab.
    Input { tab_id: u32, bytes: Vec<u8> },
    /// Resize the attached tab.
    Resize { tab_id: u32, cols: u16, rows: u16 },
    /// Kill (or dismiss) a tab and answer after [`kill_reply`].
    Kill { tab_id: u32 },
    /// Rename a tab and answer after [`rename_reply`].
    Rename { tab_id: u32, title: String },
    /// Signal every tab, answer after [`shutdown_reply`], and stop the daemon.
    Shutdown,
    /// Nothing to do (input or resize with no tab attached).
    Nothing,
}

/// Decides what a request asks for. Sizes are raised to at least one cell;
/// input and resizes go to the attached tab and are dropped when none is;
/// a ping is answered with a pong and a listing with the tab list `tabs`.
pub fn plan_request(req: Request, current_tab: Option<u32>, tabs: Vec<TabInfo>) -> (r: Step)
    ensures
        match req {
            Request::ListTabs => r matches Step::Reply(Response::TabList(l)) && l == tabs,
            Request::CreateTab { command, cwd, cols, rows } => r matches Step::Create {
                command: c2,
                cwd: w2,
                cols: c,
                rows: w,
            } && c2 == command && w2 == cwd && (c, w) == clamp_size_spec(cols, rows),
            Request::Attach { tab_id, cols, rows } => r matches Step::Attach {
                tab_id: t,
                cols: c,
                rows: w,
            } && t == tab_id && (c, w) == clamp_size_spec(cols, rows),
            Request::Detach => r is Detach,
            Request::Input(bytes) => match current_tab {
                Some(id) => r matches Step::Input { tab_id: t, bytes: b } && t == id && b == bytes,
                None => r is Nothing,
            },
            Request::Resize { cols, rows } => match current_tab {
                Some(id) => r matches Step::Resize { tab_id: t, cols: c, rows: w } && t == id && (
                    c,
                    w,
                ) == clamp_size_spec(cols, rows),
                None => r is Nothing,
            },
            Request::KillTab { tab_id } => r matches Step::Kill { tab_id: t } && t == tab_id,
            Request::RenameTab { tab_id, title } => r matches Step::Rename {
                tab_id: t,
                title: n,
            } && t == tab_id && n == title,
            Request::Shutdown => r is Shutdown,
            Request::Ping => r matches Step::Reply(Response::Pong),
        },
{
    match req {
        Request::ListTabs => Step::Reply(Response::TabList(tabs)),
        Request::CreateTab { command, cwd, cols, rows } => {
            let (c, w) = clamp_size(cols, rows);
            Step::Create { command, cwd, cols: c, rows: w }
        },
        Request::Attach { tab_id, cols, rows } => {
            let (c, w) = clamp_size(cols, rows);
            Step::Attach { tab_id, cols: c, rows: w }
        },
        Request::Detach => Step::Detach,
        Request::Input(bytes) => match current_tab {
            Some(id) => Step::Input { tab_id: id, bytes },
            None => Step::Nothing,
        },
        Request::Resize { cols, rows } => match current_tab {
            Some(id) => {
                let (c, w) = clamp_size(cols, rows);
                Step::Resize { tab_id: id, cols: c, rows: w }
            },
            None => Step::Nothing,
        },
        Request::KillTab { tab_id } => Step::Kill { tab_id },
        Request::RenameTab { tab_id, title } => Step::Rename { tab_id, title },
        Request::Shutdown => Step::Shutdown,
        Request::Ping => Step::Reply(Response::Pong),
    }
}

/// `clamp_size` as a function of its arguments.
pub open spec fn clamp_size_spec(cols: u16, rows: u16) -> (u16, u16) {
    (if cols == 0 { 1 } else { cols }, if rows == 0 { 1 } else { rows })
}

/// Whether a kill with this outcome stops the daemon: it dismissed the last tab.
pub open spec fn stops_daemon(outcome: KillOutcome) -> bool {
    outcome matches KillOutcome::Removed { daemon_now_empty } && daemon_now_empty
}

/// The answer to a kill request, and whether the daemon is to stop: a tab that
/// is not open gives `no such tab`; a signaled tab gives `Done`; a dismissed
/// tab gives `TabClosed`, and the daemon stops when it was the last one.
pub fn kill_reply(tab_id: u32, outcome: KillOutcome) -> (r: (Response, bool))
    ensures
        r.1 == stops_daemon(outcome),
        match outcome {
            KillOutcome::NotFound => r.0 matches Response::Error(m) && m@ == no_such_tab_text(
                tab_id,
            ) && !r.1,
            KillOutcome::Killed => r.0 is Done && !r.1,
            KillOutcome::Removed { daemon_now_empty } => r.0 matches Response::TabClosed(t) && t
                == tab_id && r.1 == daemon_now_empty,
        },
{
    match outcome {
        KillOutcome::NotFound => (no_such_tab(tab_id), false),
        KillOutcome::Killed => (Response::Done, false),
        KillOutcome::Removed { daemon_now_empty } => (Response::TabClosed(tab_id), daemon_now_empty),
    }
}

/// The answer to a rename request: the renamed tab, or `no such tab`.
pub fn rename_reply(tab_id: u32, renamed: Option<TabInfo>) -> (r: Response)
    ensures
        match renamed {
            Some(info) => r matches Response::TabUpdated(i) && i == info,
            None => r matches Response::Error(m) && m@ == no_such_tab_text(tab_id),
        },
{
    match renamed {
        Some(info) => Response::TabUpdated(info),
        None => no_such_tab(tab_id),
    }
}

/// Attaching a connection to `tab_id`: the tab it was attached to (to leave
/// first), and the tab it is attached to afterwards.
pub fn attach(current_tab: Option<u32>, tab_id: u32) -> (r: (Option<u32>, Option<u32>))
    ensures
        r == (current_tab, Some(tab_id)),
{
    (current_tab, Some(tab_id))
}

/// Detaching a connection: the tab to leave (if any); afterwards it is attached to none.
pub fn detach(current_tab: Option<u32>) -> (r: (Option<u32>, Option<u32>))
    ensures
        r == (current_tab, None::<u32>),
{
    (current_tab, None)
}

/// The command line a new tab runs: the given one; when none was given, the
/// configured shell alone, or the default shell when none is configured.
pub fn resolve_command(command: Vec<String>, configured_shell: Option<String>, default_shell: String) -> (r: Vec<String>)
    ensures
        command@.len() > 0 ==> r@ == command@,
        command@.len() == 0 ==> r@ == seq![
            match configured_shell {
                Some(s) => s,
                None => default_shell,
            },
        ],
{
    if command.len() == 0 {
        let shell = match configured_shell {
            Some(s) => s,
            None => default_shell,
        };
        let mut r: Vec<String> = Vec::new();
        r.push(shell);
        r
    } else {
        command
    }
}

/// The answer to a create request once the tab was spawned (or not), the tab
/// to leave first, and the tab attached afterwards: a spawned tab is answered
/// `Attached` (before any screen update) and becomes the attached one; a
/// spawn error is answered with its message and changes nothing.
pub fn create_reply(current_tab: Option<u32>, spawned: Result<TabInfo, String>) -> (r: (
    Response,
    Option<u32>,
    Option<u32>,
))
    ensures
        match spawned {
            Ok(info) => r == (Response::Attached(info), current_tab, Some(info.id)),
            Err(e) => r == (Response::Error(e), None::<u32>, current_tab),
        },
{
    match spawned {
        Ok(info) => {
            let id = info.id;
            let (leave, now) = attach(current_tab, id);
            (Response::Attached(info), leave, now)
        },
        Err(e) => (Response::Error(e), None, current_tab),
    }
}

/// The answer to an attach request, the tab to leave first, and the tab
/// attached afterwards: an open tab (already resized) is answered `Attached`
/// and becomes the attached one; a tab that is not open is answered
/// `no such tab` and changes nothing.
pub fn attach_reply(current_tab: Option<u32>, tab_id: u32, found: Option<TabInfo>) -> (r: (
    Response,
    Option<u32>,
    Option<u32>,
))
    ensures
        match found {
            Some(info) => r == (Response::Attached(info), current_tab, Some(tab_id)),
            None => r.1 is None && r.2 == current_tab && (r.0 matches Response::Error(m)
                && m@ == no_such_tab_text(tab_id)),
        },
{
    match found {
        Some(info) => {
            let (leave, now) = attach(current_tab, tab_id);
            (Response::Attached(info), leave, now)
        },
        None => (no_such_tab(tab_id), None, current_tab),
    }
}

/// The answer to a detach request, the tab to leave, and the tab attached
/// afterwards (none): the request is answered `Done`.
pub fn detach_reply(current_tab: Option<u32>) -> (r: (Response, Option<u32>, Option<u32>))
    ensures
        r == (Response::Done, current_tab, None::<u32>),
{
    let (leave, now) = detach(current_tab);
    (Response::Done, leave, now)
}

/// The answer to a shutdown request, sent after every tab was signaled and
/// before the daemon stops: `Done`.
pub fn shutdown_reply() -> (r: Response)
    ensures
        r is Done,
{
    Response::Done
}

/// A tab's title and bell flag after its terminal processed some output: the
/// title follows the terminal's title when that changed to something
/// non-empty; the bell flag is set once the bell rang; clients are told about
/// the tab when the terminal's title differs from the old one or the bell rang.
pub fn title_bell_update(old_title: &str, screen_title: &str, bell_rang: bool, old_bell: bool) -> (r: (
    String,
    bool,
    bool,
))
    ensures
        r.0@ == (if screen_title@ != old_title@ && screen_title@.len() > 0 {
            screen_title@
        } else {
            old_title@
        }),
        r.1 == (old_bell || bell_rang),
        r.2 == (screen_title@ != old_title@ || bell_rang),
{
    let a = chars_of(old_title);
    let b = chars_of(screen_title);
    let changed = !same_chars(&a, &b);
    let title = if changed && b.len() > 0 {
        string_of(&b)
    } else {
        string_of(&a)
    };
    (title, old_bell || bell_rang, changed || bell_rang)
}

/// The daemon shuts itself down once the last tab is dismissed, and only
/// then: a kill request stops it exactly when it dismisses an exited tab that
/// was the only one left, and the table is then empty.
pub proof fn lemma_daemon_stops_after_last_dismissal<T>(tabs: Map<u32, (bool, T)>, id: u32)
    ensures
        stops_daemon(kill_spec(tabs, id).0) <==> (tabs.dom() == set![id] && !tabs[id].0),
        stops_daemon(kill_spec(tabs, id).0) ==> kill_spec(tabs, id).1.is_empty(),
{
    if tabs.contains_key(id) && !tabs[id].0 {
        let rest = tabs.remove(id);
        if rest.is_empty() {
            assert forall|k: u32| tabs.dom().contains(k) <==> set![id].contains(k) by {
                if tabs.dom().contains(k) && k != id {
                    assert(rest.dom().contains(k));
                }
            }
            assert(tabs.dom() =~= set![id]);
        }
        if tabs.dom() == set![id] {
            assert(rest.dom() =~= Set::<u32>::empty());
        }
    } else if tabs.dom() == set![id] {
        assert(tabs.contains_key(id));
    }
}

} // verus!
