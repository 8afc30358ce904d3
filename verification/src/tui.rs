//! The interactive view's state machine: what it knows about the daemon's
//! tabs, which one it shows, and what it does on each daemon response, key
//! press and terminal resize. Each step returns the effects for the program
//! around the library to carry out: requests to send, and changes to the
//! terminal emulator that mirrors the attached tab's screen.

use vstd::prelude::*;
use crate::config::{Config, KeyCode, Keybind, KeyModifiers, keybind_spec, parse_keybind, ALT_BIT};
use crate::input::{KeyEvent, key_bytes_spec, key_to_bytes};
use crate::protocol::{Request, Response, TabInfo, TabInfoView};
use crate::selector::{
    find_matches, find_matches_spec, lemma_sort_by_id_contains, lemma_sort_by_id_sorted, sort_by_id,
    sort_tabs_by_id, sorted_by_id,
};
use crate::text::{decimal, pop_char, push_char, push_chars, push_decimal, string_of};

verus! {

/// What the view does the moment it connects.
pub enum Start {
    /// Show the tab list and attach to the newest tab, creating a default
    /// shell tab if there is none.
    Overview,
    /// Attach directly to an existing tab.
    Attach(u32),
    /// Create a new tab running the command and attach to it.
    Create(Vec<String>),
}

/// What keys currently do.
pub enum Mode {
    Normal,
    /// Choosing a tab: the typed query, the tabs it matches, the highlighted one.
    Picker { query: String, matches: Vec<TabInfo>, selected: usize },
    /// Typing a new title for the attached tab.
    Rename { input: String },
}

/// The view's knowledge of the daemon.
pub struct State {
    pub tabs: Vec<TabInfo>,
    pub current_tab: Option<u32>,
    pub status: Option<String>,
    pub mode: Mode,
    pub cols: u16,
    pub rows: u16,
    /// A tab list was asked for to pick a tab to attach to.
    pub awaiting_list: bool,
}

/// Something for the program around the library to carry out.
pub enum Effect {
    /// Send a request to the daemon.
    Send(Request),
    /// Start a fresh terminal emulator of this size for the attached tab.
    ResetScreen { rows: u16, cols: u16 },
    /// Feed screen bytes to the terminal emulator, if there is one.
    FeedScreen(Vec<u8>),
    /// Resize the terminal emulator, if there is one.
    ResizeScreen { rows: u16, cols: u16 },
    /// Drop the terminal emulator.
    DropScreen,
}

/// `e` sends a request for the tab list.
pub open spec fn sends_list(e: Effect) -> bool {
    e matches Effect::Send(Request::ListTabs)
}

/// `e` asks to attach to `id` at the given size.
pub open spec fn sends_attach(e: Effect, id: u32, cols: u16, rows: u16) -> bool {
    match e {
        Effect::Send(Request::Attach { tab_id, cols: c, rows: w }) => tab_id == id && c == cols && w
            == rows,
        _ => false,
    }
}

/// `e` asks to create a tab running `command` in the daemon's directory.
pub open spec fn sends_create(e: Effect, command: Vec<String>, cols: u16, rows: u16) -> bool {
    match e {
        Effect::Send(Request::CreateTab { command: k, cwd, cols: c, rows: w }) => k == command
            && cwd is None && c == cols && w == rows,
        _ => false,
    }
}

/// `e` asks to create a tab running the default shell.
pub open spec fn sends_create_shell(e: Effect, cols: u16, rows: u16) -> bool {
    match e {
        Effect::Send(Request::CreateTab { command: k, cwd, cols: c, rows: w }) => k@.len() == 0
            && cwd is None && c == cols && w == rows,
        _ => false,
    }
}

/// `e` starts a fresh screen of the given size.
pub open spec fn resets_screen(e: Effect, rows: u16, cols: u16) -> bool {
    match e {
        Effect::ResetScreen { rows: w, cols: c } => w == rows && c == cols,
        _ => false,
    }
}

/// `e` resizes the screen.
pub open spec fn resizes_screen(e: Effect, rows: u16, cols: u16) -> bool {
    match e {
        Effect::ResizeScreen { rows: w, cols: c } => w == rows && c == cols,
        _ => false,
    }
}

/// `e` asks the attached tab to resize.
pub open spec fn sends_resize(e: Effect, cols: u16, rows: u16) -> bool {
    match e {
        Effect::Send(Request::Resize { cols: c, rows: w }) => w == rows && c == cols,
        _ => false,
    }
}

/// `e` feeds `data` to the screen.
pub open spec fn feeds(e: Effect, data: Vec<u8>) -> bool {
    match e {
        Effect::FeedScreen(d) => d == data,
        _ => false,
    }
}

/// The views of a sequence of tabs.
pub open spec fn views(s: Seq<TabInfo>) -> Seq<TabInfoView> {
    s.map_values(|t: TabInfo| t@)
}

/// The viewport for a terminal of `term_size` (columns, rows): one row is
/// kept for the tab bar, and both dimensions are at least 1.
pub fn viewport(term_size: (u16, u16)) -> (r: (u16, u16))
    ensures
        r.0 == if term_size.0 == 0 { 1 } else { term_size.0 },
        r.1 == if term_size.1 <= 1 { 1 } else { (term_size.1 - 1) as u16 },
{
    let c: u16 = if term_size.0 == 0 {
        1
    } else {
        term_size.0
    };
    let r: u16 = if term_size.1 <= 1 {
        1
    } else {
        term_size.1 - 1
    };
    (c, r)
}

impl State {
    /// The state before anything is known: no tabs, nothing attached, normal keys.
    pub fn new(cols: u16, rows: u16) -> (r: State)
        ensures
            r.tabs@.len() == 0,
            r.current_tab is None,
            r.status is None,
            r.mode is Normal,
            r.cols == cols,
            r.rows == rows,
            !r.awaiting_list,
    {
        State {
            tabs: Vec::new(),
            current_tab: None,
            status: None,
            mode: Mode::Normal,
            cols,
            rows,
            awaiting_list: false,
        }
    }
}

/// The first request: list the tabs (and wait for the list), attach to a tab,
/// or create one, at the viewport's size.
pub fn start_requests(start: Start, state: &mut State) -> (r: Vec<Effect>)
    ensures
        final(state).tabs == old(state).tabs,
        final(state).mode == old(state).mode,
        final(state).status == old(state).status,
        final(state).current_tab == old(state).current_tab,
        final(state).cols == old(state).cols,
        final(state).rows == old(state).rows,
        match start {
            Start::Overview => final(state).awaiting_list && r@.len() == 1 && sends_list(r@[0]),
            Start::Attach(id) => final(state).awaiting_list == old(state).awaiting_list && r@.len()
                == 1 && sends_attach(r@[0], id, old(state).cols, old(state).rows),
            Start::Create(command) => final(state).awaiting_list == old(state).awaiting_list
                && r@.len() == 1 && sends_create(r@[0], command, old(state).cols, old(state).rows),
        },
{
    let mut r: Vec<Effect> = Vec::new();
    match start {
        Start::Overview => {
            state.awaiting_list = true;
            r.push(Effect::Send(Request::ListTabs));
        },
        Start::Attach(id) => {
            r.push(Effect::Send(Request::Attach { tab_id: id, cols: state.cols, rows: state.rows }));
        },
        Start::Create(command) => {
            r.push(
                Effect::Send(
                    Request::CreateTab { command, cwd: None, cols: state.cols, rows: state.rows },
                ),
            );
        },
    }
    r
}

/// `k` is the first position of a tab with id `id` in `s`.
pub open spec fn first_index(s: Seq<TabInfo>, id: u32, k: int) -> bool {
    &&& 0 <= k < s.len()
    &&& s[k].id == id
    &&& forall|j: int| 0 <= j < k ==> s[j].id != id
}

/// The tab list after learning `info`: the first tab with its id is replaced;
/// when there is none, it is added and the list sorted by id.
pub open spec fn upsert_spec(s: Seq<TabInfo>, info: TabInfo) -> Seq<TabInfo> {
    if exists|k: int| first_index(s, info.id, k) {
        s.update(choose|k: int| first_index(s, info.id, k), info)
    } else {
        sort_by_id(s.push(info))
    }
}

/// The position of the first tab with id `id`, if any.
pub fn find_tab(tabs: &Vec<TabInfo>, id: u32) -> (r: Option<usize>)
    ensures
        match r {
            Some(k) => first_index(tabs@, id, k as int) && k == (choose|c: int|
                first_index(tabs@, id, c)),
            None => (!exists|c: int| first_index(tabs@, id, c)) && (forall|j: int|
                0 <= j < tabs@.len() ==> tabs@[j].id != id),
        },
{
    let mut k: usize = 0;
    while k < tabs.len()
        invariant
            k <= tabs@.len(),
            forall|j: int| 0 <= j < k ==> tabs@[j].id != id,
        decreases tabs.len() - k,
    {
        if tabs[k].id == id {
            proof {
                assert(first_index(tabs@, id, k as int));
                let c = choose|c: int| first_index(tabs@, id, c);
                assert(c == k) by {
                    if c < k {
                    } else if c > k {
                    }
                }
            }
            return Some(k);
        }
        k = k + 1;
    }
    None
}

/// `(idx + delta)` modulo `n`, always in `0..n`.
fn wrap_index(idx: usize, delta: i32, n: usize) -> (r: usize)
    requires
        idx < n,
    ensures
        r == (idx + delta) % (n as int),
        r < n,
{
    let nn = n as u128;
    let shift: u128 = if delta >= 0 {
        (delta as u128) % nn
    } else {
        let a = ((-(delta as i64)) as u128) % nn;
        (nn - a) % nn
    };
    let r = ((idx as u128) + shift) % nn;
    proof {
        let ni = n as int;
        let di = delta as int;
        if delta >= 0 {
            vstd::arithmetic::div_mod::lemma_fundamental_div_mod(di, ni);
            vstd::arithmetic::div_mod::lemma_mod_multiples_vanish(di / ni, idx + shift, ni);
            assert(idx + di == ni * (di / ni) + (idx + shift));
        } else {
            let m: int = -di;
            let a = m % ni;
            vstd::arithmetic::div_mod::lemma_fundamental_div_mod(m, ni);
            if a == 0 {
                vstd::arithmetic::div_mod::lemma_mod_multiples_vanish(1, 0, ni);
                assert(shift == 0);
                vstd::arithmetic::div_mod::lemma_mod_multiples_vanish(-(m / ni), idx as int, ni);
                assert(idx + delta == ni * (-(m / ni)) + idx) by (nonlinear_arith)
                    requires
                        m == ni * (m / ni) + a,
                        a == 0,
                        delta == -m,
                {
                }
            } else {
                vstd::arithmetic::div_mod::lemma_small_mod((ni - a) as nat, ni as nat);
                assert(shift == ni - a);
                vstd::arithmetic::div_mod::lemma_mod_multiples_vanish(
                    -(m / ni) - 1,
                    idx + shift,
                    ni,
                );
                assert(idx + delta == ni * (-(m / ni) - 1) + (idx + shift)) by (nonlinear_arith)
                    requires
                        m == ni * (m / ni) + a,
                        shift == ni - a,
                        delta == -m,
                {
                }
            }
        }
    }
    r as usize
}

/// Recording a tab keeps a tab list that is sorted by id sorted; the list
/// grows by one exactly when no tab had that id.
pub proof fn lemma_upsert_keeps_sorted(s: Seq<TabInfo>, info: TabInfo)
    requires
        sorted_by_id(s),
    ensures
        sorted_by_id(upsert_spec(s, info)),
        upsert_spec(s, info).len() == if exists|k: int| first_index(s, info.id, k) {
            s.len()
        } else {
            s.len() + 1
        },
{
    if exists|k: int| first_index(s, info.id, k) {
        let k = choose|k: int| first_index(s, info.id, k);
        let t = s.update(k, info);
        assert forall|i: int, j: int| 0 <= i <= j < t.len() implies t[i].id <= t[j].id by {
            assert(t[i].id == s[i].id && t[j].id == s[j].id);
        }
    } else {
        lemma_sort_by_id_sorted(s.push(info));
    }
}

/// Records what the daemon said about a tab.
pub fn upsert_tab(state: &mut State, info: TabInfo)
    ensures
        final(state).tabs@ == upsert_spec(old(state).tabs@, info),
        final(state).current_tab == old(state).current_tab,
        final(state).status == old(state).status,
        final(state).cols == old(state).cols,
        final(state).rows == old(state).rows,
        final(state).awaiting_list == old(state).awaiting_list,
        final(state).mode == old(state).mode,
{
    if let Some(k) = find_tab(&state.tabs, info.id) {
        state.tabs.set(k, info);
        return;
    }
    let mut tabs = Vec::new();
    std::mem::swap(&mut tabs, &mut state.tabs);
    tabs.push(info);
    state.tabs = sort_tabs_by_id(tabs);
}

/// The tabs other than those with id `id`.
pub open spec fn without(s: Seq<TabInfo>, id: u32) -> Seq<TabInfo> {
    s.filter(|t: TabInfo| t.id != id)
}

/// Removes every tab with id `id` from the list.
fn remove_tab(tabs: &mut Vec<TabInfo>, id: u32)
    ensures
        final(tabs)@ == without(old(tabs)@, id),
{
    let ghost orig = tabs@;
    let mut rest = Vec::new();
    std::mem::swap(&mut rest, tabs);
    let n = rest.len();
    let mut k: usize = 0;
    while rest.len() > 0
        invariant
            n == orig.len(),
            k + rest@.len() == n,
            rest@ == orig.subrange(k as int, n as int),
            tabs@ == without(orig.subrange(0, k as int), id),
        decreases rest.len(),
    {
        let t = rest.remove(0);
        let ghost before = orig.subrange(0, k as int);
        assert(orig.subrange(0, k + 1).drop_last() == before);
        assert(without(orig.subrange(0, k + 1), id) == if t.id != id {
            without(before, id).push(t)
        } else {
            without(before, id)
        }) by {
            reveal(Seq::filter);
        }
        if t.id != id {
            tabs.push(t);
        }
        k = k + 1;
        assert(rest@ == orig.subrange(k as int, n as int));
    }
    assert(orig.subrange(0, n as int) == orig);
}

/// The largest id among the tabs, if there are any.
pub open spec fn max_id(s: Seq<TabInfo>, id: u32) -> bool {
    &&& exists|k: int| 0 <= k < s.len() && s[k].id == id
    &&& forall|k: int| 0 <= k < s.len() ==> s[k].id <= id
}

fn newest_tab(tabs: &Vec<TabInfo>) -> (r: Option<u32>)
    ensures
        match r {
            Some(id) => max_id(tabs@, id),
            None => tabs@.len() == 0,
        },
{
    if tabs.len() == 0 {
        return None;
    }
    let mut best: u32 = tabs[0].id;
    let mut k: usize = 1;
    while k < tabs.len()
        invariant
            1 <= k <= tabs@.len(),
            exists|j: int| 0 <= j < k && tabs@[j].id == best,
            forall|j: int| 0 <= j < k ==> tabs@[j].id <= best,
        decreases tabs.len() - k,
    {
        if tabs[k].id > best {
            best = tabs[k].id;
        }
        k = k + 1;
    }
    Some(best)
}

/// The status line shown when the attached tab is closed: `tab <id> closed`.
pub open spec fn closed_text(id: u32) -> Seq<char> {
    seq!['t', 'a', 'b', ' '] + decimal(id as nat) + seq![' ', 'c', 'l', 'o', 's', 'e', 'd']
}

/// Applies one response from the daemon.
///
/// - A tab list replaces the known tabs; when one was awaited, the newest tab
///   (largest id) is attached to, or a default shell tab is created if there is none.
/// - `Attached` makes that tab the current one, starts a fresh screen and records the tab.
/// - Screen bytes are fed to the screen when they are for the current tab.
/// - A tab update is recorded.
/// - A closed tab is forgotten; when it was the current one, the screen is
///   dropped, the status says so, and a fresh tab list is awaited.
/// - An error becomes the status line.
pub fn apply_response(resp: Response, state: &mut State) -> (r: Vec<Effect>)
    ensures
        final(state).mode == old(state).mode,
        final(state).cols == old(state).cols,
        final(state).rows == old(state).rows,
        match resp {
            Response::TabList(tabs) => {
                &&& final(state).tabs@ == tabs@
                &&& final(state).current_tab == old(state).current_tab
                &&& final(state).status == old(state).status
                &&& !final(state).awaiting_list
                &&& if !old(state).awaiting_list {
                    r@.len() == 0
                } else if tabs@.len() == 0 {
                    r@.len() == 1 && sends_create_shell(r@[0], old(state).cols, old(state).rows)
                } else {
                    r@.len() == 1 && exists|id: u32|
                        max_id(tabs@, id) && sends_attach(r@[0], id, old(state).cols, old(state).rows)
                }
            },
            Response::Attached(info) => {
                &&& final(state).current_tab == Some(info.id)
                &&& final(state).tabs@ == upsert_spec(old(state).tabs@, info)
                &&& final(state).status == old(state).status
                &&& final(state).awaiting_list == old(state).awaiting_list
                &&& r@.len() == 1
                &&& resets_screen(r@[0], old(state).rows, old(state).cols)
            },
            Response::Screen { tab_id, data } => {
                &&& final(state).tabs == old(state).tabs
                &&& final(state).current_tab == old(state).current_tab
                &&& final(state).status == old(state).status
                &&& final(state).awaiting_list == old(state).awaiting_list
                &&& if old(state).current_tab == Some(tab_id) {
                    r@.len() == 1 && feeds(r@[0], data)
                } else {
                    r@.len() == 0
                }
            },
            Response::TabUpdated(info) => {
                &&& final(state).tabs@ == upsert_spec(old(state).tabs@, info)
                &&& final(state).current_tab == old(state).current_tab
                &&& final(state).status == old(state).status
                &&& final(state).awaiting_list == old(state).awaiting_list
                &&& r@.len() == 0
            },
            Response::TabClosed(id) => {
                &&& final(state).tabs@ == without(old(state).tabs@, id)
                &&& if old(state).current_tab == Some(id) {
                    &&& final(state).current_tab is None
                    &&& final(state).status matches Some(s) && s@ == closed_text(id)
                    &&& final(state).awaiting_list
                    &&& r@.len() == 2
                    &&& r@[0] is DropScreen
                    &&& sends_list(r@[1])
                } else {
                    &&& final(state).current_tab == old(state).current_tab
                    &&& final(state).status == old(state).status
                    &&& final(state).awaiting_list == old(state).awaiting_list
                    &&& r@.len() == 0
                }
            },
            Response::Error(e) => {
                &&& final(state).tabs == old(state).tabs
                &&& final(state).current_tab == old(state).current_tab
                &&& final(state).status == Some(e)
                &&& final(state).awaiting_list == old(state).awaiting_list
                &&& r@.len() == 0
            },
            _ => {
                &&& final(state).tabs == old(state).tabs
                &&& final(state).current_tab == old(state).current_tab
                &&& final(state).status == old(state).status
                &&& final(state).awaiting_list == old(state).awaiting_list
                &&& r@.len() == 0
            },
        },
{
    let mut r: Vec<Effect> = Vec::new();
    match resp {
        Response::TabList(tabs) => {
            state.tabs = tabs;
            if state.awaiting_list {
                state.awaiting_list = false;
                match newest_tab(&state.tabs) {
                    Some(id) => {
                        r.push(
                            Effect::Send(
                                Request::Attach { tab_id: id, cols: state.cols, rows: state.rows },
                            ),
                        );
                    },
                    None => {
                        r.push(
                            Effect::Send(
                                Request::CreateTab {
                                    command: Vec::new(),
                                    cwd: None,
                                    cols: state.cols,
                                    rows: state.rows,
                                },
                            ),
                        );
                    },
                }
            }
        },
        Response::Attached(info) => {
            state.current_tab = Some(info.id);
            r.push(Effect::ResetScreen { rows: state.rows, cols: state.cols });
            upsert_tab(state, info);
        },
        Response::Screen { tab_id, data } => {
            if state.current_tab == Some(tab_id) {
                r.push(Effect::FeedScreen(data));
            }
        },
        Response::TabUpdated(info) => {
            upsert_tab(state, info);
        },
        Response::TabClosed(id) => {
            remove_tab(&mut state.tabs, id);
            if state.current_tab == Some(id) {
                state.current_tab = None;
                r.push(Effect::DropScreen);
                let mut s = string_of(&['t', 'a', 'b', ' ']);
                push_decimal(&mut s, id as u64);
                push_chars(&mut s, &[' ', 'c', 'l', 'o', 's', 'e', 'd']);
                state.status = Some(s);
                state.awaiting_list = true;
                r.push(Effect::Send(Request::ListTabs));
            }
        },
        Response::Error(e) => {
            state.status = Some(e);
        },
        Response::Done => {},
        Response::Pong => {},
    }
    r
}

/// Follows a terminal resize: the viewport becomes the new size (one row for
/// the tab bar, at least 1x1), the screen is resized, and the attached tab is
/// asked to resize.
pub fn handle_resize(cols: u16, rows: u16, state: &mut State) -> (r: Vec<Effect>)
    ensures
        (final(state).cols, final(state).rows) == ({
            let c: u16 = if cols == 0 { 1 } else { cols };
            let w: u16 = if rows <= 1 { 1 } else { (rows - 1) as u16 };
            (c, w)
        }),
        final(state).tabs == old(state).tabs,
        final(state).current_tab == old(state).current_tab,
        final(state).status == old(state).status,
        final(state).awaiting_list == old(state).awaiting_list,
        final(state).mode == old(state).mode,
        r@.len() >= 1,
        resizes_screen(r@[0], final(state).rows, final(state).cols),
        old(state).current_tab is Some ==> r@.len() == 2 && sends_resize(
            r@[1],
            final(state).cols,
            final(state).rows,
        ),
        old(state).current_tab is None ==> r@.len() == 1,
{
    let (c, w) = viewport((cols, rows));
    state.cols = c;
    state.rows = w;
    let mut r: Vec<Effect> = Vec::new();
    r.push(Effect::ResizeScreen { rows: w, cols: c });
    if state.current_tab.is_some() {
        r.push(Effect::Send(Request::Resize { cols: c, rows: w }));
    }
    r
}

/// The position of the current tab in the list, or 0 when there is none.
pub open spec fn current_index(s: Seq<TabInfo>, current: Option<u32>) -> int {
    match current {
        Some(id) => index_from(s, id, 0),
        None => 0,
    }
}

/// The first position, from `i` on, of a tab with id `id`, or 0 when there is none.
pub open spec fn index_from(s: Seq<TabInfo>, id: u32, i: int) -> int
    decreases s.len() - i,
{
    if i < 0 || i >= s.len() {
        0
    } else if s[i].id == id {
        i
    } else {
        index_from(s, id, i + 1)
    }
}

proof fn lemma_index_from_found(s: Seq<TabInfo>, id: u32, i: int, k: int)
    requires
        0 <= i <= k < s.len(),
        s[k].id == id,
        forall|j: int| i <= j < k ==> s[j].id != id,
    ensures
        index_from(s, id, i) == k,
    decreases k - i,
{
    if i < k {
        lemma_index_from_found(s, id, i + 1, k);
    }
}

proof fn lemma_index_from_absent(s: Seq<TabInfo>, id: u32, i: int)
    requires
        0 <= i,
        forall|j: int| i <= j < s.len() ==> s[j].id != id,
    ensures
        index_from(s, id, i) == 0,
    decreases s.len() - i,
{
    if i < s.len() {
        lemma_index_from_absent(s, id, i + 1);
    }
}

/// The tab `delta` places away from the current one (the first tab when
/// none is current), wrapping around the list; none when there are no tabs.
pub open spec fn switch_target(s: Seq<TabInfo>, current: Option<u32>, delta: int) -> Option<u32> {
    if s.len() == 0 {
        None
    } else {
        Some(s[(current_index(s, current) + delta) % (s.len() as int)].id)
    }
}

/// Attaches to the tab `delta` places away from the current one, wrapping
/// around the list; does nothing when there are no tabs.
pub fn switch_relative(state: &State, delta: i32) -> (r: Vec<Effect>)
    ensures
        match switch_target(state.tabs@, state.current_tab, delta as int) {
            None => r@.len() == 0,
            Some(id) => r@.len() == 1 && sends_attach(r@[0], id, state.cols, state.rows),
        },
{
    let mut r: Vec<Effect> = Vec::new();
    let n = state.tabs.len();
    if n == 0 {
        return r;
    }
    let idx: usize = match state.current_tab {
        Some(id) => match find_tab(&state.tabs, id) {
            Some(k) => k,
            None => 0,
        },
        None => 0,
    };
    proof {
        if let Some(id) = state.current_tab {
            if idx < n && first_index(state.tabs@, id, idx as int) {
                lemma_index_from_found(state.tabs@, id, 0, idx as int);
            } else {
                lemma_index_from_absent(state.tabs@, id, 0);
            }
        }
    }
    assert(idx == current_index(state.tabs@, state.current_tab));
    let new_idx = wrap_index(idx, delta, n);
    let id = state.tabs[new_idx].id;
    r.push(Effect::Send(Request::Attach { tab_id: id, cols: state.cols, rows: state.rows }));
    r
}

/// The keybindings in effect.
pub struct ParsedKeybinds {
    pub new_tab: Keybind,
    pub next_tab: Keybind,
    pub prev_tab: Keybind,
    pub close_tab: Keybind,
    pub rename_tab: Keybind,
    pub detach: Keybind,
    pub picker: Keybind,
}

/// The binding that `text` describes, or Alt with `fallback` when it does not parse.
pub open spec fn bind_or(text: Seq<char>, fallback: KeyCode) -> Keybind {
    match keybind_spec(text) {
        Ok((code, bits)) => Keybind { code, modifiers: KeyModifiers { bits } },
        Err(_) => Keybind { code: fallback, modifiers: KeyModifiers { bits: ALT_BIT } },
    }
}

fn parse_or(text: &String, fallback: KeyCode) -> (r: Keybind)
    ensures
        r == bind_or(text@, fallback),
{
    match parse_keybind(text.as_str()) {
        Ok(kb) => kb,
        Err(_) => Keybind { code: fallback, modifiers: KeyModifiers { bits: ALT_BIT } },
    }
}

impl ParsedKeybinds {
    /// The configured bindings; one that does not parse falls back to its
    /// default (`Alt+c`, `Alt+Right`, `Alt+Left`, `Alt+x`, `Alt+r`, `Alt+d`, `Alt+/`).
    pub fn from_config(cfg: &Config) -> (r: ParsedKeybinds)
        ensures
            r.new_tab == bind_or(cfg.keybindings.new_tab@, KeyCode::Char('c')),
            r.next_tab == bind_or(cfg.keybindings.next_tab@, KeyCode::Right),
            r.prev_tab == bind_or(cfg.keybindings.prev_tab@, KeyCode::Left),
            r.close_tab == bind_or(cfg.keybindings.close_tab@, KeyCode::Char('x')),
            r.rename_tab == bind_or(cfg.keybindings.rename_tab@, KeyCode::Char('r')),
            r.detach == bind_or(cfg.keybindings.detach@, KeyCode::Char('d')),
            r.picker == bind_or(cfg.keybindings.picker@, KeyCode::Char('/')),
    {
        let kb = &cfg.keybindings;
        ParsedKeybinds {
            new_tab: parse_or(&kb.new_tab, KeyCode::Char('c')),
            next_tab: parse_or(&kb.next_tab, KeyCode::Right),
            prev_tab: parse_or(&kb.prev_tab, KeyCode::Left),
            close_tab: parse_or(&kb.close_tab, KeyCode::Char('x')),
            rename_tab: parse_or(&kb.rename_tab, KeyCode::Char('r')),
            detach: parse_or(&kb.detach, KeyCode::Char('d')),
            picker: parse_or(&kb.picker, KeyCode::Char('/')),
        }
    }
}

/// Whether `key` is exactly the binding: same key, same modifiers.
pub open spec fn key_matches_spec(key: KeyEvent, bind: Keybind) -> bool {
    key.code == bind.code && key.modifiers == bind.modifiers
}

/// Whether `key` is exactly the binding: same key, same modifiers.
pub fn key_matches(key: &KeyEvent, bind: &Keybind) -> (r: bool)
    ensures
        r == key_matches_spec(*key, *bind),
{
    key.code == bind.code && key.modifiers == bind.modifiers
}

/// `s` without its last character (unchanged when empty).
pub open spec fn drop_last_char(s: Seq<char>) -> Seq<char> {
    if s.len() > 0 {
        s.drop_last()
    } else {
        s
    }
}

/// A key in the rename prompt: Enter asks to rename the attached tab to the
/// typed text and leaves the prompt, Esc leaves it, Backspace deletes the
/// last character, a character is typed; other keys do nothing.
pub open spec fn rename_step(
    input: Seq<char>,
    old: State,
    new: State,
    key: KeyEvent,
    exit: bool,
    effects: Seq<Effect>,
) -> bool {
    &&& !exit
    &&& new.tabs == old.tabs
    &&& new.current_tab == old.current_tab
    &&& new.status == old.status
    &&& new.cols == old.cols
    &&& new.rows == old.rows
    &&& new.awaiting_list == old.awaiting_list
    &&& match key.code {
        KeyCode::Enter => {
            &&& new.mode is Normal
            &&& match old.current_tab {
                Some(id) => effects.len() == 1 && (effects[0] matches Effect::Send(
                    Request::RenameTab { tab_id, title },
                ) && tab_id == id && title@ == input),
                None => effects.len() == 0,
            }
        },
        KeyCode::Esc => new.mode is Normal && effects.len() == 0,
        KeyCode::Backspace => (new.mode matches Mode::Rename { input: i } && i@ == drop_last_char(
            input,
        )) && effects.len() == 0,
        KeyCode::Char(c) => (new.mode matches Mode::Rename { input: i } && i@ == input.push(c))
            && effects.len() == 0,
        _ => (new.mode matches Mode::Rename { input: i } && i@ == input) && effects.len() == 0,
    }
}

/// The picker after its query became `q`: the tabs matching `q`, the first highlighted.
pub open spec fn picker_requery(new: State, tabs: Seq<TabInfo>, q: Seq<char>) -> bool {
    new.mode matches Mode::Picker { query, matches, selected } && query@ == q && views(matches@)
        == views(find_matches_spec(tabs, q)) && selected == 0
}

/// A key in the picker: Esc leaves it; Enter attaches to the highlighted tab
/// (when there is one) and leaves it; Up and Down move the highlight within
/// the list; Backspace and characters edit the query and match it again.
pub open spec fn picker_step(
    query: Seq<char>,
    matches: Seq<TabInfo>,
    selected: usize,
    old: State,
    new: State,
    key: KeyEvent,
    exit: bool,
    effects: Seq<Effect>,
) -> bool {
    &&& !exit
    &&& new.tabs == old.tabs
    &&& new.current_tab == old.current_tab
    &&& new.status == old.status
    &&& new.cols == old.cols
    &&& new.rows == old.rows
    &&& new.awaiting_list == old.awaiting_list
    &&& match key.code {
        KeyCode::Esc => new.mode is Normal && effects.len() == 0,
        KeyCode::Enter => if selected < matches.len() {
            &&& new.mode is Normal
            &&& effects.len() == 1
            &&& sends_attach(effects[0], matches[selected as int].id, old.cols, old.rows)
        } else {
            (new.mode matches Mode::Picker { query: q, matches: m, selected: s } && q@ == query
                && views(m@) == views(matches) && s == selected) && effects.len() == 0
        },
        KeyCode::Up => (new.mode matches Mode::Picker { query: q, matches: m, selected: s } && q@
            == query && views(m@) == views(matches) && s == (if selected > 0 {
            selected - 1
        } else {
            0
        })) && effects.len() == 0,
        KeyCode::Down => (new.mode matches Mode::Picker { query: q, matches: m, selected: s } && q@
            == query && views(m@) == views(matches) && s == (if selected + 1 < matches.len() {
            selected + 1
        } else {
            selected as int
        })) && effects.len() == 0,
        KeyCode::Backspace => picker_requery(new, old.tabs@, drop_last_char(query))
            && effects.len() == 0,
        KeyCode::Char(c) => picker_requery(new, old.tabs@, query.push(c)) && effects.len() == 0,
        _ => (new.mode matches Mode::Picker { query: q, matches: m, selected: s } && q@ == query
            && views(m@) == views(matches) && s == selected) && effects.len() == 0,
    }
}

/// A key in normal mode, tried against the bindings in this order: detach
/// (asks to detach and ends the view), new tab (a default shell tab), next and
/// previous tab, close (kills the attached tab), rename (opens the prompt when
/// a tab is attached), picker (opens it on all tabs); any other key is sent to
/// the attached tab as input bytes, when it has any.
pub open spec fn normal_step(
    kb: ParsedKeybinds,
    old: State,
    new: State,
    key: KeyEvent,
    exit: bool,
    effects: Seq<Effect>,
) -> bool {
    &&& new.tabs == old.tabs
    &&& new.current_tab == old.current_tab
    &&& new.status == old.status
    &&& new.cols == old.cols
    &&& new.rows == old.rows
    &&& new.awaiting_list == old.awaiting_list
    &&& exit == key_matches_spec(key, kb.detach)
    &&& if key_matches_spec(key, kb.detach) {
        new.mode is Normal && effects.len() == 1 && effects[0] matches Effect::Send(Request::Detach)
    } else if key_matches_spec(key, kb.new_tab) {
        new.mode is Normal && effects.len() == 1 && sends_create_shell(effects[0], old.cols, old.rows)
    } else if key_matches_spec(key, kb.next_tab) || key_matches_spec(key, kb.prev_tab) {
        let delta: int = if key_matches_spec(key, kb.next_tab) { 1 } else { -1 };
        &&& new.mode is Normal
        &&& match switch_target(old.tabs@, old.current_tab, delta) {
            None => effects.len() == 0,
            Some(id) => effects.len() == 1 && sends_attach(effects[0], id, old.cols, old.rows),
        }
    } else if key_matches_spec(key, kb.close_tab) {
        &&& new.mode is Normal
        &&& match old.current_tab {
            Some(id) => effects.len() == 1 && (effects[0] matches Effect::Send(
                Request::KillTab { tab_id },
            ) && tab_id == id),
            None => effects.len() == 0,
        }
    } else if key_matches_spec(key, kb.rename_tab) {
        &&& effects.len() == 0
        &&& if old.current_tab is Some {
            new.mode matches Mode::Rename { input } && input@.len() == 0
        } else {
            new.mode is Normal
        }
    } else if key_matches_spec(key, kb.picker) {
        &&& effects.len() == 0
        &&& new.mode matches Mode::Picker { query, matches, selected } && query@.len() == 0
            && views(matches@) == views(old.tabs@) && selected == 0
    } else {
        &&& new.mode is Normal
        &&& if key_bytes_spec(key).len() > 0 && old.current_tab is Some {
            effects.len() == 1 && (effects[0] matches Effect::Send(Request::Input(b))
                && b@ == key_bytes_spec(key))
        } else {
            effects.len() == 0
        }
    }
}

/// Copies of the tabs.
fn copy_tabs(tabs: &Vec<TabInfo>) -> (r: Vec<TabInfo>)
    ensures
        views(r@) == views(tabs@),
{
    let mut r: Vec<TabInfo> = Vec::new();
    let mut i: usize = 0;
    while i < tabs.len()
        invariant
            i <= tabs@.len(),
            views(r@) == views(tabs@.subrange(0, i as int)),
        decreases tabs.len() - i,
    {
        let ghost before = r@;
        assert(views(before).len() == before.len());
        let d = tabs[i].duplicate();
        r.push(d);
        assert(r@.len() == i + 1);
        assert(r@[i as int]@ == tabs@.subrange(0, i + 1)[i as int]@);
        assert forall|j: int| 0 <= j < r@.len() implies #[trigger] views(r@)[j] == views(
            tabs@.subrange(0, i + 1),
        )[j] by {
            if j < i {
                assert(views(before)[j] == views(tabs@.subrange(0, i as int))[j]);
                assert(r@[j] == before[j]);
                assert(tabs@.subrange(0, i + 1)[j] == tabs@.subrange(0, i as int)[j]);
            }
        }
        assert(views(r@) =~= views(tabs@.subrange(0, i + 1)));
        i = i + 1;
    }
    assert(tabs@.subrange(0, tabs@.len() as int) == tabs@);
    r
}

/// Copies of the tabs that match `query`.
fn picker_matches(tabs: &Vec<TabInfo>, query: &String) -> (r: Vec<TabInfo>)
    ensures
        views(r@) == views(find_matches_spec(tabs@, query@)),
{
    let found = find_matches(tabs.as_slice(), query.as_str());
    let ghost want = find_matches_spec(tabs@, query@);
    let mut r: Vec<TabInfo> = Vec::new();
    let mut i: usize = 0;
    while i < found.len()
        invariant
            i <= found@.len(),
            found@.map_values(|t: &TabInfo| *t) == want,
            views(r@) == views(want.subrange(0, i as int)),
        decreases found.len() - i,
    {
        assert(*found@[i as int] == found@.map_values(|t: &TabInfo| *t)[i as int]);
        let ghost before = r@;
        assert(views(before).len() == before.len());
        let d = found[i].duplicate();
        r.push(d);
        assert(r@.len() == i + 1);
        assert(r@[i as int]@ == want.subrange(0, i + 1)[i as int]@);
        assert forall|j: int| 0 <= j < r@.len() implies #[trigger] views(r@)[j] == views(
            want.subrange(0, i + 1),
        )[j] by {
            if j < i {
                assert(views(before)[j] == views(want.subrange(0, i as int))[j]);
                assert(r@[j] == before[j]);
                assert(want.subrange(0, i + 1)[j] == want.subrange(0, i as int)[j]);
            }
        }
        assert(views(r@) =~= views(want.subrange(0, i + 1)));
        i = i + 1;
    }
    assert(want.subrange(0, want.len() as int) == want);
    r
}

/// Handles a key press. Returns whether the view ends (the user detached)
/// and the effects to carry out.
pub fn handle_key(key: KeyEvent, state: &mut State, keybinds: &ParsedKeybinds) -> (r: (
    bool,
    Vec<Effect>,
))
    ensures
        match old(state).mode {
            Mode::Rename { input } => rename_step(input@, *old(state), *final(state), key, r.0, r.1@),
            Mode::Picker { query, matches, selected } => picker_step(
                query@,
                matches@,
                selected,
                *old(state),
                *final(state),
                key,
                r.0,
                r.1@,
            ),
            Mode::Normal => normal_step(*keybinds, *old(state), *final(state), key, r.0, r.1@),
        },
{
    let mut effects: Vec<Effect> = Vec::new();
    let mut mode = Mode::Normal;
    std::mem::swap(&mut mode, &mut state.mode);
    match mode {
        Mode::Rename { mut input } => {
            match key.code {
                KeyCode::Enter => {
                    if let Some(id) = state.current_tab {
                        effects.push(Effect::Send(Request::RenameTab { tab_id: id, title: input }));
                    }
                },
                KeyCode::Esc => {},
                KeyCode::Backspace => {
                    pop_char(&mut input);
                    state.mode = Mode::Rename { input };
                },
                KeyCode::Char(c) => {
                    push_char(&mut input, c);
                    state.mode = Mode::Rename { input };
                },
                _ => {
                    state.mode = Mode::Rename { input };
                },
            }
            return (false, effects);
        },
        Mode::Picker { mut query, matches, selected } => {
            match key.code {
                KeyCode::Esc => {},
                KeyCode::Enter => {
                    if selected < matches.len() {
                        let id = matches[selected].id;
                        effects.push(
                            Effect::Send(
                                Request::Attach { tab_id: id, cols: state.cols, rows: state.rows },
                            ),
                        );
                    } else {
                        state.mode = Mode::Picker { query, matches, selected };
                    }
                },
                KeyCode::Up => {
                    let s = if selected > 0 {
                        selected - 1
                    } else {
                        0
                    };
                    state.mode = Mode::Picker { query, matches, selected: s };
                },
                KeyCode::Down => {
                    let s = if selected < matches.len() && selected + 1 < matches.len() {
                        selected + 1
                    } else {
                        selected
                    };
                    state.mode = Mode::Picker { query, matches, selected: s };
                },
                KeyCode::Backspace => {
                    pop_char(&mut query);
                    let m = picker_matches(&state.tabs, &query);
                    state.mode = Mode::Picker { query, matches: m, selected: 0 };
                },
                KeyCode::Char(c) => {
                    push_char(&mut query, c);
                    let m = picker_matches(&state.tabs, &query);
                    state.mode = Mode::Picker { query, matches: m, selected: 0 };
                },
                _ => {
                    state.mode = Mode::Picker { query, matches, selected };
                },
            }
            return (false, effects);
        },
        Mode::Normal => {},
    }
    if key_matches(&key, &keybinds.detach) {
        effects.push(Effect::Send(Request::Detach));
        return (true, effects);
    }
    if key_matches(&key, &keybinds.new_tab) {
        effects.push(
            Effect::Send(
                Request::CreateTab {
                    command: Vec::new(),
                    cwd: None,
                    cols: state.cols,
                    rows: state.rows,
                },
            ),
        );
        return (false, effects);
    }
    if key_matches(&key, &keybinds.next_tab) {
        return (false, switch_relative(state, 1));
    }
    if key_matches(&key, &keybinds.prev_tab) {
        return (false, switch_relative(state, -1));
    }
    if key_matches(&key, &keybinds.close_tab) {
        if let Some(id) = state.current_tab {
            effects.push(Effect::Send(Request::KillTab { tab_id: id }));
        }
        return (false, effects);
    }
    if key_matches(&key, &keybinds.rename_tab) {
        if state.current_tab.is_some() {
            state.mode = Mode::Rename { input: String::new() };
        }
        return (false, effects);
    }
    if key_matches(&key, &keybinds.picker) {
        let all = copy_tabs(&state.tabs);
        state.mode = Mode::Picker { query: String::new(), matches: all, selected: 0 };
        return (false, effects);
    }
    let bytes = key_to_bytes(key);
    if bytes.len() > 0 && state.current_tab.is_some() {
        effects.push(Effect::Send(Request::Input(bytes)));
    }
    (false, effects)
}

/// In the picker, Up moves the highlight exactly one row up (it stays on the
/// first row), and Down moves it one row down (it stays on the last row); the
/// query and the matches are kept.
pub proof fn lemma_picker_moves_one_row(
    query: Seq<char>,
    matches: Seq<TabInfo>,
    selected: usize,
    old: State,
    new: State,
    key: KeyEvent,
    exit: bool,
    effects: Seq<Effect>,
)
    requires
        key.code is Up || key.code is Down,
        picker_step(query, matches, selected, old, new, key, exit, effects),
    ensures
        new.mode matches Mode::Picker { query: q, matches: m, selected: s } && q@ == query && views(m@)
            == views(matches) && (key.code is Up ==> (if selected > 0 {
            s + 1 == selected
        } else {
            s == 0
        })) && (key.code is Down ==> (if selected + 1 < matches.len() {
            s == selected + 1
        } else {
            s == selected
        })),
        effects.len() == 0,
        !exit,
{
}

/// Down then Up in the picker comes back to the row it started on, when there
/// was a row below it.
pub proof fn lemma_picker_down_then_up(
    query: Seq<char>,
    matches: Seq<TabInfo>,
    selected: usize,
    s0: State,
    s1: State,
    s2: State,
    down: KeyEvent,
    up: KeyEvent,
    x1: bool,
    x2: bool,
    e1: Seq<Effect>,
    e2: Seq<Effect>,
)
    requires
        down.code is Down,
        up.code is Up,
        selected + 1 < matches.len(),
        picker_step(query, matches, selected, s0, s1, down, x1, e1),
        s1.mode matches Mode::Picker { query: q1, matches: m1, selected: t1 } && picker_step(
            q1@,
            m1@,
            t1,
            s1,
            s2,
            up,
            x2,
            e2,
        ),
    ensures
        s2.mode matches Mode::Picker { query: q, matches: m, selected: s } && q@ == query && views(m@)
            == views(matches) && s == selected,
{
    lemma_picker_moves_one_row(query, matches, selected, s0, s1, down, x1, e1);
    if let Mode::Picker { query: q1, matches: m1, selected: t1 } = s1.mode {
        lemma_picker_moves_one_row(q1@, m1@, t1, s1, s2, up, x2, e2);
        assert(views(m1@).len() == m1@.len());
        assert(views(matches).len() == matches.len());
    }
}

/// Recording a tab keeps what the daemon said about it, in every field: the
/// new snapshot is in the list afterwards; when a tab with its id was listed,
/// the first such tab is replaced by it and every other tab stays where it
/// was; otherwise it is added and every tab listed before is still listed.
pub proof fn lemma_upsert_records_tab(s: Seq<TabInfo>, info: TabInfo)
    ensures
        upsert_spec(s, info).contains(info),
        forall|t: TabInfo| #[trigger] s.contains(t) && t.id != info.id ==> upsert_spec(s, info).contains(t),
        forall|k: int| #[trigger] first_index(s, info.id, k) ==> {
            &&& upsert_spec(s, info).len() == s.len()
            &&& upsert_spec(s, info)[k] == info
            &&& forall|j: int| 0 <= j < s.len() && j != k ==> #[trigger] upsert_spec(s, info)[j] == s[j]
        },
        !(exists|k: int| first_index(s, info.id, k)) ==> upsert_spec(s, info).len() == s.len() + 1
            && forall|t: TabInfo| #[trigger] s.contains(t) ==> upsert_spec(s, info).contains(t),
{
    if exists|k: int| first_index(s, info.id, k) {
        let c = choose|k: int| first_index(s, info.id, k);
        let u = s.update(c, info);
        assert forall|k: int| #[trigger] first_index(s, info.id, k) implies k == c by {
            if k < c {
                assert(s[k].id == info.id);
            } else if k > c {
                assert(s[c].id == info.id);
            }
        }
        assert(u[c] == info);
        assert forall|t: TabInfo| #[trigger] s.contains(t) && t.id != info.id implies u.contains(t) by {
            let j = choose|j: int| 0 <= j < s.len() && s[j] == t;
            assert(j != c);
            assert(u[j] == t);
        }
    } else {
        let p = s.push(info);
        lemma_sort_by_id_contains(p);
        lemma_sort_by_id_sorted(p);
        assert(p[s.len() as int] == info);
        assert forall|t: TabInfo| #[trigger] s.contains(t) implies upsert_spec(s, info).contains(t) by {
            let j = choose|j: int| 0 <= j < s.len() && s[j] == t;
            assert(p[j] == t);
        }
    }
}

/// In the rename prompt, typing a character and then Backspace leaves the
/// typed text as it was.
pub proof fn lemma_rename_type_then_erase(
    input: Seq<char>,
    s0: State,
    s1: State,
    s2: State,
    typed: KeyEvent,
    erase: KeyEvent,
    x1: bool,
    x2: bool,
    e1: Seq<Effect>,
    e2: Seq<Effect>,
)
    requires
        typed.code is Char,
        erase.code is Backspace,
        rename_step(input, s0, s1, typed, x1, e1),
        s1.mode matches Mode::Rename { input: i1 } && rename_step(i1@, s1, s2, erase, x2, e2),
    ensures
        s2.mode matches Mode::Rename { input: i2 } && i2@ == input,
        e1.len() == 0 && e2.len() == 0,
{
    if let Mode::Rename { input: i1 } = s1.mode {
        assert(i1@.drop_last() =~= input);
    }
}

/// With tabs of distinct ids, the next tab after the tab at position `k` is
/// the one after it in the list (the first after the last), the previous one
/// is the one before it (the last before the first), and going to the next
/// tab and then to the previous one comes back to the same tab.
pub proof fn lemma_next_then_previous(s: Seq<TabInfo>, k: int)
    requires
        0 <= k < s.len(),
        forall|i: int, j: int| 0 <= i < j < s.len() ==> s[i].id != s[j].id,
    ensures
        switch_target(s, Some(s[k].id), 1) == Some(s[if k + 1 < s.len() { k + 1 } else { 0 }].id),
        switch_target(s, Some(s[k].id), -1) == Some(s[if k > 0 { k - 1 } else { s.len() - 1 }].id),
        switch_target(s, switch_target(s, Some(s[k].id), 1), -1) == Some(s[k].id),
        switch_target(s, switch_target(s, Some(s[k].id), -1), 1) == Some(s[k].id),
{
    let n = s.len() as int;
    let next = if k + 1 < n { k + 1 } else { 0 };
    let prev = if k > 0 { k - 1 } else { n - 1 };
    lemma_index_of_distinct(s, k);
    lemma_index_of_distinct(s, next);
    lemma_index_of_distinct(s, prev);
    assert((k + 1) % n == next) by {
        if k + 1 < n {
            vstd::arithmetic::div_mod::lemma_small_mod((k + 1) as nat, n as nat);
        } else {
            vstd::arithmetic::div_mod::lemma_mod_self_0(n);
        }
    }
    assert((k + -1) % n == prev) by {
        if k > 0 {
            vstd::arithmetic::div_mod::lemma_small_mod((k - 1) as nat, n as nat);
        } else {
            assert((-1int) % n == n - 1) by (nonlinear_arith)
                requires
                    n > 0,
            {
            }
        }
    }
    assert((next + -1) % n == k) by {
        if k + 1 < n {
            vstd::arithmetic::div_mod::lemma_small_mod(k as nat, n as nat);
        } else {
            assert((-1int) % n == n - 1) by (nonlinear_arith)
                requires
                    n > 0,
            {
            }
        }
    }
    assert((prev + 1) % n == k) by {
        if k > 0 {
            vstd::arithmetic::div_mod::lemma_small_mod(k as nat, n as nat);
        } else {
            vstd::arithmetic::div_mod::lemma_mod_self_0(n);
        }
    }
}

/// In a list of distinct ids, the position of a tab is the position of its id.
proof fn lemma_index_of_distinct(s: Seq<TabInfo>, k: int)
    requires
        0 <= k < s.len(),
        forall|i: int, j: int| 0 <= i < j < s.len() ==> s[i].id != s[j].id,
    ensures
        current_index(s, Some(s[k].id)) == k,
{
    lemma_index_from_found(s, s[k].id, 0, k);
}

/// Forgetting a closed tab removes exactly the tabs with its id: a tab stays
/// listed if and only if it was listed and has another id.
pub proof fn lemma_closed_tab_forgotten(s: Seq<TabInfo>, id: u32)
    ensures
        forall|t: TabInfo| #[trigger] without(s, id).contains(t) <==> (s.contains(t) && t.id != id),
        forall|i: int| 0 <= i < without(s, id).len() ==> #[trigger] without(s, id)[i].id != id,
{
    let pred = |t: TabInfo| t.id != id;
    s.filter_lemma(pred);
    assert forall|t: TabInfo| #[trigger] without(s, id).contains(t) <==> (s.contains(t) && t.id != id) by {
        if without(s, id).contains(t) {
            s.lemma_filter_contains_rev(pred, t);
        }
        if s.contains(t) && t.id != id {
            let k = choose|k: int| 0 <= k < s.len() && s[k] == t;
            assert(without(s, id).contains(s[k]));
        }
    }
}

/// With tabs of distinct ids and the tab at position `k` attached, the
/// next-tab key (when it is not also bound to detaching or a new tab) asks to
/// attach to the tab after it (the first after the last), and the
/// previous-tab key to the tab before it (the last before the first).
pub proof fn lemma_tab_keys_move_one_tab(
    kb: ParsedKeybinds,
    old: State,
    new: State,
    key: KeyEvent,
    exit: bool,
    effects: Seq<Effect>,
    k: int,
)
    requires
        normal_step(kb, old, new, key, exit, effects),
        !key_matches_spec(key, kb.detach),
        !key_matches_spec(key, kb.new_tab),
        0 <= k < old.tabs@.len(),
        old.current_tab == Some(old.tabs@[k].id),
        forall|i: int, j: int| 0 <= i < j < old.tabs@.len() ==> old.tabs@[i].id != old.tabs@[j].id,
    ensures
        key_matches_spec(key, kb.next_tab) ==> effects.len() == 1 && sends_attach(
            effects[0],
            old.tabs@[if k + 1 < old.tabs@.len() { k + 1 } else { 0 }].id,
            old.cols,
            old.rows,
        ),
        !key_matches_spec(key, kb.next_tab) && key_matches_spec(key, kb.prev_tab) ==> effects.len() == 1
            && sends_attach(
            effects[0],
            old.tabs@[if k > 0 { k - 1 } else { old.tabs@.len() - 1 }].id,
            old.cols,
            old.rows,
        ),
{
    lemma_next_then_previous(old.tabs@, k);
}

/// In the picker, Down and then Enter attaches to the match below the one
/// that was highlighted, and the picker closes.
pub proof fn lemma_picker_down_then_enter(
    query: Seq<char>,
    matches: Seq<TabInfo>,
    selected: usize,
    s0: State,
    s1: State,
    s2: State,
    down: KeyEvent,
    enter: KeyEvent,
    x1: bool,
    x2: bool,
    e1: Seq<Effect>,
    e2: Seq<Effect>,
)
    requires
        down.code is Down,
        enter.code is Enter,
        selected + 1 < matches.len(),
        picker_step(query, matches, selected, s0, s1, down, x1, e1),
        s1.mode matches Mode::Picker { query: q1, matches: m1, selected: t1 } && picker_step(
            q1@,
            m1@,
            t1,
            s1,
            s2,
            enter,
            x2,
            e2,
        ),
    ensures
        s2.mode is Normal,
        e2.len() == 1 && sends_attach(e2[0], matches[selected + 1].id, s0.cols, s0.rows),
{
    lemma_picker_moves_one_row(query, matches, selected, s0, s1, down, x1, e1);
    if let Mode::Picker { query: q1, matches: m1, selected: t1 } = s1.mode {
        assert(views(m1@).len() == m1@.len());
        assert(views(matches).len() == matches.len());
        assert(views(m1@)[t1 as int] == views(matches)[t1 as int]);
    }
}

} // verus!
