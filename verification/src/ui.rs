//! What the full-screen view shows, decided apart from drawing it: tab labels
//! and styles, which tabs fit in the tab bar, how a workspace path is cut to
//! width, and where a popup goes.

use vstd::prelude::*;
use crate::protocol::{ExitInfo, TabInfo, program_name};
use crate::tui::{find_tab, first_index};
use crate::text::{
    chars_of, decimal, decimal_chars, pad_left, push_char, push_chars, push_decimal, push_padded_left,
    string_of, string_of_range,
};

verus! {

/// The text shown for a tab's name: its title, or its program name when the
/// title is empty.
pub open spec fn shown_title(t: TabInfo) -> Seq<char> {
    if t.title@.len() == 0 {
        program_name(t@.command)
    } else {
        t.title@
    }
}

/// A tab's label in the tab bar: ` id:title `, with `[exited] ` added once
/// its process has exited.
pub open spec fn tab_label_spec(t: TabInfo) -> Seq<char> {
    let head = seq![' '] + decimal(t.id as nat) + seq![':'] + shown_title(t);
    if t.exit is Some {
        head + seq![' ', '[', 'e', 'x', 'i', 't', 'e', 'd', ']', ' ']
    } else {
        head + seq![' ']
    }
}

/// Appends the text shown for `tab`'s name.
pub fn push_shown_title(r: &mut String, tab: &TabInfo)
    ensures
        final(r)@ == old(r)@ + shown_title(*tab),
{
    if tab.title.as_str().unicode_len() == 0 {
        push_chars(r, &chars_of(tab.program()));
    } else {
        push_chars(r, &chars_of(tab.title.as_str()));
    }
}

/// One row of the tab picker: the id right-aligned in three columns, two
/// spaces, then the tab's name.
pub open spec fn picker_line_spec(t: TabInfo) -> Seq<char> {
    pad_left(decimal(t.id as nat), 3) + seq![' ', ' '] + shown_title(t)
}

/// The row that shows `tab` in the tab picker.
pub fn picker_line(tab: &TabInfo) -> (r: String)
    ensures
        r@ == picker_line_spec(*tab),
{
    let mut r = String::new();
    push_padded_left(&mut r, &decimal_chars(tab.id as u64), 3);
    push_chars(&mut r, &[' ', ' ']);
    push_shown_title(&mut r, tab);
    r
}

/// The label of `tab` in the tab bar.
pub fn tab_label(tab: &TabInfo) -> (r: String)
    ensures
        r@ == tab_label_spec(*tab),
{
    let mut r = String::new();
    push_char(&mut r, ' ');
    push_decimal(&mut r, tab.id as u64);
    push_char(&mut r, ':');
    push_shown_title(&mut r, tab);
    if tab.exit.is_some() {
        push_chars(&mut r, &[' ', '[', 'e', 'x', 'i', 't', 'e', 'd', ']', ' ']);
    } else {
        push_char(&mut r, ' ');
    }
    r
}

/// Colors that the tab bar uses.
#[derive(Clone, Copy, Debug, PartialEq, Eq)]
pub enum Color {
    Black,
    Yellow,
    Cyan,
    DarkGray,
    Gray,
}

/// How a tab label is drawn.
#[derive(Clone, Copy, Debug, PartialEq, Eq)]
pub struct TabStyle {
    pub fg: Color,
    pub bg: Option<Color>,
    pub bold: bool,
}

/// The style of a tab label: the active tab bold, black on cyan (black on
/// yellow once exited); other tabs gray (dark gray once exited); a tab that
/// rang the bell and is not active has a yellow foreground.
pub open spec fn tab_style_spec(t: TabInfo, active: bool) -> TabStyle {
    let dead = t.exit is Some;
    let base = if active {
        if dead {
            TabStyle { fg: Color::Black, bg: Some(Color::Yellow), bold: true }
        } else {
            TabStyle { fg: Color::Black, bg: Some(Color::Cyan), bold: true }
        }
    } else if dead {
        TabStyle { fg: Color::DarkGray, bg: None, bold: false }
    } else {
        TabStyle { fg: Color::Gray, bg: None, bold: false }
    };
    if t.bell && !active {
        TabStyle { fg: Color::Yellow, ..base }
    } else {
        base
    }
}

/// The style of `tab`'s label.
pub fn tab_style(tab: &TabInfo, active: bool) -> (r: TabStyle)
    ensures
        r == tab_style_spec(*tab, active),
{
    let dead = tab.exit.is_some();
    let style = if active {
        if dead {
            TabStyle { fg: Color::Black, bg: Some(Color::Yellow), bold: true }
        } else {
            TabStyle { fg: Color::Black, bg: Some(Color::Cyan), bold: true }
        }
    } else if dead {
        TabStyle { fg: Color::DarkGray, bg: None, bold: false }
    } else {
        TabStyle { fg: Color::Gray, bg: None, bold: false }
    };
    if tab.bell && !active {
        TabStyle { fg: Color::Yellow, bg: style.bg, bold: style.bold }
    } else {
        style
    }
}

/// The widths (in characters) of the labels.
pub open spec fn widths(labels: Seq<String>) -> Seq<nat> {
    labels.map_values(|l: String| l@.len())
}

/// The total width of labels `a..b`.
pub open spec fn total(w: Seq<nat>, a: int, b: int) -> nat
    decreases b - a,
{
    if b <= a {
        0
    } else {
        total(w, a, b - 1) + w[b - 1]
    }
}

/// The window `start..end` that keeps growing, one label to the right and then
/// one to the left per round, while the added label still fits in `avail`,
/// until a round adds nothing.
pub open spec fn grow(w: Seq<nat>, avail: nat, start: int, end: int, used: nat) -> (int, int)
    decreases w.len() - end + start,
    when 0 <= start && end <= w.len()
{
    let right = end < w.len() && used + w[end] <= avail;
    let end2 = if right { end + 1 } else { end };
    let used2 = if right { used + w[end] } else { used };
    let left = start > 0 && used2 + w[start - 1] <= avail;
    let start2 = if left { start - 1 } else { start };
    let used3 = if left { used2 + w[start - 1] } else { used2 };
    if !right && !left {
        (start, end)
    } else {
        grow(w, avail, start2, end2, used3)
    }
}

proof fn lemma_total_step(w: Seq<nat>, a: int, b: int)
    requires
        0 <= a <= b,
    ensures
        total(w, a, b + 1) == total(w, a, b) + w[b],
        a > 0 ==> total(w, a - 1, b) == w[a - 1] + total(w, a, b),
    decreases b - a,
{
    if a > 0 && b > a {
        lemma_total_step(w, a, b - 1);
    } else if a > 0 {
        assert(total(w, a - 1, a - 1) == 0);
        assert(total(w, a, b) == 0);
    }
}

/// Picks the contiguous run `start..end` of tab labels to show in `width`
/// columns (two columns at each side are kept for the arrows), growing out
/// from `selected` one label to the right and then one to the left per round
/// while they fit, so the selection stays roughly centered until an edge of
/// the list is reached. Also says whether tabs are hidden on either side.
pub fn tab_window(labels: &[String], selected: usize, width: u16) -> (r: (usize, usize, bool, bool))
    requires
        labels@.len() == 0 || selected < labels@.len(),
    ensures
        labels@.len() == 0 ==> r == (0usize, 0usize, false, false),
        labels@.len() > 0 ==> {
            let w = widths(labels@);
            let avail = if width >= 4 {
                (width - 4) as nat
            } else {
                0nat
            };
            let n = labels@.len() as int;
            &&& (r.0 as int, r.1 as int) == grow(
                w,
                avail,
                selected as int,
                selected + 1,
                w[selected as int],
            )
            &&& r.2 == (r.0 > 0)
            &&& r.3 == (r.1 < n)
            // the selection stays visible
            &&& r.0 <= selected < r.1 <= n
            // what is shown fits, unless the selected label alone is too wide
            &&& (total(w, r.0 as int, r.1 as int) <= avail || r.1 - r.0 == 1)
            // no neighbouring label would still have fit
            &&& (r.1 < n ==> total(w, r.0 as int, r.1 as int) + w[r.1 as int] > avail)
            &&& (r.0 > 0 ==> total(w, r.0 as int, r.1 as int) + w[r.0 - 1] > avail)
        },
{
    let n = labels.len();
    if n == 0 {
        return (0, 0, false, false);
    }
    let ghost w = widths(labels@);
    let avail: usize = if width >= 4 {
        (width - 4) as usize
    } else {
        0
    };
    let mut start: usize = selected;
    let mut end: usize = selected + 1;
    let mut used: usize = labels[selected].as_str().unicode_len();
    assert(total(w, selected as int, selected + 1) == w[selected as int]) by {
        assert(total(w, selected as int, selected as int) == 0);
    }
    loop
        invariant
            n == labels@.len(),
            w == widths(labels@),
            w.len() == n,
            avail <= u16::MAX,
            start <= selected < end <= n,
            used == total(w, start as int, end as int),
            used <= avail || (start == selected && end == selected + 1),
            grow(w, avail as nat, selected as int, selected + 1, w[selected as int]) == grow(
                w,
                avail as nat,
                start as int,
                end as int,
                used as nat,
            ),
        ensures
            start <= selected < end <= n,
            used == total(w, start as int, end as int),
            used <= avail || (start == selected && end == selected + 1),
            grow(w, avail as nat, selected as int, selected + 1, w[selected as int]) == (
                start as int,
                end as int,
            ),
            end < n ==> used + w[end as int] > avail,
            start > 0 ==> used + w[start - 1] > avail,
        decreases n - end + start,
    {
        let ghost (s0, e0, u0) = (start as int, end as int, used as nat);
        let mut grew = false;
        if end < n {
            let wr = labels[end].as_str().unicode_len();
            if wr <= avail && used <= avail - wr {
                proof {
                    lemma_total_step(w, start as int, end as int);
                }
                used = used + wr;
                end = end + 1;
                grew = true;
            }
        }
        let ghost right = grew;
        if start > 0 {
            let wl = labels[start - 1].as_str().unicode_len();
            if wl <= avail && used <= avail - wl {
                proof {
                    lemma_total_step(w, start as int, end as int);
                }
                used = used + wl;
                start = start - 1;
                grew = true;
            }
        }
        if !grew {
            break;
        }
    }
    (start, end, start > 0, end < n)
}

/// What the tab bar shows besides its `Nux › ` prefix.
pub struct TabBar {
    /// The label of every tab, in list order.
    pub labels: Vec<String>,
    /// The position of the current tab (0 when none is current).
    pub selected: usize,
    /// The run of labels shown, and whether tabs are hidden on either side.
    pub start: usize,
    pub end: usize,
    pub show_left: bool,
    pub show_right: bool,
    /// The note about the current tab's exited process, if any.
    pub exit_note: Option<String>,
}

/// The note shown for the current tab once its process exited:
/// `  process exited`, with ` (code N)` when it failed.
pub open spec fn exit_note_spec(e: ExitInfo) -> Seq<char> {
    let head = seq![' ', ' ', 'p', 'r', 'o', 'c', 'e', 's', 's', ' ', 'e', 'x', 'i', 't', 'e', 'd'];
    if e.success {
        head
    } else {
        head + seq![' ', '(', 'c', 'o', 'd', 'e', ' '] + decimal(e.code as nat) + seq![')']
    }
}

/// Width of the tab bar's `Nux › ` prefix.
pub const TAB_BAR_PREFIX_WIDTH: u16 = 6;

/// Plans the tab bar for `width` columns: every tab's label, the run of them
/// that fits after the prefix around the current tab (the first tab when none
/// is current), and the exit note of the current tab.
pub fn tab_bar(tabs: &Vec<TabInfo>, current: Option<u32>, width: u16) -> (r: TabBar)
    ensures
        r.labels@.len() == tabs@.len(),
        forall|i: int| 0 <= i < tabs@.len() ==> #[trigger] r.labels@[i]@ == tab_label_spec(tabs@[i]),
        match current {
            Some(id) => if exists|k: int| first_index(tabs@, id, k) {
                first_index(tabs@, id, r.selected as int)
            } else {
                r.selected == 0
            },
            None => r.selected == 0,
        },
        tabs@.len() == 0 ==> r.start == 0 && r.end == 0 && !r.show_left && !r.show_right,
        tabs@.len() > 0 ==> {
            let w = widths(r.labels@);
            let strip = if width >= TAB_BAR_PREFIX_WIDTH { width - TAB_BAR_PREFIX_WIDTH } else { 0 };
            let avail = if strip >= 4 {
                (strip - 4) as nat
            } else {
                0nat
            };
            &&& (r.start as int, r.end as int) == grow(
                w,
                avail,
                r.selected as int,
                r.selected + 1,
                w[r.selected as int],
            )
            &&& r.show_left == (r.start > 0)
            &&& r.show_right == (r.end < tabs@.len())
        },
        match current {
            Some(id) => if exists|k: int| first_index(tabs@, id, k) {
                match tabs@[r.selected as int].exit {
                    Some(e) => r.exit_note matches Some(n) && n@ == exit_note_spec(e),
                    None => r.exit_note is None,
                }
            } else {
                r.exit_note is None
            },
            None => r.exit_note is None,
        },
{
    let mut labels: Vec<String> = Vec::new();
    let mut i: usize = 0;
    while i < tabs.len()
        invariant
            i <= tabs@.len(),
            labels@.len() == i,
            forall|j: int| 0 <= j < i ==> #[trigger] labels@[j]@ == tab_label_spec(tabs@[j]),
        decreases tabs.len() - i,
    {
        labels.push(tab_label(&tabs[i]));
        i = i + 1;
    }
    let pos = match current {
        Some(id) => find_tab(tabs, id),
        None => None,
    };
    let (selected, found): (usize, bool) = match pos {
        Some(k) => (k, true),
        None => (0, false),
    };
    let strip: u16 = if width >= TAB_BAR_PREFIX_WIDTH {
        width - TAB_BAR_PREFIX_WIDTH
    } else {
        0
    };
    let (start, end, show_left, show_right) = tab_window(labels.as_slice(), selected, strip);
    let mut exit_note: Option<String> = None;
    if found {
        if let Some(e) = tabs[selected].exit {
            let mut n = string_of(
                &[' ', ' ', 'p', 'r', 'o', 'c', 'e', 's', 's', ' ', 'e', 'x', 'i', 't', 'e', 'd'],
            );
            if !e.success {
                push_chars(&mut n, &[' ', '(', 'c', 'o', 'd', 'e', ' ']);
                push_decimal(&mut n, e.code as u64);
                push_char(&mut n, ')');
            }
            exit_note = Some(n);
        }
    }
    TabBar { labels, selected, start, end, show_left, show_right, exit_note }
}

/// `path` fitted into `width` columns: right-aligned with spaces when it is
/// short enough, otherwise its last `width - 1` characters after an ellipsis
/// (just an ellipsis for one column, nothing for none).
pub open spec fn trim_path_spec(path: Seq<char>, width: nat) -> Seq<char> {
    let len = path.len();
    if len <= width {
        Seq::new((width - len) as nat, |i: int| ' ') + path
    } else if width == 0 {
        Seq::empty()
    } else if width == 1 {
        seq!['\u{2026}']
    } else {
        seq!['\u{2026}'] + path.subrange(len - (width - 1), len as int)
    }
}

/// Fits a workspace path into `width` columns.
pub fn trim_path(path: &str, width: u16) -> (r: String)
    ensures
        r@ == trim_path_spec(path@, width as nat),
{
    let v = chars_of(path);
    let w = width as usize;
    let len = v.len();
    if len <= w {
        let mut r = String::new();
        let mut i: usize = 0;
        while i < w - len
            invariant
                i <= w - len,
                r@ == Seq::new(i as nat, |k: int| ' '),
            decreases w - len - i,
        {
            push_char(&mut r, ' ');
            i = i + 1;
            assert(r@ == Seq::new(i as nat, |k: int| ' '));
        }
        push_chars(&mut r, &v);
        return r;
    }
    if w == 0 {
        return String::new();
    }
    let mut r = String::new();
    push_char(&mut r, '\u{2026}');
    if w == 1 {
        return r;
    }
    let tail = string_of_range(&v, len - (w - 1), len);
    push_chars(&mut r, &chars_of(tail.as_str()));
    r
}

/// A rectangle of terminal cells.
#[derive(Clone, Copy, Debug, PartialEq, Eq)]
pub struct Rect {
    pub x: u16,
    pub y: u16,
    pub width: u16,
    pub height: u16,
}

/// A `width` by `height` rectangle centered in `area`, shrunk to fit it.
pub fn centered(area: Rect, width: u16, height: u16) -> (r: Rect)
    requires
        area.x + area.width <= u16::MAX,
        area.y + area.height <= u16::MAX,
    ensures
        r.width == if width < area.width { width } else { area.width },
        r.height == if height < area.height { height } else { area.height },
        r.x == area.x + (area.width - r.width) / 2,
        r.y == area.y + (area.height - r.height) / 2,
{
    let w = if width < area.width {
        width
    } else {
        area.width
    };
    let h = if height < area.height {
        height
    } else {
        area.height
    };
    Rect { x: area.x + (area.width - w) / 2, y: area.y + (area.height - h) / 2, width: w, height: h }
}

} // verus!
