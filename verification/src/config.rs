//! User configuration (default shell, scrollback size, keybindings) and the
//! parser for keybinding strings such as `"Alt+Right"` or `"Ctrl+Shift+n"`.
//!
//! The configuration file itself is read and written by the program around
//! this library; here are its values and their defaults.

use vstd::prelude::*;
use crate::selector::{parse_u32, parse_u32_spec};
use crate::text::{
    chars_of, lowercase, push_chars, same_chars, split_on, split_pieces, string_of, to_lowercase, trim,
    trim_chars,
};

verus! {

/// When plain command output is colored.
#[derive(Clone, Copy, Debug, PartialEq, Eq)]
pub enum ColorMode {
    /// Color when standard output is a terminal and `NO_COLOR` is unset.
    Auto,
    Always,
    Never,
}

/// A key, as a terminal reports it.
#[derive(Clone, Copy, Debug, PartialEq, Eq, Structural)]
pub enum KeyCode {
    Backspace,
    Enter,
    Left,
    Right,
    Up,
    Down,
    Home,
    End,
    PageUp,
    PageDown,
    Tab,
    BackTab,
    Delete,
    Insert,
    F(u8),
    Char(char),
    Null,
    Esc,
    CapsLock,
    ScrollLock,
    NumLock,
    PrintScreen,
    Pause,
    Menu,
    KeypadBegin,
    /// A media or modifier key, which maps to no input bytes and no binding.
    Other,
}

/// A set of modifier keys, one bit each.
#[derive(Clone, Copy, Debug, PartialEq, Eq, Structural)]
pub struct KeyModifiers {
    pub bits: u8,
}

/// The bit of each modifier.
pub const SHIFT_BIT: u8 = 1;
pub const CONTROL_BIT: u8 = 2;
pub const ALT_BIT: u8 = 4;
pub const SUPER_BIT: u8 = 8;
pub const HYPER_BIT: u8 = 16;
pub const META_BIT: u8 = 32;

impl KeyModifiers {
    /// No modifier.
    pub fn none() -> (r: KeyModifiers)
        ensures
            r.bits == 0,
    {
        KeyModifiers { bits: 0 }
    }

    /// Shift alone.
    pub fn shift() -> (r: KeyModifiers)
        ensures
            r.bits == SHIFT_BIT,
    {
        KeyModifiers { bits: SHIFT_BIT }
    }

    /// Control alone.
    pub fn control() -> (r: KeyModifiers)
        ensures
            r.bits == CONTROL_BIT,
    {
        KeyModifiers { bits: CONTROL_BIT }
    }

    /// Alt alone.
    pub fn alt() -> (r: KeyModifiers)
        ensures
            r.bits == ALT_BIT,
    {
        KeyModifiers { bits: ALT_BIT }
    }

    /// Whether every modifier of `other` is in `self`.
    pub fn contains(&self, other: KeyModifiers) -> (r: bool)
        ensures
            r == (self.bits & other.bits == other.bits),
    {
        self.bits & other.bits == other.bits
    }
}

/// A parsed keybinding: the key code plus the exact modifiers it needs.
#[derive(Clone, Copy, Debug, PartialEq, Eq, Structural)]
pub struct Keybind {
    pub code: KeyCode,
    pub modifiers: KeyModifiers,
}

/// Why a keybinding string was refused.
#[derive(Clone, Debug, PartialEq, Eq)]
pub enum KeybindError {
    /// Nothing but separators and spaces.
    Empty,
    /// A word before the last one is not a modifier (the word, lowercased).
    UnknownModifier(String),
    /// The last word names no key (the word, lowercased).
    UnknownKey(String),
    /// Every word is a modifier.
    MissingKey,
}

/// The value of a `KeybindError` with its strings as character sequences.
pub enum KeybindErrorView {
    Empty,
    UnknownModifier(Seq<char>),
    UnknownKey(Seq<char>),
    MissingKey,
}

impl View for KeybindError {
    type V = KeybindErrorView;

    open spec fn view(&self) -> KeybindErrorView {
        match self {
            KeybindError::Empty => KeybindErrorView::Empty,
            KeybindError::UnknownModifier(w) => KeybindErrorView::UnknownModifier(w@),
            KeybindError::UnknownKey(w) => KeybindErrorView::UnknownKey(w@),
            KeybindError::MissingKey => KeybindErrorView::MissingKey,
        }
    }
}

/// Keybindings, written as strings like `"Alt+n"`, `"Ctrl+q"`, `"F2"`.
#[derive(Clone, Debug)]
pub struct Keybindings {
    pub new_tab: String,
    pub next_tab: String,
    pub prev_tab: String,
    pub close_tab: String,
    pub rename_tab: String,
    pub detach: String,
    pub picker: String,
}

/// User configuration.
#[derive(Clone, Debug)]
pub struct Config {
    /// Shell used for new tabs when no explicit command is given; `None` means "detect".
    pub shell: Option<String>,
    /// Lines of scrollback kept per tab by the terminal emulator.
    pub scrollback_lines: usize,
    pub keybindings: Keybindings,
    /// Remove a tab as soon as its process exits, instead of keeping it listed
    /// until it is dismissed.
    pub auto_close_exited_tabs: bool,
}

/// `"Alt+c"`, `"Alt+Right"`, `"Alt+Left"`, `"Alt+x"`, `"Alt+r"`, `"Alt+d"`, `"Alt+/"`.
pub open spec fn alt(k: Seq<char>) -> Seq<char> {
    seq!['A', 'l', 't', '+'] + k
}

impl Keybindings {
    /// The default bindings: new tab `Alt+c`, next `Alt+Right`, previous
    /// `Alt+Left`, close `Alt+x`, rename `Alt+r`, detach `Alt+d`, picker `Alt+/`.
    pub fn default() -> (r: Keybindings)
        ensures
            r.new_tab@ == alt(seq!['c']),
            r.next_tab@ == alt(seq!['R', 'i', 'g', 'h', 't']),
            r.prev_tab@ == alt(seq!['L', 'e', 'f', 't']),
            r.close_tab@ == alt(seq!['x']),
            r.rename_tab@ == alt(seq!['r']),
            r.detach@ == alt(seq!['d']),
            r.picker@ == alt(seq!['/']),
    {
        Keybindings {
            new_tab: alt_binding(&['c']),
            next_tab: alt_binding(&['R', 'i', 'g', 'h', 't']),
            prev_tab: alt_binding(&['L', 'e', 'f', 't']),
            close_tab: alt_binding(&['x']),
            rename_tab: alt_binding(&['r']),
            detach: alt_binding(&['d']),
            picker: alt_binding(&['/']),
        }
    }
}

fn alt_binding(key: &[char]) -> (r: String)
    ensures
        r@ == alt(key@),
{
    let mut s = string_of(&['A', 'l', 't', '+']);
    push_chars(&mut s, key);
    s
}

impl Config {
    /// The defaults: detected shell, 5000 lines of scrollback, the default
    /// keybindings, exited tabs kept until dismissed.
    pub fn default() -> (r: Config)
        ensures
            r.shell is None,
            r.scrollback_lines == 5000,
            !r.auto_close_exited_tabs,
            r.keybindings.new_tab@ == alt(seq!['c']),
            r.keybindings.next_tab@ == alt(seq!['R', 'i', 'g', 'h', 't']),
            r.keybindings.prev_tab@ == alt(seq!['L', 'e', 'f', 't']),
            r.keybindings.close_tab@ == alt(seq!['x']),
            r.keybindings.rename_tab@ == alt(seq!['r']),
            r.keybindings.detach@ == alt(seq!['d']),
            r.keybindings.picker@ == alt(seq!['/']),
    {
        Config {
            shell: None,
            scrollback_lines: 5000,
            keybindings: Keybindings::default(),
            auto_close_exited_tabs: false,
        }
    }
}

/// The words of a keybinding: its `+`-separated pieces, trimmed, empty ones dropped.
pub open spec fn keybind_words(s: Seq<char>) -> Seq<Seq<char>> {
    split_on(s, '+').map_values(|p: Seq<char>| trim(p)).filter(|p: Seq<char>| p.len() > 0)
}

/// The modifier bits that a (lowercased) word names, or 0 for a word that names none.
pub open spec fn modifier_bit(w: Seq<char>) -> u8 {
    if w == seq!['c', 't', 'r', 'l'] || w == seq!['c', 'o', 'n', 't', 'r', 'o', 'l'] {
        CONTROL_BIT
    } else if w == seq!['a', 'l', 't'] || w == seq!['o', 'p', 't'] || w == seq![
        'o',
        'p',
        't',
        'i',
        'o',
        'n',
    ] {
        ALT_BIT
    } else if w == seq!['s', 'h', 'i', 'f', 't'] {
        SHIFT_BIT
    } else {
        0
    }
}

/// What `u8::from_str` gives for `s`.
pub open spec fn parse_u8_spec(s: Seq<char>) -> Option<u8> {
    match parse_u32_spec(s) {
        Some(v) => if v <= 255 {
            Some(v as u8)
        } else {
            None
        },
        None => None,
    }
}

/// The key that a (lowercased) key word names, or `None`. One character
/// stands for itself; `left`, `right`, `up`, `down`, `esc`/`escape`,
/// `enter`/`return`, `tab`, `backspace`, `delete`/`del` and `space` name
/// their keys (compared after a further lowercasing), and `f` followed by a
/// number up to 255 names that function key.
pub open spec fn key_code_spec(key: Seq<char>) -> Option<KeyCode> {
    if key.len() == 1 {
        Some(KeyCode::Char(key[0]))
    } else {
        let k = lowercase(key);
        if k == seq!['l', 'e', 'f', 't'] {
            Some(KeyCode::Left)
        } else if k == seq!['r', 'i', 'g', 'h', 't'] {
            Some(KeyCode::Right)
        } else if k == seq!['u', 'p'] {
            Some(KeyCode::Up)
        } else if k == seq!['d', 'o', 'w', 'n'] {
            Some(KeyCode::Down)
        } else if k == seq!['e', 's', 'c'] || k == seq!['e', 's', 'c', 'a', 'p', 'e'] {
            Some(KeyCode::Esc)
        } else if k == seq!['e', 'n', 't', 'e', 'r'] || k == seq!['r', 'e', 't', 'u', 'r', 'n'] {
            Some(KeyCode::Enter)
        } else if k == seq!['t', 'a', 'b'] {
            Some(KeyCode::Tab)
        } else if k == seq!['b', 'a', 'c', 'k', 's', 'p', 'a', 'c', 'e'] {
            Some(KeyCode::Backspace)
        } else if k == seq!['d', 'e', 'l', 'e', 't', 'e'] || k == seq!['d', 'e', 'l'] {
            Some(KeyCode::Delete)
        } else if k == seq!['s', 'p', 'a', 'c', 'e'] {
            Some(KeyCode::Char(' '))
        } else if k.len() > 0 && k[0] == 'f' && parse_u8_spec(k.drop_first()) is Some {
            Some(KeyCode::F(parse_u8_spec(k.drop_first())->0))
        } else {
            None
        }
    }
}

/// The position of the first word, from `i` on, that names no modifier (the
/// number of words when there is none).
pub open spec fn first_plain(words: Seq<Seq<char>>, i: int) -> int
    decreases words.len() - i,
{
    if i < 0 || i >= words.len() {
        words.len() as int
    } else if modifier_bit(lowercase(words[i])) == 0 {
        i
    } else {
        first_plain(words, i + 1)
    }
}

/// What parsing a keybinding string gives: the key and modifier bits, or the
/// reason it is refused.
pub open spec fn keybind_spec(s: Seq<char>) -> Result<(KeyCode, u8), KeybindErrorView> {
    let words = keybind_words(s);
    let n = words.len() as int;
    let f = first_plain(words, 0);
    if n == 0 {
        Err(KeybindErrorView::Empty)
    } else if f < n - 1 {
        Err(KeybindErrorView::UnknownModifier(lowercase(words[f])))
    } else if modifier_bit(lowercase(words[n - 1])) != 0 {
        Err(KeybindErrorView::MissingKey)
    } else {
        match key_code_spec(lowercase(words[n - 1])) {
            Some(code) => Ok((code, modifier_mask(words, n - 1))),
            None => Err(KeybindErrorView::UnknownKey(lowercase(lowercase(words[n - 1])))),
        }
    }
}

/// The union of the modifier bits that the first `k` words name.
pub open spec fn modifier_mask(words: Seq<Seq<char>>, k: int) -> u8
    decreases k,
{
    if k <= 0 {
        0
    } else {
        modifier_mask(words, k - 1) | modifier_bit(lowercase(words[k - 1]))
    }
}

fn modifier_bit_of(w: &[char]) -> (r: u8)
    ensures
        r == modifier_bit(w@),
{
    if same_chars(w, &['c', 't', 'r', 'l']) || same_chars(w, &['c', 'o', 'n', 't', 'r', 'o', 'l']) {
        CONTROL_BIT
    } else if same_chars(w, &['a', 'l', 't']) || same_chars(w, &['o', 'p', 't']) || same_chars(
        w,
        &['o', 'p', 't', 'i', 'o', 'n'],
    ) {
        ALT_BIT
    } else if same_chars(w, &['s', 'h', 'i', 'f', 't']) {
        SHIFT_BIT
    } else {
        0
    }
}

fn lowercase_chars(w: &[char]) -> (r: Vec<char>)
    ensures
        r@ == lowercase(w@),
{
    let s = string_of(w);
    let l = to_lowercase(s.as_str());
    chars_of(l.as_str())
}

/// Parses a key word (already lowercased) into a key code.
fn parse_key_code(key: &[char]) -> (r: Result<KeyCode, KeybindError>)
    ensures
        match r {
            Ok(code) => key_code_spec(key@) == Some(code),
            Err(e) => key_code_spec(key@) is None && e@ == KeybindErrorView::UnknownKey(
                lowercase(key@),
            ),
        },
{
    if key.len() == 1 {
        return Ok(KeyCode::Char(key[0]));
    }
    let k = lowercase_chars(key);
    let code = if same_chars(&k, &['l', 'e', 'f', 't']) {
        KeyCode::Left
    } else if same_chars(&k, &['r', 'i', 'g', 'h', 't']) {
        KeyCode::Right
    } else if same_chars(&k, &['u', 'p']) {
        KeyCode::Up
    } else if same_chars(&k, &['d', 'o', 'w', 'n']) {
        KeyCode::Down
    } else if same_chars(&k, &['e', 's', 'c']) || same_chars(&k, &['e', 's', 'c', 'a', 'p', 'e']) {
        KeyCode::Esc
    } else if same_chars(&k, &['e', 'n', 't', 'e', 'r']) || same_chars(
        &k,
        &['r', 'e', 't', 'u', 'r', 'n'],
    ) {
        KeyCode::Enter
    } else if same_chars(&k, &['t', 'a', 'b']) {
        KeyCode::Tab
    } else if same_chars(&k, &['b', 'a', 'c', 'k', 's', 'p', 'a', 'c', 'e']) {
        KeyCode::Backspace
    } else if same_chars(&k, &['d', 'e', 'l', 'e', 't', 'e']) || same_chars(&k, &['d', 'e', 'l']) {
        KeyCode::Delete
    } else if same_chars(&k, &['s', 'p', 'a', 'c', 'e']) {
        KeyCode::Char(' ')
    } else if k.len() > 0 && k[0] == 'f' {
        let rest = string_of_tail(&k);
        let parsed = parse_u32(rest.as_str());
        match parsed {
            Some(n) => {
                if n <= 255 {
                    KeyCode::F(n as u8)
                } else {
                    return Err(KeybindError::UnknownKey(string_of(&k)));
                }
            },
            None => {
                return Err(KeybindError::UnknownKey(string_of(&k)));
            },
        }
    } else {
        return Err(KeybindError::UnknownKey(string_of(&k)));
    };
    Ok(code)
}

fn string_of_tail(v: &Vec<char>) -> (r: String)
    requires
        v@.len() > 0,
    ensures
        r@ == v@.drop_first(),
{
    let r = crate::text::string_of_range(v, 1, v.len());
    assert(v@.subrange(1, v@.len() as int) == v@.drop_first());
    r
}

/// The keybinding that `spec` describes, or why it describes none.
fn parse_keybind_parts(spec: &str) -> (r: Result<Keybind, KeybindError>)
    ensures
        match r {
            Ok(kb) => keybind_spec(spec@) == Ok::<(KeyCode, u8), KeybindErrorView>(
                (kb.code, kb.modifiers.bits),
            ),
            Err(e) => keybind_spec(spec@) == Err::<(KeyCode, u8), KeybindErrorView>(e@),
        },
{
    let v = chars_of(spec);
    let pieces = split_pieces(&v, '+');
    let ghost trimmed = split_on(spec@, '+').map_values(|p: Seq<char>| trim(p));
    let mut words: Vec<Vec<char>> = Vec::new();
    let mut i: usize = 0;
    while i < pieces.len()
        invariant
            i <= pieces@.len(),
            pieces@.map_values(|p: Vec<char>| p@) == split_on(spec@, '+'),
            trimmed == split_on(spec@, '+').map_values(|p: Seq<char>| trim(p)),
            words@.map_values(|w: Vec<char>| w@) == trimmed.subrange(0, i as int).filter(
                |p: Seq<char>| p.len() > 0,
            ),
        decreases pieces.len() - i,
    {
        let w = trim_chars(&pieces[i]);
        let ghost before = trimmed.subrange(0, i as int);
        assert(trimmed.subrange(0, i + 1).drop_last() == before);
        assert(trimmed[i as int] == trim(pieces@[i as int]@));
        assert(trimmed.subrange(0, i + 1).filter(|p: Seq<char>| p.len() > 0) == if w@.len() > 0 {
            before.filter(|p: Seq<char>| p.len() > 0).push(w@)
        } else {
            before.filter(|p: Seq<char>| p.len() > 0)
        }) by {
            reveal(Seq::filter);
        }
        if w.len() > 0 {
            words.push(w);
        }
        i = i + 1;
    }
    assert(trimmed.subrange(0, pieces@.len() as int) == trimmed);
    let ghost ws = keybind_words(spec@);
    assert(words@.map_values(|w: Vec<char>| w@) == ws);
    let n = words.len();
    if n == 0 {
        return Err(KeybindError::Empty);
    }
    let mut mask: u8 = 0;
    let mut k: usize = 0;
    while k < n - 1
        invariant
            n == words@.len(),
            n == ws.len(),
            ws == keybind_words(spec@),
            n > 0,
            words@.map_values(|w: Vec<char>| w@) == ws,
            k <= n - 1,
            first_plain(ws, 0) == first_plain(ws, k as int),
            mask == modifier_mask(ws, k as int),
        decreases n - 1 - k,
    {
        assert(words@[k as int]@ == ws[k as int]);
        let lw = lowercase_chars(&words[k]);
        let bit = modifier_bit_of(&lw);
        if bit == 0 {
            return Err(KeybindError::UnknownModifier(string_of(&lw)));
        }
        mask = mask | bit;
        k = k + 1;
    }
    assert(words@[n - 1]@ == ws[n - 1]);
    let last = lowercase_chars(&words[n - 1]);
    assert(first_plain(ws, n as int) == n);
    if modifier_bit_of(&last) != 0 {
        assert(first_plain(ws, n - 1) == n);
        return Err(KeybindError::MissingKey);
    }
    assert(first_plain(ws, n - 1) == n - 1);
    match parse_key_code(&last) {
        Ok(code) => Ok(Keybind { code, modifiers: KeyModifiers { bits: mask } }),
        Err(e) => Err(e),
    }
}

/// Std's `Debug` rendering of a string (`format!("{:?}", s)`): the string in
/// double quotes with special characters escaped.
pub uninterp spec fn debug_quoted(s: Seq<char>) -> Seq<char>;

/// Calls `<str as Debug>::fmt` through `format!("{:?}", s)`. Its result is
/// named by `debug_quoted`: the contract claims only that it is a function of
/// the string's characters.
#[verifier::external_body]
fn debug_str(s: &str) -> (r: String)
    ensures
        r@ == debug_quoted(s@),
{
    format!("{:?}", s)
}

/// The message for a refused keybinding string `spec`.
pub open spec fn keybind_message(e: KeybindErrorView, spec: Seq<char>) -> Seq<char> {
    match e {
        KeybindErrorView::Empty => seq!['e', 'm', 'p', 't', 'y', ' ', 'k', 'e', 'y', 'b', 'i', 'n', 'd', ':', ' ']
            + debug_quoted(spec),
        KeybindErrorView::UnknownModifier(w) => seq![
            'u',
            'n',
            'k',
            'n',
            'o',
            'w',
            'n',
            ' ',
            'm',
            'o',
            'd',
            'i',
            'f',
            'i',
            'e',
            'r',
            ' ',
        ] + debug_quoted(w) + seq![' ', 'i', 'n', ' '] + debug_quoted(spec),
        KeybindErrorView::UnknownKey(w) => seq!['u', 'n', 'k', 'n', 'o', 'w', 'n', ' ', 'k', 'e', 'y', ' ']
            + debug_quoted(w),
        KeybindErrorView::MissingKey => seq![
            'm',
            'i',
            's',
            's',
            'i',
            'n',
            'g',
            ' ',
            'k',
            'e',
            'y',
            ' ',
            'i',
            'n',
            ' ',
        ] + debug_quoted(spec),
    }
}

/// The message for `e`, refusing `spec`.
fn keybind_error_text(e: &KeybindError, spec: &str) -> (r: String)
    ensures
        r@ == keybind_message(e@, spec@),
{
    match e {
        KeybindError::Empty => {
            let mut m = string_of(&['e', 'm', 'p', 't', 'y', ' ', 'k', 'e', 'y', 'b', 'i', 'n', 'd', ':', ' ']);
            push_chars(&mut m, &chars_of(debug_str(spec).as_str()));
            m
        },
        KeybindError::UnknownModifier(w) => {
            let mut m = string_of(
                &['u', 'n', 'k', 'n', 'o', 'w', 'n', ' ', 'm', 'o', 'd', 'i', 'f', 'i', 'e', 'r', ' '],
            );
            push_chars(&mut m, &chars_of(debug_str(w.as_str()).as_str()));
            push_chars(&mut m, &[' ', 'i', 'n', ' ']);
            push_chars(&mut m, &chars_of(debug_str(spec).as_str()));
            m
        },
        KeybindError::UnknownKey(w) => {
            let mut m = string_of(&['u', 'n', 'k', 'n', 'o', 'w', 'n', ' ', 'k', 'e', 'y', ' ']);
            push_chars(&mut m, &chars_of(debug_str(w.as_str()).as_str()));
            m
        },
        KeybindError::MissingKey => {
            let mut m = string_of(
                &['m', 'i', 's', 's', 'i', 'n', 'g', ' ', 'k', 'e', 'y', ' ', 'i', 'n', ' '],
            );
            push_chars(&mut m, &chars_of(debug_str(spec).as_str()));
            m
        },
    }
}

/// Parses a keybinding string such as `"Alt+Right"` or `"Ctrl+Shift+n"`.
///
/// The string is split at `+`; each piece is trimmed and empty pieces are
/// dropped. Every word but the last must be a modifier (`ctrl`/`control`,
/// `alt`/`opt`/`option`, `shift`, in any case); the last word is the key.
/// A refused string is answered with a message that says why and quotes it.
pub fn parse_keybind(spec: &str) -> (r: Result<Keybind, String>)
    ensures
        match r {
            Ok(kb) => keybind_spec(spec@) == Ok::<(KeyCode, u8), KeybindErrorView>(
                (kb.code, kb.modifiers.bits),
            ),
            Err(m) => keybind_spec(spec@) matches Err(e) && m@ == keybind_message(e, spec@),
        },
{
    match parse_keybind_parts(spec) {
        Ok(kb) => Ok(kb),
        Err(e) => Err(keybind_error_text(&e, spec)),
    }
}

/// Key words: a single character stands for that character's key; a longer
/// word whose lowercase spells a key's name gives that key (`left`, `right`,
/// `up`, `down`, `esc`/`escape`, `enter`/`return`, `tab`, `backspace`,
/// `delete`/`del`, `space`), so different names give different keys.
pub proof fn lemma_named_keys(key: Seq<char>)
    ensures
        key.len() == 1 ==> key_code_spec(key) == Some(KeyCode::Char(key[0])),
        key.len() != 1 ==> {
            let k = lowercase(key);
            &&& k == seq!['l', 'e', 'f', 't'] ==> key_code_spec(key) == Some(KeyCode::Left)
            &&& k == seq!['r', 'i', 'g', 'h', 't'] ==> key_code_spec(key) == Some(KeyCode::Right)
            &&& k == seq!['u', 'p'] ==> key_code_spec(key) == Some(KeyCode::Up)
            &&& k == seq!['d', 'o', 'w', 'n'] ==> key_code_spec(key) == Some(KeyCode::Down)
            &&& (k == seq!['e', 's', 'c'] || k == seq!['e', 's', 'c', 'a', 'p', 'e']) ==> key_code_spec(key)
                == Some(KeyCode::Esc)
            &&& (k == seq!['e', 'n', 't', 'e', 'r'] || k == seq!['r', 'e', 't', 'u', 'r', 'n'])
                ==> key_code_spec(key) == Some(KeyCode::Enter)
            &&& k == seq!['t', 'a', 'b'] ==> key_code_spec(key) == Some(KeyCode::Tab)
            &&& k == seq!['b', 'a', 'c', 'k', 's', 'p', 'a', 'c', 'e'] ==> key_code_spec(key) == Some(
                KeyCode::Backspace,
            )
            &&& (k == seq!['d', 'e', 'l', 'e', 't', 'e'] || k == seq!['d', 'e', 'l']) ==> key_code_spec(key)
                == Some(KeyCode::Delete)
            &&& k == seq!['s', 'p', 'a', 'c', 'e'] ==> key_code_spec(key) == Some(KeyCode::Char(' '))
        },
{
    let k = lowercase(key);
    let names: Seq<Seq<char>> = seq![
        seq!['l', 'e', 'f', 't'],
        seq!['r', 'i', 'g', 'h', 't'],
        seq!['u', 'p'],
        seq!['d', 'o', 'w', 'n'],
        seq!['e', 's', 'c'],
        seq!['e', 's', 'c', 'a', 'p', 'e'],
        seq!['e', 'n', 't', 'e', 'r'],
        seq!['r', 'e', 't', 'u', 'r', 'n'],
        seq!['t', 'a', 'b'],
        seq!['b', 'a', 'c', 'k', 's', 'p', 'a', 'c', 'e'],
        seq!['d', 'e', 'l', 'e', 't', 'e'],
        seq!['d', 'e', 'l'],
        seq!['s', 'p', 'a', 'c', 'e'],
    ];
    // the names differ from one another, so each reaches its own branch
    assert forall|i: int, j: int| 0 <= i < j < names.len() implies names[i] != names[j] by {
        if names[i].len() == names[j].len() {
            assert(names[i][0] != names[j][0] || names[i][1] != names[j][1] || names[i][2]
                != names[j][2]);
        }
    }
    assert(names[0] == seq!['l', 'e', 'f', 't']);
    assert(names[1] == seq!['r', 'i', 'g', 'h', 't']);
    assert(names[2] == seq!['u', 'p']);
    assert(names[3] == seq!['d', 'o', 'w', 'n']);
    assert(names[4] == seq!['e', 's', 'c']);
    assert(names[5] == seq!['e', 's', 'c', 'a', 'p', 'e']);
    assert(names[6] == seq!['e', 'n', 't', 'e', 'r']);
    assert(names[7] == seq!['r', 'e', 't', 'u', 'r', 'n']);
    assert(names[8] == seq!['t', 'a', 'b']);
    assert(names[9] == seq!['b', 'a', 'c', 'k', 's', 'p', 'a', 'c', 'e']);
    assert(names[10] == seq!['d', 'e', 'l', 'e', 't', 'e']);
    assert(names[11] == seq!['d', 'e', 'l']);
    assert(names[12] == seq!['s', 'p', 'a', 'c', 'e']);
}

} // verus!
