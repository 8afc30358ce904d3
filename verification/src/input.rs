//! Translates key events back into the byte sequences that a terminal
//! application expects to read from its terminal.

use vstd::prelude::*;
use vstd::utf8::encode_scalar;
use crate::config::{KeyCode, KeyModifiers, ALT_BIT, CONTROL_BIT};
use crate::text::string_of;

verus! {

/// A key press: the key and the modifiers held with it.
#[derive(Clone, Copy, Debug, PartialEq, Eq, Structural)]
pub struct KeyEvent {
    pub code: KeyCode,
    pub modifiers: KeyModifiers,
}

impl KeyEvent {
    pub fn new(code: KeyCode, modifiers: KeyModifiers) -> (r: KeyEvent)
        ensures
            r.code == code,
            r.modifiers == modifiers,
    {
        KeyEvent { code, modifiers }
    }
}

/// `c` with ASCII capitals turned into small letters (`char::to_ascii_lowercase`).
pub open spec fn ascii_lower(c: char) -> char {
    if 'A' <= c <= 'Z' {
        ((c as u32) + 32) as char
    } else {
        c
    }
}

/// The C0 control byte that Ctrl with `c` produces, following common terminal
/// behavior: `Ctrl+a` to `Ctrl+z` give 1 to 26, and `@`/space, `[`, `\`, `]`,
/// `^`, `_`/`?` give 0, 0x1b, 0x1c, 0x1d, 0x1e and 0x1f.
pub open spec fn ctrl_byte_spec(c: char) -> Option<u8> {
    let l = ascii_lower(c);
    if 'a' <= l <= 'z' {
        Some(((l as u32) - ('a' as u32) + 1) as u8)
    } else if l == '@' || l == ' ' {
        Some(0)
    } else if l == '[' {
        Some(0x1b)
    } else if l == '\\' {
        Some(0x1c)
    } else if l == ']' {
        Some(0x1d)
    } else if l == '^' {
        Some(0x1e)
    } else if l == '_' || l == '?' {
        Some(0x1f)
    } else {
        None
    }
}

/// The sequence that function key `n` sends (F1 to F12; nothing for the others).
pub open spec fn f_key_spec(n: u8) -> Seq<u8> {
    if n == 1 {
        seq![0x1b, 0x4f, 0x50]
    } else if n == 2 {
        seq![0x1b, 0x4f, 0x51]
    } else if n == 3 {
        seq![0x1b, 0x4f, 0x52]
    } else if n == 4 {
        seq![0x1b, 0x4f, 0x53]
    } else if n == 5 {
        csi_tilde(0x31, 0x35)
    } else if n == 6 {
        csi_tilde(0x31, 0x37)
    } else if n == 7 {
        csi_tilde(0x31, 0x38)
    } else if n == 8 {
        csi_tilde(0x31, 0x39)
    } else if n == 9 {
        csi_tilde(0x32, 0x30)
    } else if n == 10 {
        csi_tilde(0x32, 0x31)
    } else if n == 11 {
        csi_tilde(0x32, 0x33)
    } else if n == 12 {
        csi_tilde(0x32, 0x34)
    } else {
        Seq::empty()
    }
}

/// `ESC [ a b ~`.
pub open spec fn csi_tilde(a: u8, b: u8) -> Seq<u8> {
    seq![0x1b, 0x5b, a, b, 0x7e]
}

/// `ESC [ x`.
pub open spec fn csi(x: u8) -> Seq<u8> {
    seq![0x1b, 0x5b, x]
}

/// The bytes of a key before any Alt prefix.
pub open spec fn base_bytes(code: KeyCode, ctrl: bool) -> Seq<u8> {
    match code {
        KeyCode::Char(c) => if ctrl && ctrl_byte_spec(c) is Some {
            seq![ctrl_byte_spec(c)->0]
        } else {
            encode_scalar(c as u32)
        },
        KeyCode::Enter => seq![0x0d],
        KeyCode::Tab => seq![0x09],
        KeyCode::BackTab => csi(0x5a),
        KeyCode::Backspace => seq![0x7f],
        KeyCode::Esc => seq![0x1b],
        KeyCode::Left => csi(0x44),
        KeyCode::Right => csi(0x43),
        KeyCode::Up => csi(0x41),
        KeyCode::Down => csi(0x42),
        KeyCode::Home => csi(0x48),
        KeyCode::End => csi(0x46),
        KeyCode::PageUp => seq![0x1b, 0x5b, 0x35, 0x7e],
        KeyCode::PageDown => seq![0x1b, 0x5b, 0x36, 0x7e],
        KeyCode::Delete => seq![0x1b, 0x5b, 0x33, 0x7e],
        KeyCode::Insert => seq![0x1b, 0x5b, 0x32, 0x7e],
        KeyCode::F(n) => f_key_spec(n),
        _ => Seq::empty(),
    }
}

/// The input bytes of a key event: the key's bytes, with an ESC in front when
/// Alt is held and there are any.
pub open spec fn key_bytes_spec(key: KeyEvent) -> Seq<u8> {
    let ctrl = key.modifiers.bits & CONTROL_BIT == CONTROL_BIT;
    let alt = key.modifiers.bits & ALT_BIT == ALT_BIT;
    let base = base_bytes(key.code, ctrl);
    if alt && base.len() > 0 {
        seq![0x1bu8] + base
    } else {
        base
    }
}

/// The UTF-8 encoding of `c`.
pub fn encode_char(c: char) -> (r: Vec<u8>)
    ensures
        r@ == encode_scalar(c as u32),
{
    let s = string_of(&[c]);
    let r = s.as_str().as_bytes_vec();
    assert(s@ == seq![c]);
    assert(seq![c].drop_first() == Seq::<char>::empty());
    assert(vstd::utf8::encode_utf8(seq![c]) == encode_scalar(c as u32) + vstd::utf8::encode_utf8(
        Seq::<char>::empty(),
    ));
    assert(encode_scalar(c as u32) + Seq::<u8>::empty() == encode_scalar(c as u32));
    r
}

/// The control byte for Ctrl with `c`, if there is one.
pub fn ctrl_byte(c: char) -> (r: Option<u8>)
    ensures
        r == ctrl_byte_spec(c),
{
    let lower: char = if 'A' <= c && c <= 'Z' {
        let u = (c as u32) + 32;
        assert(u < 0xd800);
        u as u8 as char
    } else {
        c
    };
    assert(lower == ascii_lower(c));
    if 'a' <= lower && lower <= 'z' {
        Some(((lower as u32) - ('a' as u32) + 1) as u8)
    } else if lower == '@' || lower == ' ' {
        Some(0)
    } else if lower == '[' {
        Some(0x1b)
    } else if lower == '\\' {
        Some(0x1c)
    } else if lower == ']' {
        Some(0x1d)
    } else if lower == '^' {
        Some(0x1e)
    } else if lower == '_' || lower == '?' {
        Some(0x1f)
    } else {
        None
    }
}

/// The sequence that function key `n` sends.
pub fn f_key_bytes(n: u8) -> (r: Vec<u8>)
    ensures
        r@ == f_key_spec(n),
{
    let r = if n == 1 {
        vec![0x1b, 0x4f, 0x50]
    } else if n == 2 {
        vec![0x1b, 0x4f, 0x51]
    } else if n == 3 {
        vec![0x1b, 0x4f, 0x52]
    } else if n == 4 {
        vec![0x1b, 0x4f, 0x53]
    } else if n == 5 {
        vec![0x1b, 0x5b, 0x31, 0x35, 0x7e]
    } else if n == 6 {
        vec![0x1b, 0x5b, 0x31, 0x37, 0x7e]
    } else if n == 7 {
        vec![0x1b, 0x5b, 0x31, 0x38, 0x7e]
    } else if n == 8 {
        vec![0x1b, 0x5b, 0x31, 0x39, 0x7e]
    } else if n == 9 {
        vec![0x1b, 0x5b, 0x32, 0x30, 0x7e]
    } else if n == 10 {
        vec![0x1b, 0x5b, 0x32, 0x31, 0x7e]
    } else if n == 11 {
        vec![0x1b, 0x5b, 0x32, 0x33, 0x7e]
    } else if n == 12 {
        vec![0x1b, 0x5b, 0x32, 0x34, 0x7e]
    } else {
        Vec::new()
    };
    assert(r@ == f_key_spec(n));
    r
}

/// Encodes `key` as raw terminal input bytes; empty for keys that send
/// nothing (such as a bare modifier key).
pub fn key_to_bytes(key: KeyEvent) -> (r: Vec<u8>)
    ensures
        r@ == key_bytes_spec(key),
{
    let ctrl = key.modifiers.contains(KeyModifiers::control());
    let alt = key.modifiers.contains(KeyModifiers::alt());
    let base: Vec<u8> = match key.code {
        KeyCode::Char(c) => {
            if ctrl {
                match ctrl_byte(c) {
                    Some(b) => vec![b],
                    None => encode_char(c),
                }
            } else {
                encode_char(c)
            }
        },
        KeyCode::Enter => vec![0x0d],
        KeyCode::Tab => vec![0x09],
        KeyCode::BackTab => vec![0x1b, 0x5b, 0x5a],
        KeyCode::Backspace => vec![0x7f],
        KeyCode::Esc => vec![0x1b],
        KeyCode::Left => vec![0x1b, 0x5b, 0x44],
        KeyCode::Right => vec![0x1b, 0x5b, 0x43],
        KeyCode::Up => vec![0x1b, 0x5b, 0x41],
        KeyCode::Down => vec![0x1b, 0x5b, 0x42],
        KeyCode::Home => vec![0x1b, 0x5b, 0x48],
        KeyCode::End => vec![0x1b, 0x5b, 0x46],
        KeyCode::PageUp => vec![0x1b, 0x5b, 0x35, 0x7e],
        KeyCode::PageDown => vec![0x1b, 0x5b, 0x36, 0x7e],
        KeyCode::Delete => vec![0x1b, 0x5b, 0x33, 0x7e],
        KeyCode::Insert => vec![0x1b, 0x5b, 0x32, 0x7e],
        KeyCode::F(n) => f_key_bytes(n),
        _ => {
            return Vec::new();
        },
    };
    assert(base@ == base_bytes(key.code, ctrl));
    if alt && base.len() > 0 {
        let mut out: Vec<u8> = vec![0x1b];
        let mut i: usize = 0;
        while i < base.len()
            invariant
                i <= base@.len(),
                out@ == seq![0x1bu8] + base@.subrange(0, i as int),
            decreases base.len() - i,
        {
            out.push(base[i]);
            i = i + 1;
            assert(out@ == seq![0x1bu8] + base@.subrange(0, i as int));
        }
        assert(base@.subrange(0, base@.len() as int) == base@);
        out
    } else {
        base
    }
}

/// Whether `c` is one of the four arrow keys.
pub open spec fn is_arrow(c: KeyCode) -> bool {
    c is Up || c is Down || c is Right || c is Left
}

/// The arrow keys send `ESC [ A` (Up), `ESC [ B` (Down), `ESC [ C` (Right)
/// and `ESC [ D` (Left), whatever other modifiers are held, with one more
/// `ESC` in front when Alt is held; so two different arrow keys pressed with
/// the same modifiers never send the same bytes.
pub proof fn lemma_arrow_keys(m: KeyModifiers)
    ensures
        ({
            let pre: Seq<u8> = if m.bits & ALT_BIT == ALT_BIT {
                seq![0x1bu8]
            } else {
                Seq::empty()
            };
            &&& key_bytes_spec(KeyEvent { code: KeyCode::Up, modifiers: m }) == pre + seq![0x1bu8, 0x5bu8, 0x41u8]
            &&& key_bytes_spec(KeyEvent { code: KeyCode::Down, modifiers: m }) == pre + seq![0x1bu8, 0x5bu8, 0x42u8]
            &&& key_bytes_spec(KeyEvent { code: KeyCode::Right, modifiers: m }) == pre + seq![0x1bu8, 0x5bu8, 0x43u8]
            &&& key_bytes_spec(KeyEvent { code: KeyCode::Left, modifiers: m }) == pre + seq![0x1bu8, 0x5bu8, 0x44u8]
        }),
        forall|a: KeyCode, b: KeyCode|
            is_arrow(a) && is_arrow(b) && a != b ==> key_bytes_spec(KeyEvent { code: a, modifiers: m })
                != key_bytes_spec(KeyEvent { code: b, modifiers: m }),
{
    let pre: Seq<u8> = if m.bits & ALT_BIT == ALT_BIT {
        seq![0x1bu8]
    } else {
        Seq::empty()
    };
    assert(pre + seq![0x1bu8, 0x5bu8, 0x41u8] =~= if m.bits & ALT_BIT == ALT_BIT {
        seq![0x1bu8, 0x1bu8, 0x5bu8, 0x41u8]
    } else {
        seq![0x1bu8, 0x5bu8, 0x41u8]
    });
    assert(pre + seq![0x1bu8, 0x5bu8, 0x42u8] =~= if m.bits & ALT_BIT == ALT_BIT {
        seq![0x1bu8, 0x1bu8, 0x5bu8, 0x42u8]
    } else {
        seq![0x1bu8, 0x5bu8, 0x42u8]
    });
    assert(pre + seq![0x1bu8, 0x5bu8, 0x43u8] =~= if m.bits & ALT_BIT == ALT_BIT {
        seq![0x1bu8, 0x1bu8, 0x5bu8, 0x43u8]
    } else {
        seq![0x1bu8, 0x5bu8, 0x43u8]
    });
    assert(pre + seq![0x1bu8, 0x5bu8, 0x44u8] =~= if m.bits & ALT_BIT == ALT_BIT {
        seq![0x1bu8, 0x1bu8, 0x5bu8, 0x44u8]
    } else {
        seq![0x1bu8, 0x5bu8, 0x44u8]
    });
    assert forall|a: KeyCode, b: KeyCode|
        is_arrow(a) && is_arrow(b) && a != b implies key_bytes_spec(KeyEvent { code: a, modifiers: m })
            != key_bytes_spec(KeyEvent { code: b, modifiers: m }) by {
        let ka = key_bytes_spec(KeyEvent { code: a, modifiers: m });
        let kb = key_bytes_spec(KeyEvent { code: b, modifiers: m });
        let i: int = pre.len() as int + 2;
        assert(ka[i] != kb[i]);
    }
}

/// Whether `c` is a named key that sends a fixed sequence.
pub open spec fn is_named_key(c: KeyCode) -> bool {
    c is Enter || c is Tab || c is BackTab || c is Backspace || c is Esc || c is Left || c is Right
        || c is Up || c is Down || c is Home || c is End || c is PageUp || c is PageDown || c is Delete
        || c is Insert
}

/// Different named keys, pressed with the same modifiers, send different
/// bytes, and each sends something.
pub proof fn lemma_named_keys_distinct(m: KeyModifiers)
    ensures
        forall|a: KeyCode| #[trigger] is_named_key(a) ==> key_bytes_spec(KeyEvent { code: a, modifiers: m }).len() > 0,
        forall|a: KeyCode, b: KeyCode|
            #[trigger] is_named_key(a) && #[trigger] is_named_key(b) && a != b ==> key_bytes_spec(
                KeyEvent { code: a, modifiers: m },
            ) != key_bytes_spec(KeyEvent { code: b, modifiers: m }),
{
    let ctrl = m.bits & CONTROL_BIT == CONTROL_BIT;
    assert forall|a: KeyCode, b: KeyCode|
        #[trigger] is_named_key(a) && #[trigger] is_named_key(b) && a != b implies base_bytes(a, ctrl)
            != base_bytes(b, ctrl) by {
        let x = base_bytes(a, ctrl);
        let y = base_bytes(b, ctrl);
        if x.len() == y.len() {
            if x.len() == 3 {
                assert(x[2] != y[2]);
            } else if x.len() == 4 {
                assert(x[2] != y[2]);
            } else {
                assert(x[0] != y[0]);
            }
        }
    }
    assert forall|a: KeyCode, b: KeyCode|
        #[trigger] is_named_key(a) && #[trigger] is_named_key(b) && a != b implies key_bytes_spec(
            KeyEvent { code: a, modifiers: m },
        ) != key_bytes_spec(KeyEvent { code: b, modifiers: m }) by {
        let x = base_bytes(a, ctrl);
        let y = base_bytes(b, ctrl);
        if m.bits & ALT_BIT == ALT_BIT {
            let xs = seq![0x1bu8] + x;
            let ys = seq![0x1bu8] + y;
            if xs == ys {
                assert(x =~= xs.subrange(1, xs.len() as int));
                assert(y =~= ys.subrange(1, ys.len() as int));
            }
        }
    }
}

/// Ctrl with a letter sends that letter's control code, 1 for `a` to 26 for
/// `z`, the same for the capital letter; Alt puts an `ESC` in front.
pub proof fn lemma_ctrl_letters(c: char, m: KeyModifiers)
    requires
        'a' <= c <= 'z',
        m.bits & CONTROL_BIT == CONTROL_BIT,
    ensures
        ({
            let code = ((c as u32) - 0x60) as u8;
            let want: Seq<u8> = if m.bits & ALT_BIT == ALT_BIT {
                seq![0x1bu8, code]
            } else {
                seq![code]
            };
            &&& 1 <= code <= 26
            &&& key_bytes_spec(KeyEvent { code: KeyCode::Char(c), modifiers: m }) == want
            &&& key_bytes_spec(KeyEvent { code: KeyCode::Char(((c as u32) - 32) as char), modifiers: m })
                == want
        }),
{
    let up = ((c as u32) - 32) as char;
    assert(ascii_lower(up) == c);
    assert(seq![0x1bu8] + seq![((c as u32) - 0x60) as u8] =~= seq![0x1bu8, ((c as u32) - 0x60) as u8]);
}

/// F1 to F12 each send their own non-empty sequence; other function keys
/// send nothing, not even the `ESC` of Alt.
pub proof fn lemma_function_keys(m: KeyModifiers)
    ensures
        forall|n: u8| 1 <= n <= 12 ==> #[trigger] key_bytes_spec(KeyEvent { code: KeyCode::F(n), modifiers: m }).len() > 0,
        forall|n: u8| (n == 0 || n > 12) ==> #[trigger] key_bytes_spec(KeyEvent { code: KeyCode::F(n), modifiers: m }).len() == 0,
        forall|n1: u8, n2: u8|
            1 <= n1 <= 12 && 1 <= n2 <= 12 && n1 != n2 ==> #[trigger] key_bytes_spec(
                KeyEvent { code: KeyCode::F(n1), modifiers: m },
            ) != #[trigger] key_bytes_spec(KeyEvent { code: KeyCode::F(n2), modifiers: m }),
{
    assert forall|n1: u8, n2: u8|
        1 <= n1 <= 12 && 1 <= n2 <= 12 && n1 != n2 implies f_key_spec(n1) != f_key_spec(n2) by {
        let x = f_key_spec(n1);
        let y = f_key_spec(n2);
        if x.len() == y.len() {
            if x.len() == 3 {
                assert(x[2] != y[2]);
            } else {
                assert(x[2] != y[2] || x[3] != y[3]);
            }
        }
    }
    assert forall|n1: u8, n2: u8|
        1 <= n1 <= 12 && 1 <= n2 <= 12 && n1 != n2 implies #[trigger] key_bytes_spec(
            KeyEvent { code: KeyCode::F(n1), modifiers: m },
        ) != #[trigger] key_bytes_spec(KeyEvent { code: KeyCode::F(n2), modifiers: m }) by {
        let x = f_key_spec(n1);
        let y = f_key_spec(n2);
        if m.bits & ALT_BIT == ALT_BIT {
            let xs = seq![0x1bu8] + x;
            let ys = seq![0x1bu8] + y;
            if xs == ys {
                assert(x =~= xs.subrange(1, xs.len() as int));
                assert(y =~= ys.subrange(1, ys.len() as int));
            }
        }
    }
}

} // verus!
