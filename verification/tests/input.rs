use nemux::config::{KeyCode, KeyModifiers};
use nemux::input::{key_to_bytes, KeyEvent};

fn key(code: KeyCode, modifiers: KeyModifiers) -> KeyEvent {
    KeyEvent::new(code, modifiers)
}

#[test]
fn plain_char_passes_through_as_utf8() {
    assert_eq!(key_to_bytes(key(KeyCode::Char('a'), KeyModifiers::none())), b"a");
    assert_eq!(key_to_bytes(key(KeyCode::Char('é'), KeyModifiers::none())), "é".as_bytes());
}

#[test]
fn ctrl_letters_map_to_control_codes() {
    assert_eq!(key_to_bytes(key(KeyCode::Char('c'), KeyModifiers::control())), vec![0x03]);
    assert_eq!(key_to_bytes(key(KeyCode::Char('a'), KeyModifiers::control())), vec![0x01]);
}

#[test]
fn arrows_and_special_keys_map_to_csi_sequences() {
    assert_eq!(key_to_bytes(key(KeyCode::Up, KeyModifiers::none())), b"\x1b[A");
    assert_eq!(key_to_bytes(key(KeyCode::Enter, KeyModifiers::none())), b"\r");
    assert_eq!(key_to_bytes(key(KeyCode::Backspace, KeyModifiers::none())), vec![0x7f]);
}

#[test]
fn alt_prefixes_esc() {
    assert_eq!(key_to_bytes(key(KeyCode::Char('b'), KeyModifiers::alt())), vec![0x1b, b'b']);
}

#[test]
fn function_keys_encode() {
    assert_eq!(key_to_bytes(key(KeyCode::F(1), KeyModifiers::none())), b"\x1bOP");
    assert_eq!(key_to_bytes(key(KeyCode::F(5), KeyModifiers::none())), b"\x1b[15~");
}

#[test]
fn ctrl_punctuation_and_capitals() {
    assert_eq!(key_to_bytes(key(KeyCode::Char('C'), KeyModifiers::control())), vec![0x03]);
    assert_eq!(key_to_bytes(key(KeyCode::Char('['), KeyModifiers::control())), vec![0x1b]);
    assert_eq!(key_to_bytes(key(KeyCode::Char('?'), KeyModifiers::control())), vec![0x1f]);
    assert_eq!(key_to_bytes(key(KeyCode::Char(' '), KeyModifiers::control())), vec![0x00]);
    // no control code: the character itself
    assert_eq!(key_to_bytes(key(KeyCode::Char('1'), KeyModifiers::control())), b"1");
}

#[test]
fn keys_without_bytes_stay_empty_even_with_alt() {
    assert!(key_to_bytes(key(KeyCode::CapsLock, KeyModifiers::alt())).is_empty());
    assert!(key_to_bytes(key(KeyCode::F(13), KeyModifiers::alt())).is_empty());
    assert_eq!(key_to_bytes(key(KeyCode::F(12), KeyModifiers::none())), b"\x1b[24~");
    assert_eq!(key_to_bytes(key(KeyCode::PageDown, KeyModifiers::alt())), b"\x1b\x1b[6~");
    assert_eq!(key_to_bytes(key(KeyCode::Char('€'), KeyModifiers::none())), "€".as_bytes());
    assert_eq!(key_to_bytes(key(KeyCode::Char('😀'), KeyModifiers::none())), "😀".as_bytes());
}
