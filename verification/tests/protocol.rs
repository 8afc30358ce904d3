use nemux::protocol::{frame_len, read_message, write_message, FrameError, TabInfo, MAX_MESSAGE_SIZE};

#[test]
fn rejects_oversized_length_prefix() {
    let mut buf = Vec::new();
    buf.extend_from_slice(&(MAX_MESSAGE_SIZE + 1).to_le_bytes());
    let err = read_message(&buf).unwrap_err();
    assert_eq!(err, FrameError::InvalidData);
}

#[test]
fn program_strips_path() {
    let info = TabInfo {
        id: 0,
        title: "t".into(),
        command: vec!["/usr/local/bin/codex".into(), "--flag".into()],
        pid: None,
        created_at: 0,
        cols: 80,
        rows: 24,
        bell: false,
        exit: None,
        workspace: String::new(),
    };
    assert_eq!(info.program(), "codex");
}

fn info_with(command: Vec<String>) -> TabInfo {
    TabInfo {
        id: 0,
        title: String::new(),
        command,
        pid: None,
        created_at: 0,
        cols: 80,
        rows: 24,
        bell: false,
        exit: None,
        workspace: String::new(),
    }
}

#[test]
fn program_handles_backslashes_and_empty_commands() {
    assert_eq!(info_with(vec!["C:\\tools\\vim.exe".into()]).program(), "vim.exe");
    assert_eq!(info_with(vec!["bash".into()]).program(), "bash");
    assert_eq!(info_with(vec![]).program(), "?");
    assert_eq!(info_with(vec!["/usr/bin/".into()]).program(), "");
}

#[test]
fn frame_round_trips_payload() {
    let payload = vec![1u8, 2, 3, 250];
    let frame = write_message(&payload).unwrap();
    assert_eq!(frame, vec![4, 0, 0, 0, 1, 2, 3, 250]);
    let mut with_rest = frame.clone();
    with_rest.extend_from_slice(&[9, 9]);
    assert_eq!(read_message(&with_rest).unwrap(), (payload, 8));
}

#[test]
fn frame_reports_truncated_input() {
    assert_eq!(read_message(&[1, 0]).unwrap_err(), FrameError::UnexpectedEof);
    assert_eq!(read_message(&[3, 0, 0, 0, 1]).unwrap_err(), FrameError::UnexpectedEof);
    assert_eq!(read_message(&[0, 0, 0, 0]).unwrap(), (vec![], 4));
}

#[test]
fn frame_len_accepts_the_maximum() {
    assert_eq!(frame_len(MAX_MESSAGE_SIZE.to_le_bytes()), Ok(MAX_MESSAGE_SIZE));
    assert_eq!(frame_len(0x0102_0304u32.to_le_bytes()), Ok(0x0102_0304));
    assert_eq!(frame_len(u32::MAX.to_le_bytes()), Err(FrameError::InvalidData));
}

#[test]
fn duplicate_copies_every_field() {
    let mut t = info_with(vec!["a".into(), "b".into()]);
    t.title = "x".into();
    t.workspace = "/w".into();
    assert_eq!(t.duplicate(), t);
}
