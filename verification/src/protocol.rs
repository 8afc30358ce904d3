//! The messages exchanged between the daemon and its clients, and the framing
//! that carries them: every message is a four-byte little-endian length
//! followed by that many payload bytes. Requests flow client to daemon and
//! responses daemon to client, so one direction never mixes the two shapes.

use vstd::prelude::*;

verus! {

/// Frames longer than this are refused instead of causing an unbounded allocation.
pub const MAX_MESSAGE_SIZE: u32 = 64 * 1024 * 1024;

/// How a tab's process ended.
#[derive(Clone, Copy, Debug, PartialEq, Eq)]
pub struct ExitInfo {
    pub code: u32,
    pub success: bool,
    pub at: i64,
}

/// Snapshot of a single tab's metadata, as seen from outside the daemon.
#[derive(Clone, Debug, PartialEq, Eq)]
pub struct TabInfo {
    pub id: u32,
    pub title: String,
    pub command: Vec<String>,
    pub pid: Option<u32>,
    pub created_at: i64,
    pub cols: u16,
    pub rows: u16,
    pub bell: bool,
    /// Set once the tab's process has exited; the tab stays listed until dismissed.
    pub exit: Option<ExitInfo>,
    /// The directory the tab's process was started in.
    pub workspace: String,
}

/// A request sent from a client to the daemon.
#[derive(Clone, Debug)]
pub enum Request {
    /// List all currently open tabs.
    ListTabs,
    /// Spawn a new tab running `command` and attach the connection to it.
    CreateTab { command: Vec<String>, cwd: Option<String>, cols: u16, rows: u16 },
    /// Attach this connection's output stream to an existing tab.
    Attach { tab_id: u32, cols: u16, rows: u16 },
    /// Detach without closing the connection.
    Detach,
    /// Raw input bytes for the attached tab's terminal.
    Input(Vec<u8>),
    /// Resize the attached tab's terminal.
    Resize { cols: u16, rows: u16 },
    /// Kill (or, once exited, dismiss) a tab by id.
    KillTab { tab_id: u32 },
    /// Rename a tab.
    RenameTab { tab_id: u32, title: String },
    /// Kill every tab and terminate the daemon.
    Shutdown,
    /// Liveness check.
    Ping,
}

/// A response sent from the daemon to a client.
#[derive(Clone, Debug)]
pub enum Response {
    /// The request was carried out and has nothing else to report.
    Done,
    Error(String),
    TabList(Vec<TabInfo>),
    Attached(TabInfo),
    /// Bytes that reproduce (or update) the attached tab's screen when replayed
    /// through a terminal emulator of the same size.
    Screen { tab_id: u32, data: Vec<u8> },
    TabUpdated(TabInfo),
    TabClosed(u32),
    Pong,
}

/// Why a frame could not be written or read; the names follow the I/O error
/// kinds that a stream reports for the same conditions.
#[derive(Clone, Copy, Debug, PartialEq, Eq)]
pub enum FrameError {
    /// The input ended before the frame did.
    UnexpectedEof,
    /// The frame is longer than `MAX_MESSAGE_SIZE`.
    InvalidData,
}

/// A path separator, as the program name strips it.
pub open spec fn is_path_sep(c: char) -> bool {
    c == '/' || c == '\\'
}

/// The position just after the last path separator of `s` (0 when there is none).
pub open spec fn after_last_sep(s: Seq<char>) -> int
    decreases s.len(),
{
    if s.len() == 0 {
        0
    } else if is_path_sep(s.last()) {
        s.len() as int
    } else {
        after_last_sep(s.drop_last())
    }
}

/// The program name of a command line: its first word with everything up to
/// the last `/` or `\` removed, or `?` for an empty command line.
pub open spec fn program_name(command: Seq<Seq<char>>) -> Seq<char> {
    if command.len() == 0 {
        seq!['?']
    } else {
        command[0].subrange(after_last_sep(command[0]), command[0].len() as int)
    }
}

proof fn lemma_after_last_sep(s: Seq<char>)
    ensures
        0 <= after_last_sep(s) <= s.len(),
        forall|j: int| after_last_sep(s) <= j < s.len() ==> !is_path_sep(#[trigger] s[j]),
        after_last_sep(s) > 0 ==> is_path_sep(s[after_last_sep(s) - 1]),
    decreases s.len(),
{
    if s.len() > 0 && !is_path_sep(s.last()) {
        lemma_after_last_sep(s.drop_last());
        assert forall|j: int| after_last_sep(s) <= j < s.len() implies !is_path_sep(
            #[trigger] s[j],
        ) by {
            if j < s.len() - 1 {
                assert(s[j] == s.drop_last()[j]);
            }
        }
    }
}

/// The mathematical content of a `TabInfo`: its strings as character sequences.
pub struct TabInfoView {
    pub id: u32,
    pub title: Seq<char>,
    pub command: Seq<Seq<char>>,
    pub pid: Option<u32>,
    pub created_at: i64,
    pub cols: u16,
    pub rows: u16,
    pub bell: bool,
    pub exit: Option<ExitInfo>,
    pub workspace: Seq<char>,
}

impl View for TabInfo {
    type V = TabInfoView;

    open spec fn view(&self) -> TabInfoView {
        TabInfoView {
            id: self.id,
            title: self.title@,
            command: self.command_view(),
            pid: self.pid,
            created_at: self.created_at,
            cols: self.cols,
            rows: self.rows,
            bell: self.bell,
            exit: self.exit,
            workspace: self.workspace@,
        }
    }
}

impl TabInfo {
    /// The command line as plain character sequences.
    pub open spec fn command_view(&self) -> Seq<Seq<char>> {
        self.command@.map_values(|w: String| w@)
    }

    /// The program name shown to selectors and the tab bar (the first word of
    /// the command line, stripped of any path).
    pub fn program(&self) -> (r: &str)
        ensures
            r@ == program_name(self.command_view()),
    {
        if self.command.len() == 0 {
            proof {
                reveal_strlit("?");
            }
            return "?";
        }
        let first: &str = self.command[0].as_str();
        let n = first.unicode_len();
        let mut k: usize = n;
        while k > 0
            invariant
                k <= n,
                n == first@.len(),
                forall|j: int| k <= j < n ==> !is_path_sep(#[trigger] first@[j]),
            ensures
                k <= n,
                forall|j: int| k <= j < n ==> !is_path_sep(#[trigger] first@[j]),
                k > 0 ==> is_path_sep(first@[k - 1]),
            decreases k,
        {
            let c = first.get_char(k - 1);
            if c == '/' || c == '\\' {
                break;
            }
            k = k - 1;
        }
        proof {
            lemma_after_last_sep(first@);
            lemma_last_sep_unique(first@, k as int);
        }
        first.substring_char(k, n)
    }

    /// A copy of this snapshot, field by field.
    pub fn duplicate(&self) -> (r: TabInfo)
        ensures
            r@ == self@,
    {
        let mut command: Vec<String> = Vec::new();
        let mut i: usize = 0;
        while i < self.command.len()
            invariant
                i <= self.command@.len(),
                command@ == self.command@.subrange(0, i as int),
            decreases self.command.len() - i,
        {
            command.push(self.command[i].clone());
            i = i + 1;
            assert(command@ == self.command@.subrange(0, i as int));
        }
        assert(command@ == self.command@);
        TabInfo {
            id: self.id,
            title: self.title.clone(),
            command,
            pid: self.pid,
            created_at: self.created_at,
            cols: self.cols,
            rows: self.rows,
            bell: self.bell,
            exit: self.exit,
            workspace: self.workspace.clone(),
        }
    }
}

/// A position `k` that ends a separator-free tail of `s`, and that is either 0
/// or just past a separator, is the position after the last separator.
proof fn lemma_last_sep_unique(s: Seq<char>, k: int)
    requires
        0 <= k <= s.len(),
        forall|j: int| k <= j < s.len() ==> !is_path_sep(#[trigger] s[j]),
        k > 0 ==> is_path_sep(s[k - 1]),
    ensures
        after_last_sep(s) == k,
    decreases s.len(),
{
    if s.len() > 0 && k < s.len() {
        assert(!is_path_sep(s[s.len() - 1]));
        let t = s.drop_last();
        assert forall|j: int| k <= j < t.len() implies !is_path_sep(#[trigger] t[j]) by {
            assert(t[j] == s[j]);
        }
        if k > 0 {
            assert(t[k - 1] == s[k - 1]);
        }
        lemma_last_sep_unique(t, k);
    }
}

/// The four little-endian bytes of `n`.
pub open spec fn le_bytes(n: u32) -> Seq<u8> {
    seq![
        (n % 256) as u8,
        ((n / 256) % 256) as u8,
        ((n / 65536) % 256) as u8,
        (n / 16777216) as u8,
    ]
}

/// The number that four little-endian bytes stand for.
pub open spec fn le_value(b: Seq<u8>) -> int {
    b[0] + 256 * b[1] + 65536 * b[2] + 16777216 * b[3]
}

/// The frame that carries `payload`: its length, then its bytes.
pub open spec fn encode_frame(payload: Seq<u8>) -> Seq<u8> {
    le_bytes(payload.len() as u32) + payload
}

/// What reading one frame from the start of `buf` gives: the payload and the
/// number of bytes the frame took, or why there is none.
pub open spec fn decode_frame(buf: Seq<u8>) -> Result<(Seq<u8>, int), FrameError> {
    if buf.len() < 4 {
        Err(FrameError::UnexpectedEof)
    } else {
        let len = le_value(buf.subrange(0, 4));
        if len > MAX_MESSAGE_SIZE {
            Err(FrameError::InvalidData)
        } else if buf.len() < 4 + len {
            Err(FrameError::UnexpectedEof)
        } else {
            Ok((buf.subrange(4, 4 + len), 4 + len))
        }
    }
}

/// Decodes a frame's length prefix, refusing lengths above `MAX_MESSAGE_SIZE`.
pub fn frame_len(prefix: [u8; 4]) -> (r: Result<u32, FrameError>)
    ensures
        match r {
            Ok(n) => n == le_value(prefix@) && n <= MAX_MESSAGE_SIZE,
            Err(e) => e == FrameError::InvalidData && le_value(prefix@) > MAX_MESSAGE_SIZE,
        },
{
    let n: u32 = prefix[0] as u32 + 256 * (prefix[1] as u32) + 65536 * (prefix[2] as u32)
        + 16777216 * (prefix[3] as u32);
    if n > MAX_MESSAGE_SIZE {
        Err(FrameError::InvalidData)
    } else {
        Ok(n)
    }
}

/// Frames `payload` for sending: the little-endian length followed by the bytes.
/// A payload longer than `MAX_MESSAGE_SIZE` is refused.
pub fn write_message(payload: &[u8]) -> (r: Result<Vec<u8>, FrameError>)
    ensures
        match r {
            Ok(frame) => payload@.len() <= MAX_MESSAGE_SIZE && frame@ == encode_frame(payload@),
            Err(e) => e == FrameError::InvalidData && payload@.len() > MAX_MESSAGE_SIZE,
        },
{
    if payload.len() > MAX_MESSAGE_SIZE as usize {
        return Err(FrameError::InvalidData);
    }
    let n = payload.len() as u32;
    let mut frame: Vec<u8> = Vec::new();
    frame.push((n % 256) as u8);
    frame.push(((n / 256) % 256) as u8);
    frame.push(((n / 65536) % 256) as u8);
    frame.push((n / 16777216) as u8);
    let mut i: usize = 0;
    while i < payload.len()
        invariant
            i <= payload@.len(),
            frame@ == le_bytes(n) + payload@.subrange(0, i as int),
        decreases payload.len() - i,
    {
        frame.push(payload[i]);
        i = i + 1;
        assert(frame@ == le_bytes(n) + payload@.subrange(0, i as int));
    }
    assert(payload@.subrange(0, payload@.len() as int) == payload@);
    Ok(frame)
}

/// Reads one frame from the start of `buf`: its payload and the number of
/// bytes it took. A length above `MAX_MESSAGE_SIZE` is refused before any
/// payload is looked at; input that ends early is reported as such.
pub fn read_message(buf: &[u8]) -> (r: Result<(Vec<u8>, usize), FrameError>)
    ensures
        match r {
            Ok((payload, used)) => decode_frame(buf@) == Ok::<(Seq<u8>, int), FrameError>(
                (payload@, used as int),
            ),
            Err(e) => decode_frame(buf@) == Err::<(Seq<u8>, int), FrameError>(e),
        },
{
    if buf.len() < 4 {
        return Err(FrameError::UnexpectedEof);
    }
    let prefix: [u8; 4] = [buf[0], buf[1], buf[2], buf[3]];
    assert(prefix@ == buf@.subrange(0, 4));
    let n = match frame_len(prefix) {
        Ok(n) => n,
        Err(e) => {
            return Err(e);
        },
    };
    let len = n as usize;
    if buf.len() - 4 < len {
        return Err(FrameError::UnexpectedEof);
    }
    let buf_len = buf.len();
    let mut payload: Vec<u8> = Vec::new();
    let mut i: usize = 0;
    while i < len
        invariant
            i <= len,
            buf_len == buf@.len(),
            4 + len <= buf@.len(),
            payload@ == buf@.subrange(4, 4 + i),
        decreases len - i,
    {
        payload.push(buf[4 + i]);
        i = i + 1;
        assert(payload@ == buf@.subrange(4, 4 + i));
    }
    Ok((payload, 4 + len))
}

/// Framing law: reading back a frame that `write_message` produced gives the
/// original payload and the frame's length, whatever bytes follow the frame.
pub proof fn lemma_frame_round_trip(payload: Seq<u8>, rest: Seq<u8>)
    requires
        payload.len() <= MAX_MESSAGE_SIZE,
    ensures
        decode_frame(encode_frame(payload) + rest) == Ok::<(Seq<u8>, int), FrameError>(
            (payload, 4 + payload.len() as int),
        ),
{
    let n = payload.len() as u32;
    let buf = encode_frame(payload) + rest;
    assert(buf.subrange(0, 4) == le_bytes(n));
    assert(le_value(le_bytes(n)) == n);
    assert(buf.subrange(4, 4 + payload.len() as int) == payload);
}

} // verus!
