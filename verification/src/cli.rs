//! The command line: which command the arguments ask for, how an ambiguous
//! selector is resolved from the user's pick, and how a tab's state is shown
//! in the plain listing.

use vstd::prelude::*;
use crate::protocol::{ExitInfo, TabInfo};
use crate::ui::{push_shown_title, shown_title};
use crate::selector::{parse_unsigned, parse_unsigned_spec};
use crate::text::{
    chars_of, decimal, decimal_chars, pad_left, pad_right, push_chars, push_decimal, push_padded_left,
    push_padded_right, same_chars, string_of, trim, trim_chars,
};

verus! {

/// What to do, as the arguments ask.
#[derive(Clone, Debug, PartialEq, Eq)]
pub enum CliCommand {
    /// Open the tab overview (no arguments).
    Overview,
    /// `-h`, `--help`.
    Help,
    /// `-V`, `--version`.
    Version,
    /// `__daemon`: run as the daemon.
    Daemon,
    /// `-t`, `attach`: attach to the tab that the selector names.
    Attach(String),
    /// `-k`, `kill`: kill (or dismiss) the tab that the selector names.
    Kill(String),
    /// `rename <SELECTOR> <TITLE...>`: the title is the remaining words joined by spaces.
    Rename { selector: String, title: String },
    /// `ls`, `list`.
    List,
    /// `status`.
    Status,
    /// `kill-server`.
    KillServer,
    /// `restart-server`, `restart`.
    RestartServer,
    /// `config`: print the configuration file's path.
    ConfigPath,
    /// Open a new tab running this command line (`new`/`run` followed by it,
    /// or any other first word).
    Create(Vec<String>),
}

/// Why the arguments ask for nothing.
#[derive(Clone, Copy, Debug, PartialEq, Eq)]
pub enum CliError {
    /// `-t`/`attach`/`-k`/`kill` without a selector.
    MissingSelector,
    /// `rename` with fewer than two arguments.
    RenameUsage,
}

/// `words` joined with single spaces.
pub open spec fn join_spaces(words: Seq<Seq<char>>) -> Seq<char>
    decreases words.len(),
{
    if words.len() == 0 {
        Seq::empty()
    } else if words.len() == 1 {
        words[0]
    } else {
        join_spaces(words.drop_last()) + seq![' '] + words.last()
    }
}

/// The arguments as character sequences.
pub open spec fn arg_views(args: Seq<String>) -> Seq<Seq<char>> {
    args.map_values(|a: String| a@)
}

/// Whether `a` is one of the words `x` and `y`.
pub open spec fn is_either(a: Seq<char>, x: Seq<char>, y: Seq<char>) -> bool {
    a == x || a == y
}

/// What the arguments ask for (the program's name not included).
pub open spec fn cli_spec(args: Seq<Seq<char>>) -> Result<CliKind, CliError> {
    if args.len() == 0 {
        Ok(CliKind::Overview)
    } else {
        let a = args[0];
        if is_either(a, seq!['-', 'h'], seq!['-', '-', 'h', 'e', 'l', 'p']) {
            Ok(CliKind::Help)
        } else if is_either(
            a,
            seq!['-', 'V'],
            seq!['-', '-', 'v', 'e', 'r', 's', 'i', 'o', 'n'],
        ) {
            Ok(CliKind::Version)
        } else if a == seq!['_', '_', 'd', 'a', 'e', 'm', 'o', 'n'] {
            Ok(CliKind::Daemon)
        } else if is_either(a, seq!['-', 't'], seq!['a', 't', 't', 'a', 'c', 'h']) {
            if args.len() < 2 {
                Err(CliError::MissingSelector)
            } else {
                Ok(CliKind::Attach(args[1]))
            }
        } else if is_either(a, seq!['-', 'k'], seq!['k', 'i', 'l', 'l']) {
            if args.len() < 2 {
                Err(CliError::MissingSelector)
            } else {
                Ok(CliKind::Kill(args[1]))
            }
        } else if a == seq!['r', 'e', 'n', 'a', 'm', 'e'] {
            if args.len() < 3 {
                Err(CliError::RenameUsage)
            } else {
                Ok(
                    CliKind::Rename(
                        args[1],
                        join_spaces(args.subrange(2, args.len() as int)),
                    ),
                )
            }
        } else if is_either(a, seq!['l', 's'], seq!['l', 'i', 's', 't']) {
            Ok(CliKind::List)
        } else if a == seq!['s', 't', 'a', 't', 'u', 's'] {
            Ok(CliKind::Status)
        } else if a == seq!['k', 'i', 'l', 'l', '-', 's', 'e', 'r', 'v', 'e', 'r'] {
            Ok(CliKind::KillServer)
        } else if is_either(
            a,
            seq!['r', 'e', 's', 't', 'a', 'r', 't', '-', 's', 'e', 'r', 'v', 'e', 'r'],
            seq!['r', 'e', 's', 't', 'a', 'r', 't'],
        ) {
            Ok(CliKind::RestartServer)
        } else if a == seq!['c', 'o', 'n', 'f', 'i', 'g'] {
            Ok(CliKind::ConfigPath)
        } else if is_either(a, seq!['n', 'e', 'w'], seq!['r', 'u', 'n']) {
            Ok(CliKind::Create(args.subrange(1, args.len() as int)))
        } else {
            Ok(CliKind::Create(args))
        }
    }
}

/// A `CliCommand` with its strings as character sequences.
pub enum CliKind {
    Overview,
    Help,
    Version,
    Daemon,
    Attach(Seq<char>),
    Kill(Seq<char>),
    Rename(Seq<char>, Seq<char>),
    List,
    Status,
    KillServer,
    RestartServer,
    ConfigPath,
    Create(Seq<Seq<char>>),
}

impl View for CliCommand {
    type V = CliKind;

    open spec fn view(&self) -> CliKind {
        match self {
            CliCommand::Overview => CliKind::Overview,
            CliCommand::Help => CliKind::Help,
            CliCommand::Version => CliKind::Version,
            CliCommand::Daemon => CliKind::Daemon,
            CliCommand::Attach(s) => CliKind::Attach(s@),
            CliCommand::Kill(s) => CliKind::Kill(s@),
            CliCommand::Rename { selector, title } => CliKind::Rename(selector@, title@),
            CliCommand::List => CliKind::List,
            CliCommand::Status => CliKind::Status,
            CliCommand::KillServer => CliKind::KillServer,
            CliCommand::RestartServer => CliKind::RestartServer,
            CliCommand::ConfigPath => CliKind::ConfigPath,
            CliCommand::Create(c) => CliKind::Create(arg_views(c@)),
        }
    }
}

fn arg_is(a: &[char], x: &[char]) -> (r: bool)
    ensures
        r == (a@ == x@),
{
    same_chars(a, x)
}

/// `args[from..]`, moved out of `args`.
fn tail_args(args: Vec<String>, from: usize) -> (r: Vec<String>)
    requires
        from <= args@.len(),
    ensures
        arg_views(r@) == arg_views(args@.subrange(from as int, args@.len() as int)),
{
    let ghost orig = args@;
    let mut rest = args;
    let mut k: usize = 0;
    while k < from
        invariant
            k <= from <= orig.len(),
            rest@ == orig.subrange(k as int, orig.len() as int),
        decreases from - k,
    {
        rest.remove(0);
        k = k + 1;
        assert(rest@ == orig.subrange(k as int, orig.len() as int));
    }
    rest
}

/// The words `args[from..]` joined with single spaces.
fn join_from(args: &Vec<String>, from: usize) -> (r: String)
    requires
        from < args@.len(),
    ensures
        r@ == join_spaces(arg_views(args@.subrange(from as int, args@.len() as int))),
{
    let mut r = String::new();
    let mut k: usize = from;
    while k < args.len()
        invariant
            from <= k <= args@.len(),
            from < args@.len(),
            r@ == join_spaces(arg_views(args@.subrange(from as int, k as int))),
        decreases args.len() - k,
    {
        let ghost before = arg_views(args@.subrange(from as int, k as int));
        let ghost after = arg_views(args@.subrange(from as int, k + 1));
        assert(after.drop_last() =~= before);
        assert(after.last() == args@[k as int]@);
        if k > from {
            push_chars(&mut r, &[' ']);
        } else {
            assert(before.len() == 0);
        }
        push_chars(&mut r, &chars_of(args[k].as_str()));
        k = k + 1;
    }
    r
}

/// Reads what the command-line arguments ask for.
pub fn parse_args(args: Vec<String>) -> (r: Result<CliCommand, CliError>)
    ensures
        match r {
            Ok(cmd) => cli_spec(arg_views(args@)) == Ok::<CliKind, CliError>(cmd@),
            Err(e) => cli_spec(arg_views(args@)) == Err::<CliKind, CliError>(e),
        },
{
    let ghost av = arg_views(args@);
    if args.len() == 0 {
        return Ok(CliCommand::Overview);
    }
    let a = chars_of(args[0].as_str());
    assert(a@ == av[0]);
    let n = args.len();
    if arg_is(&a, &['-', 'h']) || arg_is(&a, &['-', '-', 'h', 'e', 'l', 'p']) {
        Ok(CliCommand::Help)
    } else if arg_is(&a, &['-', 'V']) || arg_is(&a, &['-', '-', 'v', 'e', 'r', 's', 'i', 'o', 'n']) {
        Ok(CliCommand::Version)
    } else if arg_is(&a, &['_', '_', 'd', 'a', 'e', 'm', 'o', 'n']) {
        Ok(CliCommand::Daemon)
    } else if arg_is(&a, &['-', 't']) || arg_is(&a, &['a', 't', 't', 'a', 'c', 'h']) {
        if n < 2 {
            Err(CliError::MissingSelector)
        } else {
            Ok(CliCommand::Attach(args[1].clone()))
        }
    } else if arg_is(&a, &['-', 'k']) || arg_is(&a, &['k', 'i', 'l', 'l']) {
        if n < 2 {
            Err(CliError::MissingSelector)
        } else {
            Ok(CliCommand::Kill(args[1].clone()))
        }
    } else if arg_is(&a, &['r', 'e', 'n', 'a', 'm', 'e']) {
        if n < 3 {
            Err(CliError::RenameUsage)
        } else {
            let title = join_from(&args, 2);
            assert(arg_views(args@.subrange(2, n as int)) =~= av.subrange(2, n as int));
            Ok(CliCommand::Rename { selector: args[1].clone(), title })
        }
    } else if arg_is(&a, &['l', 's']) || arg_is(&a, &['l', 'i', 's', 't']) {
        Ok(CliCommand::List)
    } else if arg_is(&a, &['s', 't', 'a', 't', 'u', 's']) {
        Ok(CliCommand::Status)
    } else if arg_is(&a, &['k', 'i', 'l', 'l', '-', 's', 'e', 'r', 'v', 'e', 'r']) {
        Ok(CliCommand::KillServer)
    } else if arg_is(&a, &['r', 'e', 's', 't', 'a', 'r', 't', '-', 's', 'e', 'r', 'v', 'e', 'r'])
        || arg_is(&a, &['r', 'e', 's', 't', 'a', 'r', 't']) {
        Ok(CliCommand::RestartServer)
    } else if arg_is(&a, &['c', 'o', 'n', 'f', 'i', 'g']) {
        Ok(CliCommand::ConfigPath)
    } else if arg_is(&a, &['n', 'e', 'w']) || arg_is(&a, &['r', 'u', 'n']) {
        let rest = tail_args(args, 1);
        assert(arg_views(args@.subrange(1, n as int)) =~= av.subrange(1, n as int));
        Ok(CliCommand::Create(rest))
    } else {
        Ok(CliCommand::Create(args))
    }
}

/// Why the user's pick among several matching tabs is refused.
#[derive(Clone, Copy, Debug, PartialEq, Eq)]
pub enum PickError {
    /// The line is not a number.
    InvalidSelection,
    /// The number is not the position of a listed tab.
    OutOfRange,
}

/// The position that the user picked among `count` listed tabs, from the
/// line they typed: the trimmed line read as a `usize`, which must be below `count`.
pub fn pick_from_line(line: &str, count: usize) -> (r: Result<usize, PickError>)
    ensures
        match parse_unsigned_spec(trim(line@), usize::MAX as u64) {
            None => r == Err::<usize, PickError>(PickError::InvalidSelection),
            Some(v) => if v < count {
                r == Ok::<usize, PickError>(v as usize)
            } else {
                r == Err::<usize, PickError>(PickError::OutOfRange)
            },
        },
{
    let v = chars_of(line);
    let t = trim_chars(&v);
    let s = string_of(&t);
    match parse_unsigned(s.as_str(), usize::MAX as u64) {
        None => Err(PickError::InvalidSelection),
        Some(k) => if k < count as u64 {
            Ok(k as usize)
        } else {
            Err(PickError::OutOfRange)
        },
    }
}

/// How the plain listing shows a tab's state: `running`, `exited`, or
/// `exited(code N)` for a failed exit.
pub open spec fn tab_status_spec(exit: Option<ExitInfo>) -> Seq<char> {
    match exit {
        None => seq!['r', 'u', 'n', 'n', 'i', 'n', 'g'],
        Some(e) => if e.success {
            seq!['e', 'x', 'i', 't', 'e', 'd']
        } else {
            seq!['e', 'x', 'i', 't', 'e', 'd', '(', 'c', 'o', 'd', 'e', ' '] + decimal(
                e.code as nat,
            ) + seq![')']
        },
    }
}

/// The state of a tab, as the plain listing shows it.
pub fn tab_status(exit: Option<ExitInfo>) -> (r: String)
    ensures
        r@ == tab_status_spec(exit),
{
    match exit {
        None => string_of(&['r', 'u', 'n', 'n', 'i', 'n', 'g']),
        Some(e) => {
            if e.success {
                string_of(&['e', 'x', 'i', 't', 'e', 'd'])
            } else {
                let mut s = string_of(
                    &['e', 'x', 'i', 't', 'e', 'd', '(', 'c', 'o', 'd', 'e', ' '],
                );
                push_decimal(&mut s, e.code as u64);
                push_chars(&mut s, &[')']);
                s
            }
        },
    }
}

/// How the plain listing shows a process id: the number, or `-` for none.
pub open spec fn pid_text(pid: Option<u32>) -> Seq<char> {
    match pid {
        Some(p) => decimal(p as nat),
        None => seq!['-'],
    }
}

/// One row of the plain listing: the id right-aligned in three columns, the
/// name left-aligned in twenty, the process id left-aligned in eight after
/// `pid=`, the size as `COLSxROWS`, and the state.
pub open spec fn listing_line_spec(t: TabInfo) -> Seq<char> {
    pad_left(decimal(t.id as nat), 3) + seq![' ', ' '] + pad_right(shown_title(t), 20) + seq![
        ' ',
        'p',
        'i',
        'd',
        '=',
    ] + pad_right(pid_text(t.pid), 8) + seq![' '] + decimal(t.cols as nat) + seq!['x'] + decimal(
        t.rows as nat,
    ) + seq![' ', ' '] + tab_status_spec(t.exit)
}

/// The row that shows `tab` in the plain listing.
pub fn listing_line(tab: &TabInfo) -> (r: String)
    ensures
        r@ == listing_line_spec(*tab),
{
    let mut r = String::new();
    push_padded_left(&mut r, &decimal_chars(tab.id as u64), 3);
    push_chars(&mut r, &[' ', ' ']);
    let mut name = String::new();
    push_shown_title(&mut name, tab);
    push_padded_right(&mut r, &chars_of(name.as_str()), 20);
    push_chars(&mut r, &[' ', 'p', 'i', 'd', '=']);
    let pid: Vec<char> = match tab.pid {
        Some(p) => decimal_chars(p as u64),
        None => vec!['-'],
    };
    push_padded_right(&mut r, &pid, 8);
    push_chars(&mut r, &[' ']);
    push_decimal(&mut r, tab.cols as u64);
    push_chars(&mut r, &['x']);
    push_decimal(&mut r, tab.rows as u64);
    push_chars(&mut r, &[' ', ' ']);
    push_chars(&mut r, &chars_of(tab_status(tab.exit).as_str()));
    r
}

/// `attach` is the long form of `-t`, and `kill` of `-k`: whatever follows,
/// the two forms read the same. With a selector after them they ask to attach
/// to (or kill) exactly that selector; without one they are refused for the
/// missing selector.
pub proof fn lemma_selector_aliases(rest: Seq<Seq<char>>)
    ensures
        cli_spec(seq![seq!['a', 't', 't', 'a', 'c', 'h']] + rest) == cli_spec(seq![seq!['-', 't']] + rest),
        cli_spec(seq![seq!['k', 'i', 'l', 'l']] + rest) == cli_spec(seq![seq!['-', 'k']] + rest),
        rest.len() > 0 ==> cli_spec(seq![seq!['a', 't', 't', 'a', 'c', 'h']] + rest) == Ok::<
            CliKind,
            CliError,
        >(CliKind::Attach(rest[0])),
        rest.len() > 0 ==> cli_spec(seq![seq!['k', 'i', 'l', 'l']] + rest) == Ok::<CliKind, CliError>(
            CliKind::Kill(rest[0]),
        ),
        rest.len() == 0 ==> cli_spec(seq![seq!['a', 't', 't', 'a', 'c', 'h']] + rest) == Err::<
            CliKind,
            CliError,
        >(CliError::MissingSelector),
        rest.len() == 0 ==> cli_spec(seq![seq!['k', 'i', 'l', 'l']] + rest) == Err::<CliKind, CliError>(
            CliError::MissingSelector,
        ),
{
    let attach = seq!['a', 't', 't', 'a', 'c', 'h'];
    let kill = seq!['k', 'i', 'l', 'l'];
    let t = seq!['-', 't'];
    let k = seq!['-', 'k'];
    let a1 = seq![attach] + rest;
    let a2 = seq![t] + rest;
    let k1 = seq![kill] + rest;
    let k2 = seq![k] + rest;
    assert(a1[0] == attach && a2[0] == t && k1[0] == kill && k2[0] == k);
    assert(rest.len() > 0 ==> a1[1] == rest[0] && a2[1] == rest[0] && k1[1] == rest[0] && k2[1]
        == rest[0]);
    // the words tried before `-t`/`attach` and `-k`/`kill` differ from them
    assert(attach != seq!['-', 'h'] && attach != seq!['-', '-', 'h', 'e', 'l', 'p']);
    assert(attach != seq!['-', 'V'] && attach != seq!['-', '-', 'v', 'e', 'r', 's', 'i', 'o', 'n']);
    assert(attach != seq!['_', '_', 'd', 'a', 'e', 'm', 'o', 'n']);
    assert(t != seq!['-', 'h']) by {
        assert(t[1] != seq!['-', 'h'][1]);
    }
    assert(t != seq!['-', 'V']) by {
        assert(t[1] != seq!['-', 'V'][1]);
    }
    assert(kill != seq!['-', 'h'] && kill != seq!['-', '-', 'h', 'e', 'l', 'p']);
    assert(kill != seq!['-', 'V'] && kill != seq!['-', '-', 'v', 'e', 'r', 's', 'i', 'o', 'n']);
    assert(kill != seq!['_', '_', 'd', 'a', 'e', 'm', 'o', 'n']);
    assert(kill != seq!['-', 't'] && kill != attach);
    assert(k != seq!['-', 'h']) by {
        assert(k[1] != seq!['-', 'h'][1]);
    }
    assert(k != seq!['-', 'V']) by {
        assert(k[1] != seq!['-', 'V'][1]);
    }
    assert(k != seq!['-', 't']) by {
        assert(k[1] != seq!['-', 't'][1]);
    }
    assert(k != attach);
}

/// The words that the command line reserves for its own commands; any other
/// first word is the program of a new tab.
pub open spec fn reserved_words() -> Seq<Seq<char>> {
    seq![
        seq!['-', 'h'],
        seq!['-', '-', 'h', 'e', 'l', 'p'],
        seq!['-', 'V'],
        seq!['-', '-', 'v', 'e', 'r', 's', 'i', 'o', 'n'],
        seq!['_', '_', 'd', 'a', 'e', 'm', 'o', 'n'],
        seq!['-', 't'],
        seq!['a', 't', 't', 'a', 'c', 'h'],
        seq!['-', 'k'],
        seq!['k', 'i', 'l', 'l'],
        seq!['r', 'e', 'n', 'a', 'm', 'e'],
        seq!['l', 's'],
        seq!['l', 'i', 's', 't'],
        seq!['s', 't', 'a', 't', 'u', 's'],
        seq!['k', 'i', 'l', 'l', '-', 's', 'e', 'r', 'v', 'e', 'r'],
        seq!['r', 'e', 's', 't', 'a', 'r', 't', '-', 's', 'e', 'r', 'v', 'e', 'r'],
        seq!['r', 'e', 's', 't', 'a', 'r', 't'],
        seq!['c', 'o', 'n', 'f', 'i', 'g'],
        seq!['n', 'e', 'w'],
        seq!['r', 'u', 'n'],
    ]
}

proof fn lemma_reserved_words_distinct()
    ensures
        forall|i: int, j: int|
            0 <= i < j < reserved_words().len() ==> reserved_words()[i] != reserved_words()[j],
        reserved_words()[0] == seq!['-', 'h'],
        reserved_words()[1] == seq!['-', '-', 'h', 'e', 'l', 'p'],
        reserved_words()[2] == seq!['-', 'V'],
        reserved_words()[3] == seq!['-', '-', 'v', 'e', 'r', 's', 'i', 'o', 'n'],
        reserved_words()[4] == seq!['_', '_', 'd', 'a', 'e', 'm', 'o', 'n'],
        reserved_words()[5] == seq!['-', 't'],
        reserved_words()[6] == seq!['a', 't', 't', 'a', 'c', 'h'],
        reserved_words()[7] == seq!['-', 'k'],
        reserved_words()[8] == seq!['k', 'i', 'l', 'l'],
        reserved_words()[9] == seq!['r', 'e', 'n', 'a', 'm', 'e'],
        reserved_words()[10] == seq!['l', 's'],
        reserved_words()[11] == seq!['l', 'i', 's', 't'],
        reserved_words()[12] == seq!['s', 't', 'a', 't', 'u', 's'],
        reserved_words()[13] == seq!['k', 'i', 'l', 'l', '-', 's', 'e', 'r', 'v', 'e', 'r'],
        reserved_words()[14] == seq!['r', 'e', 's', 't', 'a', 'r', 't', '-', 's', 'e', 'r', 'v', 'e', 'r'],
        reserved_words()[15] == seq!['r', 'e', 's', 't', 'a', 'r', 't'],
        reserved_words()[16] == seq!['c', 'o', 'n', 'f', 'i', 'g'],
        reserved_words()[17] == seq!['n', 'e', 'w'],
        reserved_words()[18] == seq!['r', 'u', 'n'],
{
    let names = reserved_words();
    assert forall|i: int, j: int| 0 <= i < j < names.len() implies names[i] != names[j] by {
        if names[i].len() == names[j].len() {
            assert(names[i][0] != names[j][0] || names[i][1] != names[j][1] || names[i][2] != names[j][2]
                || names[i][3] != names[j][3] || names[i][4] != names[j][4]);
        }
    }
}

/// The commands read from their words, whatever follows them: `-h`/`--help`,
/// `-V`/`--version`, `__daemon`, `ls`/`list`, `status`, `kill-server`,
/// `restart-server`/`restart` and `config` name their commands; `new` and
/// `run` open a tab running the words after them; `rename` takes a selector
/// and a title made of the remaining words joined by spaces.
pub proof fn lemma_command_words(rest: Seq<Seq<char>>)
    ensures
        cli_spec(seq![seq!['-', 'h']] + rest) == Ok::<CliKind, CliError>(CliKind::Help),
        cli_spec(seq![seq!['-', '-', 'h', 'e', 'l', 'p']] + rest) == Ok::<CliKind, CliError>(CliKind::Help),
        cli_spec(seq![seq!['-', 'V']] + rest) == Ok::<CliKind, CliError>(CliKind::Version),
        cli_spec(seq![seq!['-', '-', 'v', 'e', 'r', 's', 'i', 'o', 'n']] + rest) == Ok::<CliKind, CliError>(
            CliKind::Version,
        ),
        cli_spec(seq![seq!['_', '_', 'd', 'a', 'e', 'm', 'o', 'n']] + rest) == Ok::<CliKind, CliError>(
            CliKind::Daemon,
        ),
        cli_spec(seq![seq!['l', 's']] + rest) == Ok::<CliKind, CliError>(CliKind::List),
        cli_spec(seq![seq!['l', 'i', 's', 't']] + rest) == Ok::<CliKind, CliError>(CliKind::List),
        cli_spec(seq![seq!['s', 't', 'a', 't', 'u', 's']] + rest) == Ok::<CliKind, CliError>(CliKind::Status),
        cli_spec(seq![seq!['k', 'i', 'l', 'l', '-', 's', 'e', 'r', 'v', 'e', 'r']] + rest) == Ok::<
            CliKind,
            CliError,
        >(CliKind::KillServer),
        cli_spec(seq![seq!['r', 'e', 's', 't', 'a', 'r', 't', '-', 's', 'e', 'r', 'v', 'e', 'r']] + rest)
            == Ok::<CliKind, CliError>(CliKind::RestartServer),
        cli_spec(seq![seq!['r', 'e', 's', 't', 'a', 'r', 't']] + rest) == Ok::<CliKind, CliError>(
            CliKind::RestartServer,
        ),
        cli_spec(seq![seq!['c', 'o', 'n', 'f', 'i', 'g']] + rest) == Ok::<CliKind, CliError>(
            CliKind::ConfigPath,
        ),
        cli_spec(seq![seq!['n', 'e', 'w']] + rest) == Ok::<CliKind, CliError>(CliKind::Create(rest)),
        cli_spec(seq![seq!['r', 'u', 'n']] + rest) == Ok::<CliKind, CliError>(CliKind::Create(rest)),
        rest.len() >= 2 ==> cli_spec(seq![seq!['r', 'e', 'n', 'a', 'm', 'e']] + rest) == Ok::<
            CliKind,
            CliError,
        >(CliKind::Rename(rest[0], join_spaces(rest.drop_first()))),
        rest.len() < 2 ==> cli_spec(seq![seq!['r', 'e', 'n', 'a', 'm', 'e']] + rest) == Err::<
            CliKind,
            CliError,
        >(CliError::RenameUsage),
{
    lemma_reserved_words_distinct();
    let names = reserved_words();
    assert(names[0] == seq!['-', 'h']);
    assert(names[1] == seq!['-', '-', 'h', 'e', 'l', 'p']);
    assert(names[2] == seq!['-', 'V']);
    assert(names[3] == seq!['-', '-', 'v', 'e', 'r', 's', 'i', 'o', 'n']);
    assert(names[4] == seq!['_', '_', 'd', 'a', 'e', 'm', 'o', 'n']);
    assert(names[5] == seq!['-', 't']);
    assert(names[6] == seq!['a', 't', 't', 'a', 'c', 'h']);
    assert(names[7] == seq!['-', 'k']);
    assert(names[8] == seq!['k', 'i', 'l', 'l']);
    assert(names[9] == seq!['r', 'e', 'n', 'a', 'm', 'e']);
    assert(names[10] == seq!['l', 's']);
    assert(names[11] == seq!['l', 'i', 's', 't']);
    assert(names[12] == seq!['s', 't', 'a', 't', 'u', 's']);
    assert(names[13] == seq!['k', 'i', 'l', 'l', '-', 's', 'e', 'r', 'v', 'e', 'r']);
    assert(names[14] == seq!['r', 'e', 's', 't', 'a', 'r', 't', '-', 's', 'e', 'r', 'v', 'e', 'r']);
    assert(names[15] == seq!['r', 'e', 's', 't', 'a', 'r', 't']);
    assert(names[16] == seq!['c', 'o', 'n', 'f', 'i', 'g']);
    assert(names[17] == seq!['n', 'e', 'w']);
    assert(names[18] == seq!['r', 'u', 'n']);
    assert forall|w: Seq<char>| #[trigger] (seq![w] + rest)[0] == w by {}
    assert((seq![seq!['n', 'e', 'w']] + rest).subrange(1, rest.len() as int + 1) =~= rest);
    assert((seq![seq!['r', 'u', 'n']] + rest).subrange(1, rest.len() as int + 1) =~= rest);
    let r = seq![seq!['r', 'e', 'n', 'a', 'm', 'e']] + rest;
    if rest.len() >= 2 {
        assert(r[1] == rest[0]);
        assert(r.subrange(2, r.len() as int) =~= rest.drop_first());
    }
}

/// Any first word that is not one of the reserved words is a program: the
/// whole command line runs in a new tab.
pub proof fn lemma_programs_open_tabs(w: Seq<char>, rest: Seq<Seq<char>>)
    requires
        !reserved_words().contains(w),
    ensures
        cli_spec(seq![w] + rest) == Ok::<CliKind, CliError>(CliKind::Create(seq![w] + rest)),
{
    let names = reserved_words();
    assert(names[0] == seq!['-', 'h']);
    assert(names[1] == seq!['-', '-', 'h', 'e', 'l', 'p']);
    assert(names[2] == seq!['-', 'V']);
    assert(names[3] == seq!['-', '-', 'v', 'e', 'r', 's', 'i', 'o', 'n']);
    assert(names[4] == seq!['_', '_', 'd', 'a', 'e', 'm', 'o', 'n']);
    assert(names[5] == seq!['-', 't']);
    assert(names[6] == seq!['a', 't', 't', 'a', 'c', 'h']);
    assert(names[7] == seq!['-', 'k']);
    assert(names[8] == seq!['k', 'i', 'l', 'l']);
    assert(names[9] == seq!['r', 'e', 'n', 'a', 'm', 'e']);
    assert(names[10] == seq!['l', 's']);
    assert(names[11] == seq!['l', 'i', 's', 't']);
    assert(names[12] == seq!['s', 't', 'a', 't', 'u', 's']);
    assert(names[13] == seq!['k', 'i', 'l', 'l', '-', 's', 'e', 'r', 'v', 'e', 'r']);
    assert(names[14] == seq!['r', 'e', 's', 't', 'a', 'r', 't', '-', 's', 'e', 'r', 'v', 'e', 'r']);
    assert(names[15] == seq!['r', 'e', 's', 't', 'a', 'r', 't']);
    assert(names[16] == seq!['c', 'o', 'n', 'f', 'i', 'g']);
    assert(names[17] == seq!['n', 'e', 'w']);
    assert(names[18] == seq!['r', 'u', 'n']);
    assert forall|i: int| 0 <= i < names.len() implies names[i] != w by {
        if names[i] == w {
            assert(names.contains(w));
        }
    }
    assert((seq![w] + rest)[0] == w);
}

} // verus!
