//! Minimal ANSI colorization for plain command output (listing tabs,
//! printing the configuration), not for the full-screen view.

use vstd::prelude::*;
use crate::config::ColorMode;
use crate::text::{
    chars_of, find_seq, lemma_split_on_len, occurs_at, push_char, push_chars, split_on, split_pieces,
    string_of, trim_start,
};

verus! {

/// Whether to colorize, given the configured mode, an optional forced choice
/// (`--colors`/`--no-colors`, which always wins), whether standard output is
/// a terminal and whether `NO_COLOR` is set. `Auto` colors exactly when the
/// output is a terminal and `NO_COLOR` is unset.
pub fn should_colorize(
    mode: ColorMode,
    forced: Option<bool>,
    stdout_is_terminal: bool,
    no_color_set: bool,
) -> (r: bool)
    ensures
        r == match forced {
            Some(f) => f,
            None => match mode {
                ColorMode::Always => true,
                ColorMode::Never => false,
                ColorMode::Auto => stdout_is_terminal && !no_color_set,
            },
        },
{
    if let Some(f) = forced {
        return f;
    }
    match mode {
        ColorMode::Always => true,
        ColorMode::Never => false,
        ColorMode::Auto => stdout_is_terminal && !no_color_set,
    }
}

/// `s` wrapped in the SGR escape `code` and a reset: `ESC [ code m s ESC [ 0 m`.
pub open spec fn sgr(code: Seq<char>, s: Seq<char>) -> Seq<char> {
    seq!['\x1b', '['] + code + seq!['m'] + s + seq!['\x1b', '[', '0', 'm']
}

/// The pieces joined with `\n` between them (the inverse of splitting at `\n`).
pub open spec fn join_lines(ls: Seq<Seq<char>>) -> Seq<char>
    decreases ls.len(),
{
    if ls.len() == 0 {
        Seq::empty()
    } else if ls.len() == 1 {
        ls[0]
    } else {
        ls[0] + seq!['\n'] + join_lines(ls.drop_first())
    }
}

/// `s` holds no escape character.
pub open spec fn no_esc(s: Seq<char>) -> bool {
    forall|i: int| 0 <= i < s.len() ==> s[i] != '\x1b'
}

/// `s` with its escape codes removed: each escape character is dropped
/// together with everything up to and including the next `m`.
pub open spec fn strip_codes(s: Seq<char>) -> Seq<char>
    decreases s.len(),
{
    if s.len() == 0 {
        Seq::empty()
    } else if s[0] == '\x1b' {
        skip_code(s.drop_first())
    } else {
        seq![s[0]] + strip_codes(s.drop_first())
    }
}

/// The rest of `s` with its escape codes removed, after the `m` that ends the
/// code being skipped.
pub open spec fn skip_code(s: Seq<char>) -> Seq<char>
    decreases s.len(),
{
    if s.len() == 0 {
        Seq::empty()
    } else if s[0] == 'm' {
        strip_codes(s.drop_first())
    } else {
        skip_code(s.drop_first())
    }
}

proof fn lemma_strip_plain(a: Seq<char>, b: Seq<char>)
    requires
        no_esc(a),
    ensures
        strip_codes(a + b) == a + strip_codes(b),
    decreases a.len(),
{
    if a.len() == 0 {
        assert(a + b =~= b);
        assert(a + strip_codes(b) =~= strip_codes(b));
    } else {
        let t = a.drop_first();
        assert((a + b).drop_first() =~= t + b);
        assert((a + b)[0] == a[0]);
        lemma_strip_plain(t, b);
        assert(seq![a[0]] + (t + strip_codes(b)) =~= a + strip_codes(b));
    }
}

proof fn lemma_skip_to_m(c: Seq<char>, b: Seq<char>)
    requires
        forall|i: int| 0 <= i < c.len() ==> c[i] != 'm',
    ensures
        skip_code(c + seq!['m'] + b) == strip_codes(b),
    decreases c.len(),
{
    if c.len() == 0 {
        assert((c + seq!['m'] + b).drop_first() =~= b);
        assert((c + seq!['m'] + b)[0] == 'm');
    } else {
        let t = c.drop_first();
        assert((c + seq!['m'] + b).drop_first() =~= t + seq!['m'] + b);
        assert((c + seq!['m'] + b)[0] == c[0]);
        lemma_skip_to_m(t, b);
    }
}

/// Removing the codes from a colored run and what follows gives the run's
/// text followed by what follows, with its codes removed.
proof fn lemma_strip_sgr(code: Seq<char>, s: Seq<char>, b: Seq<char>)
    requires
        no_esc(s),
        forall|i: int| 0 <= i < code.len() ==> code[i] != 'm',
    ensures
        strip_codes(sgr(code, s) + b) == s + strip_codes(b),
{
    let open_code = seq!['['] + code;
    let tail = s + (seq!['\x1b', '[', '0', 'm'] + b);
    let all = sgr(code, s) + b;
    assert(all =~= seq!['\x1b'] + (open_code + seq!['m'] + tail));
    assert(all[0] == '\x1b');
    assert(all.drop_first() =~= open_code + seq!['m'] + tail);
    assert forall|i: int| 0 <= i < open_code.len() implies open_code[i] != 'm' by {
        if i > 0 {
            assert(open_code[i] == code[i - 1]);
        }
    }
    lemma_skip_to_m(open_code, tail);
    lemma_strip_plain(s, seq!['\x1b', '[', '0', 'm'] + b);
    let reset = seq!['\x1b', '[', '0', 'm'] + b;
    assert(reset[0] == '\x1b');
    assert(reset.drop_first() =~= seq!['[', '0'] + seq!['m'] + b);
    lemma_skip_to_m(seq!['[', '0'], b);
}

/// Removing the codes from `key = ` followed by a colored value and what
/// follows gives the line back, followed by what follows with its codes removed.
proof fn lemma_strip_assign(l: Seq<char>, eq: int, code: Seq<char>, b: Seq<char>)
    requires
        no_esc(l),
        occurs_at(l, assign_sep(), eq),
        forall|i: int| 0 <= i < code.len() ==> code[i] != 'm',
    ensures
        strip_codes(l.subrange(0, eq) + assign_sep() + sgr(code, l.subrange(eq + 3, l.len() as int)) + b)
            == l + strip_codes(b),
{
    let key = l.subrange(0, eq);
    let value = l.subrange(eq + 3, l.len() as int);
    let head = key + assign_sep();
    assert(l =~= head + value);
    assert(no_esc(head)) by {
        assert forall|i: int| 0 <= i < head.len() implies head[i] != '\x1b' by {
            assert(head[i] == l[i]);
        }
    }
    assert(no_esc(value)) by {
        assert forall|i: int| 0 <= i < value.len() implies value[i] != '\x1b' by {
            assert(value[i] == l[eq + 3 + i]);
        }
    }
    assert(head + sgr(code, value) + b =~= head + (sgr(code, value) + b));
    lemma_strip_plain(head, sgr(code, value) + b);
    lemma_strip_sgr(code, value, b);
    assert(head + (value + strip_codes(b)) =~= l + strip_codes(b));
}

/// Removing the codes from a highlighted line and what follows gives the
/// line followed by what follows, with its codes removed.
proof fn lemma_strip_line(l: Seq<char>, b: Seq<char>)
    requires
        no_esc(l),
    ensures
        strip_codes(highlight_line(l) + b) == l + strip_codes(b),
{
    let t = trim_start(l);
    if t.len() > 0 && t[0] == '[' {
        lemma_strip_sgr(seq!['3', '6'], l, b);
    } else {
        lemma_first_assign_occurs(l, 0);
        match first_assign(l) {
            Some(eq) => {
                let value = l.subrange(eq + 3, l.len() as int);
                let code = if value.len() > 0 && value[0] == '"' {
                    seq!['3', '2']
                } else {
                    seq!['3', '3']
                };
                lemma_strip_assign(l, eq, code, b);
            },
            None => {
                lemma_strip_plain(l, b);
            },
        }
    }
}

/// Removing the codes from the highlighted lines, joined, gives the lines joined.
proof fn lemma_strip_lines(ls: Seq<Seq<char>>)
    requires
        forall|i: int| 0 <= i < ls.len() ==> no_esc(#[trigger] ls[i]),
    ensures
        strip_codes(join_lines(ls.map_values(|l: Seq<char>| highlight_line(l)))) == join_lines(ls),
    decreases ls.len(),
{
    let hl = ls.map_values(|l: Seq<char>| highlight_line(l));
    if ls.len() == 0 {
    } else if ls.len() == 1 {
        assert(no_esc(ls[0]));
        lemma_strip_line(ls[0], Seq::empty());
        assert(hl[0] + Seq::<char>::empty() =~= hl[0]);
        assert(strip_codes(Seq::<char>::empty()) == Seq::<char>::empty());
        assert(ls[0] + Seq::<char>::empty() =~= ls[0]);
    } else {
        let rest = ls.drop_first();
        assert forall|i: int| 0 <= i < rest.len() implies no_esc(#[trigger] rest[i]) by {
            assert(rest[i] == ls[i + 1]);
        }
        lemma_strip_lines(rest);
        assert(hl.drop_first() =~= rest.map_values(|l: Seq<char>| highlight_line(l)));
        let j = join_lines(hl.drop_first());
        assert(no_esc(ls[0]));
        assert(join_lines(hl) =~= hl[0] + (seq!['\n'] + j));
        lemma_strip_line(ls[0], seq!['\n'] + j);
        lemma_strip_plain(seq!['\n'], j);
        assert(ls[0] + (seq!['\n'] + join_lines(rest)) =~= join_lines(ls));
    }
}

proof fn lemma_join_push(ls: Seq<Seq<char>>, x: Seq<char>)
    requires
        ls.len() > 0,
    ensures
        join_lines(ls.push(x)) == join_lines(ls) + seq!['\n'] + x,
    decreases ls.len(),
{
    if ls.len() == 1 {
        assert(ls.push(x).drop_first() =~= seq![x]);
        assert(join_lines(seq![x]) == x);
    } else {
        assert(ls.push(x).drop_first() =~= ls.drop_first().push(x));
        lemma_join_push(ls.drop_first(), x);
        assert(join_lines(ls.push(x)) =~= join_lines(ls) + seq!['\n'] + x);
    }
}

proof fn lemma_join_extend_last(ls: Seq<Seq<char>>, c: char)
    requires
        ls.len() > 0,
    ensures
        join_lines(ls.update(ls.len() - 1, ls.last().push(c))) == join_lines(ls).push(c),
    decreases ls.len(),
{
    let u = ls.update(ls.len() - 1, ls.last().push(c));
    if ls.len() == 1 {
        assert(join_lines(u) == u[0]);
    } else {
        let r = ls.drop_first();
        assert(u.drop_first() =~= r.update(r.len() - 1, r.last().push(c)));
        lemma_join_extend_last(r, c);
        assert(u[0] == ls[0]);
        assert(join_lines(u) =~= join_lines(ls).push(c));
    }
}

/// Joining the pieces of `s` between newlines with newlines gives `s` back.
proof fn lemma_join_split(s: Seq<char>)
    ensures
        join_lines(split_on(s, '\n')) == s,
    decreases s.len(),
{
    if s.len() == 0 {
        assert(join_lines(seq![Seq::<char>::empty()]) == Seq::<char>::empty());
        assert(s =~= Seq::<char>::empty());
    } else {
        let t = s.drop_last();
        lemma_join_split(t);
        lemma_split_on_len(t, '\n');
        let p = split_on(t, '\n');
        if s.last() == '\n' {
            lemma_join_push(p, Seq::empty());
            assert(t + seq!['\n'] + Seq::<char>::empty() =~= s);
        } else {
            lemma_join_extend_last(p, s.last());
            assert(t.push(s.last()) =~= s);
        }
    }
}

/// The pieces of a string without escape characters have none either.
proof fn lemma_split_no_esc(s: Seq<char>)
    requires
        no_esc(s),
    ensures
        forall|i: int| 0 <= i < split_on(s, '\n').len() ==> no_esc(#[trigger] split_on(s, '\n')[i]),
    decreases s.len(),
{
    if s.len() > 0 {
        let t = s.drop_last();
        assert(no_esc(t)) by {
            assert forall|i: int| 0 <= i < t.len() implies t[i] != '\x1b' by {
                assert(t[i] == s[i]);
            }
        }
        lemma_split_no_esc(t);
        lemma_split_on_len(t, '\n');
        let p = split_on(t, '\n');
        assert(s.last() == s[s.len() - 1]);
        assert forall|i: int| 0 <= i < split_on(s, '\n').len() implies no_esc(
            #[trigger] split_on(s, '\n')[i],
        ) by {
            if s.last() != '\n' && i == p.len() - 1 {
                let q = p.last().push(s.last());
                assert(p.last() == p[p.len() - 1]);
                assert forall|j: int| 0 <= j < q.len() implies q[j] != '\x1b' by {
                    if j < q.len() - 1 {
                        assert(q[j] == p[p.len() - 1][j]);
                    }
                }
            }
        }
    }
}

/// `" = "`.
pub open spec fn assign_sep() -> Seq<char> {
    seq![' ', '=', ' ']
}

/// The first position, from `k` on, at which `" = "` occurs in `line`.
pub open spec fn first_assign_from(line: Seq<char>, k: int) -> Option<int>
    decreases line.len() - k,
{
    if k < 0 || k + 3 > line.len() {
        None
    } else if occurs_at(line, assign_sep(), k) {
        Some(k)
    } else {
        first_assign_from(line, k + 1)
    }
}

/// The first position of `" = "` in `line`, if it occurs.
pub open spec fn first_assign(line: Seq<char>) -> Option<int> {
    first_assign_from(line, 0)
}

proof fn lemma_first_assign_some(line: Seq<char>, k: int, i: int)
    requires
        0 <= k <= i,
        occurs_at(line, assign_sep(), i),
        forall|j: int| k <= j < i ==> !occurs_at(line, assign_sep(), j),
    ensures
        first_assign_from(line, k) == Some(i),
    decreases i - k,
{
    if k < i {
        lemma_first_assign_some(line, k + 1, i);
    }
}

proof fn lemma_first_assign_none(line: Seq<char>, k: int)
    requires
        0 <= k,
        forall|j: int| k <= j ==> !occurs_at(line, assign_sep(), j),
    ensures
        first_assign_from(line, k) is None,
    decreases line.len() - k,
{
    if k + 3 <= line.len() {
        lemma_first_assign_none(line, k + 1);
    }
}

proof fn lemma_first_assign_occurs(line: Seq<char>, k: int)
    ensures
        first_assign_from(line, k) matches Some(i) ==> occurs_at(line, assign_sep(), i),
    decreases line.len() - k,
{
    if 0 <= k && k + 3 <= line.len() && !occurs_at(line, assign_sep(), k) {
        lemma_first_assign_occurs(line, k + 1);
    }
}

/// One line of a highlighted TOML file: a `[section]` header (after leading
/// white space) in cyan; for `key = value`, split at the first `" = "`, the
/// value in green when it starts with `"` and in yellow otherwise; any other
/// line unchanged.
pub open spec fn highlight_line(line: Seq<char>) -> Seq<char> {
    let t = trim_start(line);
    if t.len() > 0 && t[0] == '[' {
        sgr(seq!['3', '6'], line)
    } else {
        match first_assign(line) {
            Some(eq) => {
                let key = line.subrange(0, eq);
                let value = line.subrange(eq + 3, line.len() as int);
                let colored = if value.len() > 0 && value[0] == '"' {
                    sgr(seq!['3', '2'], value)
                } else {
                    sgr(seq!['3', '3'], value)
                };
                key + assign_sep() + colored
            },
            None => line,
        }
    }
}

/// Applies ANSI styles to strings, or leaves them alone when disabled.
#[derive(Clone, Copy)]
pub struct Painter {
    enabled: bool,
}

impl Painter {
    /// Whether this painter styles anything.
    pub closed spec fn is_enabled(&self) -> bool {
        self.enabled
    }

    /// What styling `s` with `code` gives.
    pub open spec fn paint(&self, code: Seq<char>, s: Seq<char>) -> Seq<char> {
        if self.is_enabled() {
            sgr(code, s)
        } else {
            s
        }
    }

    pub fn new(enabled: bool) -> (r: Painter)
        ensures
            r.is_enabled() == enabled,
    {
        Painter { enabled }
    }

    fn wrap(&self, code: &[char], s: &[char]) -> (r: String)
        ensures
            r@ == self.paint(code@, s@),
    {
        if self.enabled {
            let mut r = string_of(&['\x1b', '[']);
            push_chars(&mut r, code);
            push_char(&mut r, 'm');
            push_chars(&mut r, s);
            push_chars(&mut r, &['\x1b', '[', '0', 'm']);
            r
        } else {
            string_of(s)
        }
    }

    fn wrap_str(&self, code: &[char], s: &str) -> (r: String)
        ensures
            r@ == self.paint(code@, s@),
    {
        let v = chars_of(s);
        self.wrap(code, &v)
    }

    /// `s` in bold.
    pub fn bold(&self, s: &str) -> (r: String)
        ensures
            r@ == self.paint(seq!['1'], s@),
    {
        self.wrap_str(&['1'], s)
    }

    /// `s` dimmed.
    pub fn dim(&self, s: &str) -> (r: String)
        ensures
            r@ == self.paint(seq!['2'], s@),
    {
        self.wrap_str(&['2'], s)
    }

    /// `s` in red.
    pub fn red(&self, s: &str) -> (r: String)
        ensures
            r@ == self.paint(seq!['3', '1'], s@),
    {
        self.wrap_str(&['3', '1'], s)
    }

    /// `s` in green.
    pub fn green(&self, s: &str) -> (r: String)
        ensures
            r@ == self.paint(seq!['3', '2'], s@),
    {
        self.wrap_str(&['3', '2'], s)
    }

    /// `s` in yellow.
    pub fn yellow(&self, s: &str) -> (r: String)
        ensures
            r@ == self.paint(seq!['3', '3'], s@),
    {
        self.wrap_str(&['3', '3'], s)
    }

    /// `s` in cyan.
    pub fn cyan(&self, s: &str) -> (r: String)
        ensures
            r@ == self.paint(seq!['3', '6'], s@),
    {
        self.wrap_str(&['3', '6'], s)
    }

    /// Highlights one line of a TOML file (this painter is enabled).
    fn toml_line(&self, line: &Vec<char>) -> (r: Vec<char>)
        requires
            self.is_enabled(),
        ensures
            r@ == highlight_line(line@),
    {
        let mut k: usize = 0;
        assert(line@.subrange(0, line@.len() as int) == line@);
        while k < line.len() && crate::text::char_is_space(line[k])
            invariant
                k <= line@.len(),
                trim_start(line@) == trim_start(line@.subrange(k as int, line@.len() as int)),
            decreases line.len() - k,
        {
            assert(line@.subrange(k as int, line@.len() as int).drop_first() == line@.subrange(
                k + 1,
                line@.len() as int,
            ));
            k = k + 1;
        }
        let ghost rest = line@.subrange(k as int, line@.len() as int);
        assert(trim_start(rest) == rest);
        if k < line.len() && line[k] == '[' {
            return chars_of(self.wrap(&['3', '6'], line).as_str());
        }
        assert(!(trim_start(line@).len() > 0 && trim_start(line@)[0] == '['));
        match find_seq(line, &[' ', '=', ' ']) {
            Some(eq) => {
                proof {
                    lemma_first_assign_some(line@, 0, eq as int);
                }
                let mut out: Vec<char> = Vec::new();
                let mut i: usize = 0;
                while i < eq
                    invariant
                        i <= eq,
                        eq + 3 <= line@.len(),
                        out@ == line@.subrange(0, i as int),
                    decreases eq - i,
                {
                    out.push(line[i]);
                    i = i + 1;
                    assert(out@ == line@.subrange(0, i as int));
                }
                out.push(' ');
                out.push('=');
                out.push(' ');
                let value = crate::text::string_of_range(line, eq + 3, line.len());
                let vchars = chars_of(value.as_str());
                let colored = if vchars.len() > 0 && vchars[0] == '"' {
                    self.wrap(&['3', '2'], &vchars)
                } else {
                    self.wrap(&['3', '3'], &vchars)
                };
                let cchars = chars_of(colored.as_str());
                let mut j: usize = 0;
                let ghost head = out@;
                while j < cchars.len()
                    invariant
                        j <= cchars@.len(),
                        out@ == head + cchars@.subrange(0, j as int),
                    decreases cchars.len() - j,
                {
                    out.push(cchars[j]);
                    j = j + 1;
                    assert(out@ == head + cchars@.subrange(0, j as int));
                }
                assert(cchars@.subrange(0, cchars@.len() as int) == cchars@);
                out
            },
            None => {
                proof {
                    lemma_first_assign_none(line@, 0);
                }
                let mut out: Vec<char> = Vec::new();
                let mut i: usize = 0;
                while i < line.len()
                    invariant
                        i <= line@.len(),
                        out@ == line@.subrange(0, i as int),
                    decreases line.len() - i,
                {
                    out.push(line[i]);
                    i = i + 1;
                    assert(out@ == line@.subrange(0, i as int));
                }
                assert(line@.subrange(0, line@.len() as int) == line@);
                out
            },
        }
    }

    /// A very small TOML syntax highlight: `[section]` headers in cyan, string
    /// values in green, other values in yellow, everything else left alone.
    /// Each line between newlines is highlighted on its own, and the line
    /// breaks (with any `\r`, and a final newline) are kept, so removing the
    /// color codes gives back the source. When disabled, the source comes back
    /// unchanged.
    pub fn toml(&self, source: &str) -> (r: String)
        ensures
            r@ == if self.is_enabled() {
                join_lines(split_on(source@, '\n').map_values(|l: Seq<char>| highlight_line(l)))
            } else {
                source@
            },
            no_esc(source@) ==> strip_codes(r@) == source@,
    {
        proof {
            if no_esc(source@) {
                lemma_split_no_esc(source@);
                lemma_strip_lines(split_on(source@, '\n'));
                lemma_join_split(source@);
                lemma_strip_plain(source@, Seq::empty());
                        assert(source@ + Seq::<char>::empty() =~= source@);
                assert(strip_codes(Seq::<char>::empty()) == Seq::<char>::empty());
            }
        }
        if !self.enabled {
            return string_of(&chars_of(source));
        }
        let v = chars_of(source);
        let pieces = split_pieces(&v, '\n');
        let ghost p = split_on(source@, '\n');
        proof {
            lemma_split_on_len(source@, '\n');
        }
        let np = pieces.len();
        let ghost hl = p.map_values(|l: Seq<char>| highlight_line(l));
        let mut out = String::new();
        let mut i: usize = 0;
        while i < np
            invariant
                i <= np,
                np == pieces@.len(),
                np == p.len(),
                pieces@.map_values(|x: Vec<char>| x@) == p,
                hl == p.map_values(|l: Seq<char>| highlight_line(l)),
                self.is_enabled(),
                out@ == join_lines(hl.subrange(0, i as int)),
            decreases np - i,
        {
            let piece: &Vec<char> = &pieces[i];
            assert(piece@ == p[i as int]);
            let h = self.toml_line(piece);
            let ghost before = hl.subrange(0, i as int);
            assert(hl.subrange(0, i + 1) =~= before.push(hl[i as int]));
            if i > 0 {
                proof {
                    lemma_join_push(before, hl[i as int]);
                }
                push_char(&mut out, '\n');
            } else {
                assert(join_lines(before) == Seq::<char>::empty());
            }
            push_chars(&mut out, &h);
            i = i + 1;
        }
        assert(hl.subrange(0, np as int) == hl);
        out
    }
}

} // verus!
