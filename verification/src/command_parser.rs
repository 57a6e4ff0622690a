//! Splitting a command line into a program and its arguments, following
//! POSIX shell quoting or the Windows (`CommandLineToArgvW`-style) rules, and
//! noticing unquoted shell operators.

use crate::platform::RuntimePlatform;
use crate::spawn::quote_run;
use crate::text::{chars_of, is_white_space, is_whitespace, string_from_chars};
use vstd::prelude::*;

verus! {

/// Why a command line could not be split.
#[derive(Debug, Clone, Copy, PartialEq, Eq, Structural)]
pub enum CommandParseError {
    Empty,
    UnclosedQuote,
}

impl CommandParseError {
    /// The human-readable description of the error.
    pub fn message(&self) -> (s: String)
        ensures
            s@ == parse_error_message(*self),
    {
        proof {
            reveal_strlit("command cannot be empty");
            reveal_strlit("unclosed quote in command");
        }
        match self {
            CommandParseError::Empty => crate::text::string_from_str("command cannot be empty"),
            CommandParseError::UnclosedQuote => crate::text::string_from_str(
                "unclosed quote in command",
            ),
        }
    }
}

/// The description of each parse error.
pub open spec fn parse_error_message(e: CommandParseError) -> Seq<char> {
    match e {
        CommandParseError::Empty => "command cannot be empty"@,
        CommandParseError::UnclosedQuote => "unclosed quote in command"@,
    }
}

/// A command line split into program and arguments.
#[derive(Debug, Clone)]
pub struct ParsedCommand {
    pub program: String,
    pub args: Vec<String>,
    pub contains_shell_operator: bool,
}

/// The state of the scanner between two characters.
pub struct ScanState {
    pub tokens: Seq<Seq<char>>,
    pub current: Seq<char>,
    pub started: bool,
    pub single_quote: bool,
    pub double_quote: bool,
    pub shell_operator: bool,
}

/// Characters that chain, pipe or redirect when they stand outside quotes.
pub open spec fn is_shell_operator_char(c: char) -> bool {
    c == ';' || c == '|' || c == '<' || c == '>' || c == '&' || c == '\n' || c == '\r'
}

/// Characters that a backslash escapes inside POSIX double quotes.
pub open spec fn escapable_in_double_quotes(c: char) -> bool {
    c == '$' || c == '`' || c == '"' || c == '\\' || c == '\n'
}

/// `n` copies of `c`.
pub open spec fn repeat_char(c: char, n: nat) -> Seq<char> {
    Seq::new(n, |_k: int| c)
}

/// The number of consecutive backslashes in `s` starting at index `i`.
pub open spec fn backslash_run(s: Seq<char>, i: int) -> nat
    decreases s.len() - i,
{
    if 0 <= i < s.len() && s[i] == '\\' {
        1 + backslash_run(s, i + 1)
    } else {
        0
    }
}

/// The scanner state before the first character.
pub open spec fn initial_scan_state() -> ScanState {
    ScanState {
        tokens: Seq::empty(),
        current: Seq::empty(),
        started: false,
        single_quote: false,
        double_quote: false,
        shell_operator: false,
    }
}

/// One scanner step at index `i`: the new state and the index of the first
/// character not yet consumed.
pub open spec fn scan_step(windows: bool, s: Seq<char>, i: int, st: ScanState) -> (ScanState, int) {
    let ch = s[i];
    if ch == '\\' && !st.single_quote {
        if windows {
            let count = backslash_run(s, i);
            let j = i + count;
            if j < s.len() && s[j] == '"' {
                let cur = st.current + repeat_char('\\', count / 2);
                if count % 2 == 0 {
                    (ScanState { current: cur, started: true, double_quote: !st.double_quote, ..st }, j + 1)
                } else {
                    (ScanState { current: cur.push('"'), started: true, ..st }, j + 1)
                }
            } else {
                (ScanState { current: st.current + repeat_char('\\', count), started: true, ..st }, j)
            }
        } else if i + 1 < s.len() {
            let next = s[i + 1];
            if !st.double_quote || escapable_in_double_quotes(next) {
                let cur = if next != '\n' { st.current.push(next) } else { st.current };
                (ScanState { current: cur, started: true, ..st }, i + 2)
            } else {
                (ScanState { current: st.current.push('\\'), started: true, ..st }, i + 1)
            }
        } else {
            (ScanState { current: st.current.push('\\'), started: true, ..st }, i + 1)
        }
    } else if windows && ch == '^' && !st.double_quote {
        if i + 1 < s.len() {
            (ScanState { current: st.current.push(s[i + 1]), started: true, ..st }, i + 2)
        } else {
            (ScanState { current: st.current.push('^'), started: true, ..st }, i + 1)
        }
    } else if !windows && ch == '\'' && !st.double_quote {
        (ScanState { single_quote: !st.single_quote, started: true, ..st }, i + 1)
    } else if ch == '"' && !st.single_quote {
        (ScanState { double_quote: !st.double_quote, started: true, ..st }, i + 1)
    } else {
        let unquoted = !st.single_quote && !st.double_quote;
        let op = st.shell_operator || (unquoted && is_shell_operator_char(ch));
        if unquoted && is_white_space(ch) {
            if st.started {
                (ScanState {
                    tokens: st.tokens.push(st.current),
                    current: Seq::empty(),
                    started: false,
                    shell_operator: op,
                    ..st
                }, i + 1)
            } else {
                (ScanState { started: false, shell_operator: op, ..st }, i + 1)
            }
        } else {
            (ScanState { current: st.current.push(ch), started: true, shell_operator: op, ..st }, i + 1)
        }
    }
}

/// The scanner state after consuming `s` from index `i` on.
pub open spec fn scan_from(windows: bool, s: Seq<char>, i: int, st: ScanState) -> ScanState
    decreases s.len() - i,
{
    if 0 <= i < s.len() {
        let (next, j) = scan_step(windows, s, i, st);
        if i < j <= s.len() {
            scan_from(windows, s, j, next)
        } else {
            next
        }
    } else {
        st
    }
}

/// What splitting `input` yields: the program, the arguments and whether an
/// unquoted shell operator occurred, or the error.
pub open spec fn parse_command_spec(input: Seq<char>, windows: bool) -> Result<
    (Seq<char>, Seq<Seq<char>>, bool),
    CommandParseError,
> {
    let st = scan_from(windows, input, 0, initial_scan_state());
    if st.single_quote || st.double_quote {
        Err(CommandParseError::UnclosedQuote)
    } else {
        let tokens = if st.started {
            st.tokens.push(st.current)
        } else {
            st.tokens
        };
        if tokens.len() == 0 || tokens[0].len() == 0 {
            Err(CommandParseError::Empty)
        } else {
            Ok((tokens[0], tokens.drop_first(), st.shell_operator))
        }
    }
}

/// The views of a vector of strings.
pub open spec fn string_views(v: Seq<String>) -> Seq<Seq<char>> {
    v.map_values(|s: String| s@)
}

proof fn lemma_backslash_run_bound(s: Seq<char>, i: int)
    requires
        0 <= i,
    ensures
        i + backslash_run(s, i) <= if i <= s.len() { s.len() as int } else { i },
        backslash_run(s, i) > 0 ==> i < s.len(),
    decreases s.len() - i,
{
    if 0 <= i < s.len() && s[i] == '\\' {
        lemma_backslash_run_bound(s, i + 1);
    }
}

proof fn lemma_scan_step_progress(windows: bool, s: Seq<char>, i: int, st: ScanState)
    requires
        0 <= i < s.len(),
    ensures
        i < scan_step(windows, s, i, st).1 <= s.len(),
{
    lemma_backslash_run_bound(s, i);
    if s[i] == '\\' {
        assert(backslash_run(s, i) == 1 + backslash_run(s, i + 1));
    }
}

proof fn lemma_scan_unfold(windows: bool, s: Seq<char>, i: int, st: ScanState)
    requires
        0 <= i < s.len(),
    ensures
        scan_from(windows, s, i, st) == scan_from(
            windows,
            s,
            scan_step(windows, s, i, st).1,
            scan_step(windows, s, i, st).0,
        ),
{
    lemma_scan_step_progress(windows, s, i, st);
}

/// The scanner state as executable data.
struct ExecScan {
    tokens: Vec<Vec<char>>,
    current: Vec<char>,
    started: bool,
    single_quote: bool,
    double_quote: bool,
    shell_operator: bool,
}

impl ExecScan {
    spec fn view_state(&self) -> ScanState {
        ScanState {
            tokens: self.tokens@.map_values(|t: Vec<char>| t@),
            current: self.current@,
            started: self.started,
            single_quote: self.single_quote,
            double_quote: self.double_quote,
            shell_operator: self.shell_operator,
        }
    }
}

/// Appends `n` copies of `c`.
fn push_repeat(v: &mut Vec<char>, c: char, n: usize)
    ensures
        final(v)@ == old(v)@ + repeat_char(c, n as nat),
{
    let ghost start = v@;
    let mut k: usize = 0;
    while k < n
        invariant
            k <= n,
            v@ == start + repeat_char(c, k as nat),
        decreases n - k,
    {
        v.push(c);
        assert(repeat_char(c, (k + 1) as nat) =~= repeat_char(c, k as nat).push(c));
        k += 1;
    }
}

/// Runs one scanner step on the executable state; returns the next index.
fn exec_step(windows: bool, s: &Vec<char>, i: usize, st: &mut ExecScan) -> (j: usize)
    requires
        i < s@.len(),
    ensures
        (final(st).view_state(), j as int) == scan_step(windows, s@, i as int, old(st).view_state()),
{
    let ghost old_state = st.view_state();
    proof {
        lemma_backslash_run_bound(s@, i as int);
    }
    let ch = s[i];
    let n = s.len();
    if ch == '\\' && !st.single_quote {
        if windows {
            let mut j = i;
            while j < n && s[j] == '\\'
                invariant
                    i <= j <= n == s@.len(),
                    backslash_run(s@, i as int) == (j - i) + backslash_run(s@, j as int),
                decreases n - j,
            {
                assert(backslash_run(s@, j as int) == 1 + backslash_run(s@, j + 1));
                j += 1;
            }
            let count = j - i;
            assert(backslash_run(s@, i as int) == count);
            if j < n && s[j] == '"' {
                push_repeat(&mut st.current, '\\', count / 2);
                if count % 2 == 0 {
                    st.double_quote = !st.double_quote;
                } else {
                    st.current.push('"');
                }
                st.started = true;
                return j + 1;
            } else {
                push_repeat(&mut st.current, '\\', count);
                st.started = true;
                return j;
            }
        } else if i + 1 < n {
            let next = s[i + 1];
            if !st.double_quote || (next == '$' || next == '`' || next == '"' || next == '\\'
                || next == '\n') {
                if next != '\n' {
                    st.current.push(next);
                }
                st.started = true;
                return i + 2;
            } else {
                st.current.push('\\');
                st.started = true;
                return i + 1;
            }
        } else {
            st.current.push('\\');
            st.started = true;
            return i + 1;
        }
    }
    if windows && ch == '^' && !st.double_quote {
        st.started = true;
        if i + 1 < n {
            st.current.push(s[i + 1]);
            return i + 2;
        } else {
            st.current.push('^');
            return i + 1;
        }
    }
    if !windows && ch == '\'' && !st.double_quote {
        st.single_quote = !st.single_quote;
        st.started = true;
        return i + 1;
    }
    if ch == '"' && !st.single_quote {
        st.double_quote = !st.double_quote;
        st.started = true;
        return i + 1;
    }
    let unquoted = !st.single_quote && !st.double_quote;
    if unquoted && (ch == ';' || ch == '|' || ch == '<' || ch == '>' || ch == '&' || ch == '\n'
        || ch == '\r') {
        st.shell_operator = true;
    }
    if unquoted && is_whitespace(ch) {
        if st.started {
            let mut token: Vec<char> = Vec::new();
            std::mem::swap(&mut st.current, &mut token);
            let ghost before = st.tokens@;
            st.tokens.push(token);
            proof {
                assert(st.tokens@.map_values(|t: Vec<char>| t@) =~= before.map_values(
                    |t: Vec<char>| t@,
                ).push(old_state.current));
            }
            st.started = false;
        }
        return i + 1;
    }
    st.started = true;
    st.current.push(ch);
    i + 1
}

/// Splits a command line into program and arguments. Windows targets use
/// backslash-before-quote and caret escaping; other targets use POSIX single
/// and double quotes with backslash escapes.
pub fn parse_command_line(input: &str, platform: RuntimePlatform) -> (r: Result<
    ParsedCommand,
    CommandParseError,
>)
    ensures
        match parse_command_spec(input@, platform == RuntimePlatform::Windows) {
            Ok((program, args, op)) => r matches Ok(p) && p.program@ == program && string_views(
                p.args@,
            ) == args && p.contains_shell_operator == op,
            Err(e) => r == Err::<ParsedCommand, CommandParseError>(e),
        },
{
    let windows = platform.is_windows();
    let s = chars_of(input);
    let mut st = ExecScan {
        tokens: Vec::new(),
        current: Vec::new(),
        started: false,
        single_quote: false,
        double_quote: false,
        shell_operator: false,
    };
    assert(st.view_state().tokens =~= Seq::<Seq<char>>::empty());
    let mut i: usize = 0;
    while i < s.len()
        invariant
            i <= s@.len(),
            s@ == input@,
            windows == (platform == RuntimePlatform::Windows),
            scan_from(windows, s@, 0, initial_scan_state()) == scan_from(
                windows,
                s@,
                i as int,
                st.view_state(),
            ),
        decreases s@.len() - i,
    {
        proof {
            lemma_scan_unfold(windows, s@, i as int, st.view_state());
            lemma_scan_step_progress(windows, s@, i as int, st.view_state());
        }
        i = exec_step(windows, &s, i, &mut st);
    }
    if st.single_quote || st.double_quote {
        return Err(CommandParseError::UnclosedQuote);
    }
    let ghost final_state = st.view_state();
    let mut tokens = st.tokens;
    if st.started {
        let ghost before = tokens@;
        tokens.push(st.current);
        proof {
            assert(tokens@.map_values(|t: Vec<char>| t@) =~= before.map_values(
                |t: Vec<char>| t@,
            ).push(final_state.current));
        }
    }
    let ghost token_views = tokens@.map_values(|t: Vec<char>| t@);
    if tokens.len() == 0 || tokens[0].len() == 0 {
        return Err(CommandParseError::Empty);
    }
    let program = string_from_chars(tokens[0].as_slice());
    let mut args: Vec<String> = Vec::new();
    let mut k: usize = 1;
    while k < tokens.len()
        invariant
            1 <= k <= tokens@.len(),
            token_views == tokens@.map_values(|t: Vec<char>| t@),
            string_views(args@) == token_views.drop_first().take(k - 1),
        decreases tokens@.len() - k,
    {
        let arg = string_from_chars(tokens[k].as_slice());
        let ghost before = args@;
        args.push(arg);
        proof {
            assert(string_views(args@) =~= string_views(before).push(token_views[k as int]));
            assert(token_views.drop_first().take(k as int) =~= token_views.drop_first().take(
                k - 1,
            ).push(token_views[k as int]));
        }
        k += 1;
    }
    assert(token_views.drop_first().take(k - 1) =~= token_views.drop_first());
    Ok(ParsedCommand { program, args, contains_shell_operator: st.shell_operator })
}

/// The scanner in single quotes: reading the escaped form of `a` adds `a`
/// to the current word and leaves the quote open.
proof fn lemma_scan_posix_escaped(s: Seq<char>, i: int, st: ScanState, a: Seq<char>)
    requires
        0 <= i,
        i + crate::ssh::posix_escape(a).len() < s.len(),
        s.subrange(i, i + crate::ssh::posix_escape(a).len()) == crate::ssh::posix_escape(a),
        st.single_quote,
        !st.double_quote,
        st.started,
    ensures
        scan_from(false, s, i, st) == scan_from(
            false,
            s,
            i + crate::ssh::posix_escape(a).len(),
            ScanState { current: st.current + a, ..st },
        ),
    decreases a.len(),
{
    let e = crate::ssh::posix_escape(a);
    if a.len() == 0 {
        assert(st.current + a =~= st.current);
        assert(ScanState { current: st.current + a, ..st } == st);
    } else {
        let b = a.drop_last();
        let c = a.last();
        let eb = crate::ssh::posix_escape(b);
        let piece: Seq<char> = if c == '\'' {
            "'\\''"@
        } else {
            seq![c]
        };
        assert(e == eb + piece);
        assert(s.subrange(i, i + eb.len()) =~= eb) by {
            assert forall|k: int| 0 <= k < eb.len() implies s.subrange(i, i + eb.len())[k] == eb[k] by {
                assert(s.subrange(i, i + e.len())[k] == e[k]);
            }
        }
        lemma_scan_posix_escaped(s, i, st, b);
        let st1 = ScanState { current: st.current + b, ..st };
        let j = i + eb.len();
        assert forall|k: int| 0 <= k < piece.len() implies s[j + k] == #[trigger] piece[k] by {
            assert(s.subrange(i, i + e.len())[eb.len() + k] == e[eb.len() + k]);
        }
        if c == '\'' {
            reveal_strlit("'\\''");
            assert(piece[0] == '\'' && piece[1] == '\\' && piece[2] == '\'' && piece[3] == '\'');
            assert(s[j] == '\'' && s[j + 1] == '\\' && s[j + 2] == '\'' && s[j + 3] == '\'');
            lemma_scan_unfold(false, s, j, st1);
            let st2 = ScanState { single_quote: false, started: true, ..st1 };
            assert(scan_step(false, s, j, st1) == (st2, j + 1));
            lemma_scan_unfold(false, s, j + 1, st2);
            let st3 = ScanState { current: st2.current.push('\''), started: true, ..st2 };
            assert(scan_step(false, s, j + 1, st2) == (st3, j + 3));
            lemma_scan_unfold(false, s, j + 3, st3);
            let st4 = ScanState { single_quote: true, started: true, ..st3 };
            assert(scan_step(false, s, j + 3, st3) == (st4, j + 4));
            assert((st.current + b).push('\'') =~= st.current + a);
            assert(st4 == ScanState { current: st.current + a, ..st });
        } else {
            assert(piece[0] == c);
            assert(s[j] == c);
            lemma_scan_unfold(false, s, j, st1);
            let st2 = ScanState { current: st1.current.push(c), started: true, shell_operator: st1.shell_operator, ..st1 };
            assert(scan_step(false, s, j, st1) == (st2, j + 1));
            assert((st.current + b).push(c) =~= st.current + a);
            assert(st2 == ScanState { current: st.current + a, ..st });
        }
    }
}

/// A word quoted for a POSIX shell reads back as itself: after a program
/// name it is the one argument, and it raises no shell operator.
pub proof fn lemma_posix_quote_round_trip(a: Seq<char>)
    ensures
        parse_command_spec("tool "@ + crate::ssh::quote_posix_spec(a), false) == Ok::<
            (Seq<char>, Seq<Seq<char>>, bool),
            CommandParseError,
        >(("tool"@, seq![a], false)),
{
    reveal_strlit("tool ");
    reveal_strlit("tool");
    reveal_strlit("''");
    reveal_strlit("'");
    let q = crate::ssh::quote_posix_spec(a);
    let e = crate::ssh::posix_escape(a);
    let s = "tool "@ + q;
    let st0 = initial_scan_state();
    assert(s[0] == 't' && s[1] == 'o' && s[2] == 'o' && s[3] == 'l' && s[4] == ' ');
    lemma_scan_unfold(false, s, 0, st0);
    let st1 = ScanState { current: seq!['t'], started: true, ..st0 };
    assert(scan_step(false, s, 0, st0) == (st1, 1int));
    lemma_scan_unfold(false, s, 1, st1);
    let st2 = ScanState { current: seq!['t', 'o'], ..st1 };
    assert(st1.current.push('o') =~= seq!['t', 'o']);
    assert(scan_step(false, s, 1, st1) == (st2, 2int));
    lemma_scan_unfold(false, s, 2, st2);
    let st3 = ScanState { current: seq!['t', 'o', 'o'], ..st1 };
    assert(st2.current.push('o') =~= seq!['t', 'o', 'o']);
    assert(scan_step(false, s, 2, st2) == (st3, 3int));
    lemma_scan_unfold(false, s, 3, st3);
    let st4 = ScanState { current: "tool"@, ..st1 };
    assert(st3.current.push('l') =~= "tool"@);
    assert(scan_step(false, s, 3, st3) == (st4, 4int));
    lemma_scan_unfold(false, s, 4, st4);
    let st5 = ScanState { tokens: seq!["tool"@], current: Seq::empty(), started: false, ..st0 };
    assert(st4.tokens.push(st4.current) =~= seq!["tool"@]);
    assert(scan_step(false, s, 4, st4) == (st5, 5int));
    let st6 = ScanState { single_quote: true, started: true, ..st5 };
    if a.len() == 0 {
        assert(e =~= Seq::<char>::empty());
        assert(q =~= "''"@);
        assert(s.len() == 7);
        assert(s[5] == '\'' && s[6] == '\'');
        lemma_scan_unfold(false, s, 5, st5);
        assert(scan_step(false, s, 5, st5) == (st6, 6int));
        lemma_scan_unfold(false, s, 6, st6);
        let st7 = ScanState { single_quote: false, ..st6 };
        assert(scan_step(false, s, 6, st6) == (st7, 7int));
        assert(scan_from(false, s, 7, st7) == st7);
        assert(scan_from(false, s, 0, st0) == st7);
        assert(st7.current =~= a);
        let tokens = st7.tokens.push(st7.current);
        assert(tokens =~= seq!["tool"@, a]);
        assert(tokens.drop_first() =~= seq![a]);
        assert(tokens[0] == "tool"@);
    } else {
        assert(q =~= "'"@ + e + "'"@);
        assert(s.len() == 5 + e.len() + 2);
        assert(s[5] == '\'');
        assert(s[5 + e.len() as int + 1] == '\'');
        lemma_scan_unfold(false, s, 5, st5);
        assert(scan_step(false, s, 5, st5) == (st6, 6int));
        assert(s.subrange(6, 6 + e.len() as int) =~= e);
        lemma_scan_posix_escaped(s, 6, st6, a);
        let st7 = ScanState { current: st6.current + a, ..st6 };
        let k: int = 6 + e.len() as int;
        lemma_scan_unfold(false, s, k, st7);
        let st8 = ScanState { single_quote: false, started: true, ..st7 };
        assert(scan_step(false, s, k, st7) == (st8, k + 1));
        assert(scan_from(false, s, k + 1, st8) == st8);
        assert(st6.current + a =~= a);
        assert(scan_from(false, s, 6, st6) == st8);
        assert(scan_from(false, s, 0, st0) == st8);
        let tokens = st8.tokens.push(st8.current);
        assert(tokens =~= seq!["tool"@, a]);
        assert(tokens.drop_first() =~= seq![a]);
        assert(tokens[0] == "tool"@);
    }
}

proof fn lemma_backslash_run_exact(s: Seq<char>, j: int, p: int)
    requires
        0 <= j,
        0 <= p,
        j + p <= s.len(),
        forall|k: int| j <= k < j + p ==> s[k] == '\\',
        j + p == s.len() || s[j + p] != '\\',
    ensures
        backslash_run(s, j) == p,
    decreases p,
{
    if p > 0 {
        lemma_backslash_run_exact(s, j + 1, p - 1);
    }
}

proof fn lemma_quote_run_pending(t: Seq<char>)
    ensures
        quote_run(t).1 <= t.len(),
        forall|k: int| t.len() - quote_run(t).1 <= k < t.len() ==> t[k] == '\\',
        t.subrange(0, t.len() - quote_run(t).1) + crate::spawn::backslashes(quote_run(t).1) == t,
    decreases t.len(),
{
    let p = quote_run(t).1;
    if t.len() > 0 {
        let t1 = t.drop_last();
        lemma_quote_run_pending(t1);
        let p1 = quote_run(t1).1;
        if t.last() == '\\' {
            assert(p == p1 + 1);
            assert forall|k: int| t.len() - p <= k < t.len() implies t[k] == '\\' by {
                if k < t.len() - 1 {
                    assert(t[k] == t1[k]);
                }
            }
        } else {
            assert(p == 0);
        }
    }
    assert forall|k: int| 0 <= k < t.len() implies (t.subrange(0, t.len() - p) + crate::spawn::backslashes(p))[k]
        == t[k] by {
        if k >= t.len() - p {
            assert(t[k] == '\\');
        }
    }
    assert(t.subrange(0, t.len() - p) + crate::spawn::backslashes(p) =~= t);
}

/// The Windows scanner in double quotes: reading the quoted form of `t`
/// (before its closing backslashes) adds `t` without its trailing
/// backslashes to the current word.
proof fn lemma_scan_windows_quoted(s: Seq<char>, i: int, st: ScanState, t: Seq<char>)
    requires
        0 <= i,
        i + quote_run(t).0.len() < s.len(),
        s.subrange(i, i + quote_run(t).0.len()) == quote_run(t).0,
        st.double_quote,
        !st.single_quote,
        st.started,
    ensures
        scan_from(true, s, i, st) == scan_from(
            true,
            s,
            i + quote_run(t).0.len(),
            ScanState { current: st.current + t.subrange(0, t.len() - quote_run(t).1), ..st },
        ),
    decreases t.len(),
{
    lemma_quote_run_pending(t);
    if t.len() == 0 {
        assert(st.current + t.subrange(0, 0) =~= st.current);
        assert(ScanState { current: st.current + t.subrange(0, 0), ..st } == st);
    } else {
        let t1 = t.drop_last();
        let c = t.last();
        let (o1, p1) = quote_run(t1);
        let (o, p) = quote_run(t);
        lemma_quote_run_pending(t1);
        assert(s.subrange(i, i + o1.len()) =~= o1) by {
            assert forall|k: int| 0 <= k < o1.len() implies s.subrange(i, i + o1.len())[k] == o1[k] by {
                assert(o[k] == o1[k]);
                assert(s.subrange(i, i + o.len())[k] == o[k]);
            }
        }
        lemma_scan_windows_quoted(s, i, st, t1);
        let st1 = ScanState { current: st.current + t1.subrange(0, t1.len() - p1), ..st };
        let j = i + o1.len();
        let piece = o.subrange(o1.len() as int, o.len() as int);
        assert forall|k: int| 0 <= k < piece.len() implies s[j + k] == #[trigger] piece[k] by {
            assert(s.subrange(i, i + o.len())[o1.len() + k] == o[o1.len() + k]);
        }
        if c == '\\' {
            assert(t.subrange(0, t.len() - p) =~= t1.subrange(0, t1.len() - p1));
        } else if c == '"' {
            let n: int = 2 * p1 as int + 1;
            assert(piece =~= crate::spawn::backslashes((2 * p1 + 1) as nat) + seq!['"']);
            assert forall|k: int| j <= k < j + n implies s[k] == '\\' by {
                assert(piece[k - j] == '\\');
            }
            assert(piece[n] == '"');
            assert(s[j + n] == '"');
            lemma_backslash_run_exact(s, j, n);
            assert(s[j] == '\\') by {
                assert(piece[0] == '\\');
            }
            lemma_scan_unfold(true, s, j, st1);
            assert(n / 2 == p1 && n % 2 == 1);
            let st2 = ScanState { current: (st1.current + repeat_char('\\', p1)).push('"'), started: true, ..st1 };
            assert(scan_step(true, s, j, st1) == (st2, j + n + 1));
            assert(p == 0);
            assert(t1.subrange(0, t1.len() - p1) + crate::spawn::backslashes(p1) =~= t1);
            assert((st1.current + repeat_char('\\', p1)).push('"') =~= st.current + t.subrange(0, t.len() - p));
            assert(st2 == ScanState { current: st.current + t.subrange(0, t.len() - p), ..st });
            assert(j + n + 1 == i + o.len());
        } else {
            assert(piece =~= crate::spawn::backslashes(p1) + seq![c]);
            assert(piece[p1 as int] == c);
            assert(s[j + p1] == c);
            assert(p == 0);
            assert(t1.subrange(0, t1.len() - p1) + crate::spawn::backslashes(p1) =~= t1);
            if p1 > 0 {
                assert forall|k: int| j <= k < j + p1 implies s[k] == '\\' by {
                    assert(piece[k - j] == '\\');
                }
                lemma_backslash_run_exact(s, j, p1 as int);
                assert(s[j] == '\\') by {
                    assert(piece[0] == '\\');
                }
                lemma_scan_unfold(true, s, j, st1);
                let st2 = ScanState { current: st1.current + repeat_char('\\', p1), started: true, ..st1 };
                assert(scan_step(true, s, j, st1) == (st2, j + p1));
                lemma_scan_unfold(true, s, j + p1, st2);
                let st3 = ScanState { current: st2.current.push(c), started: true, shell_operator: st2.shell_operator, ..st2 };
                assert(scan_step(true, s, j + p1, st2) == (st3, j + p1 + 1));
                assert(st2.current.push(c) =~= st.current + t.subrange(0, t.len() - p));
                assert(st3 == ScanState { current: st.current + t.subrange(0, t.len() - p), ..st });
            } else {
                lemma_scan_unfold(true, s, j, st1);
                let st3 = ScanState { current: st1.current.push(c), started: true, shell_operator: st1.shell_operator, ..st1 };
                assert(scan_step(true, s, j, st1) == (st3, j + 1));
                assert(st1.current.push(c) =~= st.current + t.subrange(0, t.len() - p));
                assert(st3 == ScanState { current: st.current + t.subrange(0, t.len() - p), ..st });
            }
        }
    }
}

/// An argument quoted for the Windows argument splitter reads back as
/// itself: after a program name it is the one argument, and it raises no
/// shell operator.
pub proof fn lemma_windows_quote_round_trip(a: Seq<char>)
    ensures
        parse_command_spec("tool "@ + crate::spawn::quote_windows_spec(a), true) == Ok::<
            (Seq<char>, Seq<Seq<char>>, bool),
            CommandParseError,
        >(("tool"@, seq![a], false)),
{
    reveal_strlit("tool ");
    reveal_strlit("tool");
    let (o, p) = quote_run(a);
    lemma_quote_run_pending(a);
    let q = crate::spawn::quote_windows_spec(a);
    let s = "tool "@ + q;
    let st0 = initial_scan_state();
    assert(s[0] == 't' && s[1] == 'o' && s[2] == 'o' && s[3] == 'l' && s[4] == ' ');
    lemma_scan_unfold(true, s, 0, st0);
    let st1 = ScanState { current: seq!['t'], started: true, ..st0 };
    assert(scan_step(true, s, 0, st0) == (st1, 1int));
    lemma_scan_unfold(true, s, 1, st1);
    let st2 = ScanState { current: seq!['t', 'o'], ..st1 };
    assert(st1.current.push('o') =~= seq!['t', 'o']);
    assert(scan_step(true, s, 1, st1) == (st2, 2int));
    lemma_scan_unfold(true, s, 2, st2);
    let st3 = ScanState { current: seq!['t', 'o', 'o'], ..st1 };
    assert(st2.current.push('o') =~= seq!['t', 'o', 'o']);
    assert(scan_step(true, s, 2, st2) == (st3, 3int));
    lemma_scan_unfold(true, s, 3, st3);
    let st4 = ScanState { current: "tool"@, ..st1 };
    assert(st3.current.push('l') =~= "tool"@);
    assert(scan_step(true, s, 3, st3) == (st4, 4int));
    lemma_scan_unfold(true, s, 4, st4);
    let st5 = ScanState { tokens: seq!["tool"@], current: Seq::empty(), started: false, ..st0 };
    assert(st4.tokens.push(st4.current) =~= seq!["tool"@]);
    assert(scan_step(true, s, 4, st4) == (st5, 5int));
    assert(s[5] == '"');
    lemma_scan_unfold(true, s, 5, st5);
    let st6 = ScanState { double_quote: true, started: true, ..st5 };
    assert(scan_step(true, s, 5, st5) == (st6, 6int));
    let k: int = 6 + o.len() as int;
    assert(s.len() == k + 2 * p + 1);
    assert(s.subrange(6, k) =~= o);
    lemma_scan_windows_quoted(s, 6, st6, a);
    let st7 = ScanState { current: st6.current + a.subrange(0, a.len() - p), ..st6 };
    assert(s[k + 2 * p] == '"');
    let st8 = ScanState { current: st7.current + repeat_char('\\', p), double_quote: false, started: true, ..st7 };
    if p > 0 {
        assert forall|m: int| k <= m < k + 2 * p implies s[m] == '\\' by {
            assert(q[m - 5] == '\\');
        }
        lemma_backslash_run_exact(s, k, 2 * p as int);
        assert(s[k] == '\\');
        lemma_scan_unfold(true, s, k, st7);
        assert((2 * p) / 2 == p && (2 * p) % 2 == 0);
        assert(scan_step(true, s, k, st7) == (st8, k + 2 * p + 1));
    } else {
        lemma_scan_unfold(true, s, k, st7);
        assert(st7.current + repeat_char('\\', 0) =~= st7.current);
        assert(scan_step(true, s, k, st7) == (st8, k + 1));
    }
    assert(scan_from(true, s, k + 2 * p + 1, st8) == st8);
    assert(scan_from(true, s, 0, st0) == st8);
    assert(st8.current =~= a);
    let tokens = st8.tokens.push(st8.current);
    assert(tokens =~= seq!["tool"@, a]);
    assert(tokens.drop_first() =~= seq![a]);
    assert(tokens[0] == "tool"@);
}

} // verus!
