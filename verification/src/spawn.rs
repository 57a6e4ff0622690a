//! How a local command is started: directly on POSIX hosts; on Windows
//! directly for `.exe`/`.com`, through PowerShell for `.ps1`, and otherwise
//! through `cmd.exe` with its arguments quoted and escaped.
//!
//! Looking executables up on disk is the program's job; it reports what it
//! found and the plan is built here.

use vstd::prelude::*;
use crate::platform::RuntimePlatform;
use crate::ssh::env_view;
use crate::text::{
    contains_char, ascii_lower_seq, chars_equal, chars_of, join_spec, join_strings, lower_ascii_chars, push_char,
    push_chars, push_str, slice_range, string_from_chars, string_from_str, trim_seq, trimmed_chars,
    views_of, first_index,
};

verus! {

/// The platform the server runs on and its environment variables.
#[derive(Debug, Clone)]
pub struct RuntimeEnvironment {
    platform: RuntimePlatform,
    system_environment: Vec<(String, String)>,
}

/// ASCII case-insensitive equality of names.
pub open spec fn same_name_ignoring_case(a: Seq<char>, b: Seq<char>) -> bool {
    ascii_lower_seq(a) == ascii_lower_seq(b)
}

/// The value of the first variable named `name` (ignoring ASCII case when
/// `ignore_case`), among the first `n` entries.
pub open spec fn lookup_var(
    vars: Seq<(Seq<char>, Seq<char>)>,
    name: Seq<char>,
    ignore_case: bool,
    n: int,
) -> Option<Seq<char>>
    decreases n,
{
    if n <= 0 || n > vars.len() {
        None
    } else {
        match lookup_var(vars, name, ignore_case, n - 1) {
            Some(v) => Some(v),
            None => if (ignore_case && same_name_ignoring_case(vars[n - 1].0, name)) || (!ignore_case
                && vars[n - 1].0 == name) {
                Some(vars[n - 1].1)
            } else {
                None
            },
        }
    }
}

/// The value of the first variable named `name`.
fn find_var(vars: &Vec<(String, String)>, name: &str, ignore_case: bool) -> (r: Option<String>)
    ensures
        match r {
            Some(v) => lookup_var(env_view(vars@), name@, ignore_case, vars@.len() as int) == Some(v@),
            None => lookup_var(env_view(vars@), name@, ignore_case, vars@.len() as int) is None,
        },
{
    let ghost vs = env_view(vars@);
    let wanted = chars_of(name);
    let wanted_lower = lower_ascii_chars(wanted.as_slice());
    let mut i: usize = 0;
    while i < vars.len()
        invariant
            i <= vars@.len(),
            vs == env_view(vars@),
            wanted@ == name@,
            wanted_lower@ == ascii_lower_seq(name@),
            lookup_var(vs, name@, ignore_case, i as int) is None,
        decreases vars@.len() - i,
    {
        let key = chars_of(vars[i].0.as_str());
        let matched = if ignore_case {
            let key_lower = lower_ascii_chars(key.as_slice());
            chars_equal(key_lower.as_slice(), wanted_lower.as_slice())
        } else {
            chars_equal(key.as_slice(), wanted.as_slice())
        };
        proof {
            assert(vs[i as int] == (vars@[i as int].0@, vars@[i as int].1@));
        }
        if matched {
            proof {
                lemma_lookup_stays(vs, name@, ignore_case, i + 1, vars@.len() as int);
            }
            return Some(vars[i].1.clone());
        }
        i += 1;
    }
    None
}

/// A variable found among the first `n` entries is the one found among more.
proof fn lemma_lookup_stays(
    vars: Seq<(Seq<char>, Seq<char>)>,
    name: Seq<char>,
    ignore_case: bool,
    n: int,
    m: int,
)
    requires
        0 < n <= m <= vars.len(),
        lookup_var(vars, name, ignore_case, n) is Some,
    ensures
        lookup_var(vars, name, ignore_case, m) == lookup_var(vars, name, ignore_case, n),
    decreases m - n,
{
    if n < m {
        lemma_lookup_stays(vars, name, ignore_case, n, m - 1);
    }
}

impl RuntimeEnvironment {
    /// The platform by view.
    pub closed spec fn platform_of(&self) -> RuntimePlatform {
        self.platform
    }

    /// The variables by view.
    pub closed spec fn vars(&self) -> Seq<(Seq<char>, Seq<char>)> {
        env_view(self.system_environment@)
    }

    /// An environment of the given platform with the given variables.
    pub fn new(platform: RuntimePlatform, system_environment: Vec<(String, String)>) -> (e: Self)
        ensures
            e.platform_of() == platform,
            e.vars() == env_view(system_environment@),
    {
        RuntimeEnvironment { platform, system_environment }
    }

    /// The platform.
    pub fn platform(&self) -> (p: RuntimePlatform)
        ensures
            p == self.platform_of(),
    {
        self.platform
    }

    /// A variable of the server's environment; on Windows names are matched
    /// ignoring ASCII case.
    pub fn resolve_system_var(&self, name: &str) -> (r: Option<String>)
        ensures
            match r {
                Some(v) => lookup_var(
                    self.vars(),
                    name@,
                    self.platform_of() == RuntimePlatform::Windows,
                    self.vars().len() as int,
                ) == Some(v@),
                None => lookup_var(
                    self.vars(),
                    name@,
                    self.platform_of() == RuntimePlatform::Windows,
                    self.vars().len() as int,
                ) is None,
            },
    {
        find_var(&self.system_environment, name, self.platform.is_windows())
    }
}

/// A variable as a command sees it: from the command's own environment
/// first, else from the server's.
pub open spec fn resolved_var_spec(
    command_env: Seq<(Seq<char>, Seq<char>)>,
    runtime: RuntimeEnvironment,
    name: Seq<char>,
) -> Option<Seq<char>> {
    let ic = runtime.platform_of() == RuntimePlatform::Windows;
    match lookup_var(command_env, name, ic, command_env.len() as int) {
        Some(v) => Some(v),
        None => lookup_var(runtime.vars(), name, ic, runtime.vars().len() as int),
    }
}

/// A variable as a command sees it.
pub fn resolved_env_var(
    environment: &Vec<(String, String)>,
    runtime: &RuntimeEnvironment,
    name: &str,
) -> (r: Option<String>)
    ensures
        match r {
            Some(v) => resolved_var_spec(env_view(environment@), *runtime, name@) == Some(v@),
            None => resolved_var_spec(env_view(environment@), *runtime, name@) is None,
        },
{
    match find_var(environment, name, runtime.platform().is_windows()) {
        Some(v) => Some(v),
        None => runtime.resolve_system_var(name),
    }
}

// ---------------------------------------------------------------------------
// Quoting for Windows command lines
// ---------------------------------------------------------------------------

/// `n` backslashes.
pub open spec fn backslashes(n: nat) -> Seq<char> {
    Seq::new(n, |i: int| '\\')
}

/// The quoted text so far and the backslashes still pending.
pub open spec fn quote_run(s: Seq<char>) -> (Seq<char>, nat)
    decreases s.len(),
{
    if s.len() == 0 {
        (Seq::empty(), 0)
    } else {
        let (out, pending) = quote_run(s.drop_last());
        let c = s.last();
        if c == '\\' {
            (out, pending + 1)
        } else if c == '"' {
            (out + backslashes(2 * pending + 1) + seq!['"'], 0)
        } else {
            (out + backslashes(pending) + seq![c], 0)
        }
    }
}

/// An argument quoted so that the Windows argument splitter reads it back:
/// backslashes before a quote or the closing quote are doubled, quotes are
/// escaped.
pub open spec fn quote_windows_spec(s: Seq<char>) -> Seq<char> {
    let (out, pending) = quote_run(s);
    seq!['"'] + out + backslashes(2 * pending) + seq!['"']
}

/// Appends `n` backslashes.
fn push_backslashes(out: &mut String, n: usize)
    ensures
        final(out)@ == old(out)@ + backslashes(n as nat),
{
    let mut i: usize = 0;
    while i < n
        invariant
            i <= n,
            out@ == old(out)@ + backslashes(i as nat),
        decreases n - i,
    {
        push_char(out, '\\');
        assert(backslashes(i as nat).push('\\') =~= backslashes((i + 1) as nat));
        i += 1;
    }
}

/// Quotes an argument for the Windows argument splitter.
pub fn quote_windows_argument(argument: &str) -> (q: String)
    requires
        argument@.len() < usize::MAX / 2,
    ensures
        q@ == quote_windows_spec(argument@),
{
    let c = chars_of(argument);
    let mut out = String::new();
    let mut pending: usize = 0;
    let mut i: usize = 0;
    while i < c.len()
        invariant
            i <= c@.len(),
            c@ == argument@,
            c@.len() < usize::MAX / 2,
            pending <= i,
            (out@, pending as nat) == quote_run(c@.take(i as int)),
        decreases c@.len() - i,
    {
        let ch = c[i];
        if ch == '\\' {
            pending += 1;
        } else if ch == '"' {
            push_backslashes(&mut out, pending * 2 + 1);
            push_char(&mut out, '"');
            pending = 0;
        } else {
            push_backslashes(&mut out, pending);
            push_char(&mut out, ch);
            pending = 0;
        }
        proof {
            let t = c@.take(i + 1);
            assert(t.drop_last() =~= c@.take(i as int));
            assert(t.last() == ch);
        }
        i += 1;
    }
    assert(c@.take(i as int) =~= c@);
    let mut q = string_from_str("\"");
    push_str(&mut q, out.as_str());
    push_backslashes(&mut q, pending * 2);
    push_char(&mut q, '"');
    proof {
        reveal_strlit("\"");
        assert(q@ =~= quote_windows_spec(argument@));
    }
    q
}

/// A character `cmd.exe` treats specially.
pub open spec fn is_cmd_meta(c: char) -> bool {
    c == '(' || c == ')' || c == '[' || c == ']' || c == '%' || c == '!' || c == '^' || c == '"'
        || c == '`' || c == '<' || c == '>' || c == '&' || c == '|' || c == ';' || c == ','
        || c == ' ' || c == '*' || c == '?'
}

/// A character `cmd.exe` treats specially.
pub fn is_cmd_meta_character(c: char) -> (b: bool)
    ensures
        b == is_cmd_meta(c),
{
    c == '(' || c == ')' || c == '[' || c == ']' || c == '%' || c == '!' || c == '^' || c == '"'
        || c == '`' || c == '<' || c == '>' || c == '&' || c == '|' || c == ';' || c == ','
        || c == ' ' || c == '*' || c == '?'
}

/// Each special character preceded by `^` (or `^^` when escaping twice).
pub open spec fn escape_meta_spec(s: Seq<char>, double: bool) -> Seq<char>
    decreases s.len(),
{
    if s.len() == 0 {
        Seq::empty()
    } else {
        let c = s.last();
        escape_meta_spec(s.drop_last(), double) + if is_cmd_meta(c) {
            if double {
                seq!['^', '^', c]
            } else {
                seq!['^', c]
            }
        } else {
            seq![c]
        }
    }
}

/// Escapes the characters `cmd.exe` treats specially.
pub fn escape_cmd_meta(value: &str, double_escape: bool) -> (e: String)
    ensures
        e@ == escape_meta_spec(value@, double_escape),
{
    let c = chars_of(value);
    let mut e = String::new();
    let mut i: usize = 0;
    while i < c.len()
        invariant
            i <= c@.len(),
            e@ == escape_meta_spec(c@.take(i as int), double_escape),
        decreases c@.len() - i,
    {
        let ch = c[i];
        if is_cmd_meta_character(ch) {
            push_char(&mut e, '^');
            if double_escape {
                push_char(&mut e, '^');
            }
        }
        push_char(&mut e, ch);
        proof {
            let t = c@.take(i + 1);
            assert(t.drop_last() =~= c@.take(i as int));
            assert(t.last() == ch);
            assert(e@ =~= escape_meta_spec(t, double_escape));
        }
        i += 1;
    }
    assert(c@.take(i as int) =~= c@);
    e
}

/// Escapes a command name for `cmd.exe`.
pub fn escape_cmd_command(command: &str) -> (e: String)
    ensures
        e@ == escape_meta_spec(command@, false),
{
    escape_cmd_meta(command, false)
}

/// Quotes and escapes an argument for `cmd.exe`.
pub fn escape_cmd_argument(argument: &str, double_escape_meta_chars: bool) -> (e: String)
    requires
        argument@.len() < usize::MAX / 2,
    ensures
        e@ == escape_meta_spec(quote_windows_spec(argument@), double_escape_meta_chars),
{
    let quoted = quote_windows_argument(argument);
    escape_cmd_meta(quoted.as_str(), double_escape_meta_chars)
}

/// Whether a path starts with a drive letter, a colon and a separator.
pub open spec fn windows_absolute_spec(p: Seq<char>) -> bool {
    p.len() >= 3 && (('a' <= p[0] && p[0] <= 'z') || ('A' <= p[0] && p[0] <= 'Z')) && p[1] == ':'
        && (p[2] == '\\' || p[2] == '/')
}

/// Whether a path starts with a drive letter, a colon and a separator.
pub fn looks_like_windows_absolute_path(path: &str) -> (b: bool)
    ensures
        b == windows_absolute_spec(path@),
{
    let p = chars_of(path);
    p.len() >= 3 && (('a' <= p[0] && p[0] <= 'z') || ('A' <= p[0] && p[0] <= 'Z')) && p[1] == ':'
        && (p[2] == '\\' || p[2] == '/')
}

/// Where the file behind an executable name is looked for on Windows.
#[derive(Debug, Clone, Copy, PartialEq, Eq, Structural)]
pub enum ExecutableLookup {
    /// The name is a path: taken as is when `absolute`, else under the
    /// working directory; then completed with `PATHEXT`.
    Path { absolute: bool },
    /// A bare name with an extension, run as given.
    AsGiven,
    /// A bare name without extension, looked up on `PATH`.
    SearchPath,
}

/// Where the file behind `executable` is looked for: `is_absolute` and
/// `has_extension` are what the platform's path rules say of it. A name with
/// a separator, or an absolute one, is a path; a bare name with an extension
/// runs as given; any other is searched on `PATH`.
pub fn executable_lookup(executable: &str, is_absolute: bool, has_extension: bool) -> (l:
    ExecutableLookup)
    ensures
        l == if is_absolute || executable@.contains('/') || executable@.contains('\\') {
            ExecutableLookup::Path {
                absolute: is_absolute || windows_absolute_spec(executable@),
            }
        } else if has_extension {
            ExecutableLookup::AsGiven
        } else {
            ExecutableLookup::SearchPath
        },
{
    let chars = chars_of(executable);
    if is_absolute || contains_char(chars.as_slice(), '/') || contains_char(chars.as_slice(), '\\') {
        ExecutableLookup::Path {
            absolute: is_absolute || looks_like_windows_absolute_path(executable),
        }
    } else if has_extension {
        ExecutableLookup::AsGiven
    } else {
        ExecutableLookup::SearchPath
    }
}

/// How a resolved Windows program is started.
#[derive(Debug, Clone, Copy, PartialEq, Eq, Structural)]
pub enum WindowsTargetKind {
    DirectExecutable,
    CmdShell,
    PowerShellScript,
    ShellAssociated,
}

/// The kind of a program by the extension of its path (none without one).
pub open spec fn target_kind_spec(extension: Option<Seq<char>>) -> Option<WindowsTargetKind> {
    match extension {
        None => None,
        Some(e) => {
            let l = ascii_lower_seq(e);
            if l == "com"@ || l == "exe"@ {
                Some(WindowsTargetKind::DirectExecutable)
            } else if l == "cmd"@ || l == "bat"@ {
                Some(WindowsTargetKind::CmdShell)
            } else if l == "ps1"@ {
                Some(WindowsTargetKind::PowerShellScript)
            } else {
                Some(WindowsTargetKind::ShellAssociated)
            }
        },
    }
}

/// The kind of a program by the extension of its path.
pub fn classify_windows_target_kind(extension: Option<&str>) -> (k: Option<WindowsTargetKind>)
    ensures
        k == target_kind_spec(
            match extension {
                Some(e) => Some(e@),
                None => None,
            },
        ),
{
    let e = match extension {
        None => {
            return None;
        },
        Some(e) => e,
    };
    let l = lower_ascii_chars(chars_of(e).as_slice());
    if chars_equal(l.as_slice(), chars_of("com").as_slice()) || chars_equal(
        l.as_slice(),
        chars_of("exe").as_slice(),
    ) {
        Some(WindowsTargetKind::DirectExecutable)
    } else if chars_equal(l.as_slice(), chars_of("cmd").as_slice()) || chars_equal(
        l.as_slice(),
        chars_of("bat").as_slice(),
    ) {
        Some(WindowsTargetKind::CmdShell)
    } else if chars_equal(l.as_slice(), chars_of("ps1").as_slice()) {
        Some(WindowsTargetKind::PowerShellScript)
    } else {
        Some(WindowsTargetKind::ShellAssociated)
    }
}

// ---------------------------------------------------------------------------
// Executable extensions
// ---------------------------------------------------------------------------

/// The extensions tried when none is given, when `PATHEXT` is unset or empty.
pub const DEFAULT_PATH_EXTENSIONS: &'static str = ".COM;.EXE;.BAT;.CMD;.PS1";

/// The `;`-separated parts of a text.
pub open spec fn split_semicolons(s: Seq<char>) -> Seq<Seq<char>>
    decreases s.len(),
{
    match first_index(s, ';', 0) {
        None => seq![s],
        Some(i) => {
            proof {
                crate::text::lemma_first_index(s, ';', 0);
            }
            seq![s.subrange(0, i)] + split_semicolons(s.subrange(i + 1, s.len() as int))
        },
    }
}

/// The extensions a `PATHEXT` value lists, trimmed, empty ones dropped, each
/// with a leading dot.
pub open spec fn extensions_of(parts: Seq<Seq<char>>) -> Seq<Seq<char>>
    decreases parts.len(),
{
    if parts.len() == 0 {
        Seq::empty()
    } else {
        let t = trim_seq(parts.last());
        extensions_of(parts.drop_last()) + if t.len() == 0 {
            Seq::empty()
        } else if t[0] == '.' {
            seq![t]
        } else {
            seq![seq!['.'] + t]
        }
    }
}

/// The extensions tried for a program named without one.
pub open spec fn path_extensions_spec(pathext: Option<Seq<char>>) -> Seq<Seq<char>> {
    let raw = match pathext {
        Some(v) => if v.len() > 0 {
            v
        } else {
            DEFAULT_PATH_EXTENSIONS@
        },
        None => DEFAULT_PATH_EXTENSIONS@,
    };
    extensions_of(split_semicolons(raw))
}

/// The extensions a `PATHEXT` value lists.
pub fn parse_path_extensions(pathext: Option<&str>) -> (exts: Vec<String>)
    ensures
        views_of(exts@) == path_extensions_spec(
            match pathext {
                Some(v) => Some(v@),
                None => None,
            },
        ),
{
    let raw: Vec<char> = match pathext {
        Some(v) => {
            let c = chars_of(v);
            if c.len() > 0 {
                c
            } else {
                chars_of(DEFAULT_PATH_EXTENSIONS)
            }
        },
        None => chars_of(DEFAULT_PATH_EXTENSIONS),
    };
    let parts = split_on_semicolons(raw.as_slice());
    let mut exts: Vec<String> = Vec::new();
    let mut i: usize = 0;
    while i < parts.len()
        invariant
            i <= parts@.len(),
            views_of(exts@) == extensions_of(views_of(parts@).take(i as int)),
        decreases parts@.len() - i,
    {
        let t = trimmed_chars(parts[i].as_str());
        let ghost before = views_of(exts@);
        if t.len() > 0 {
            if t[0] == '.' {
                let e = string_from_chars(t.as_slice());
                exts.push(e);
                proof {
                    assert(views_of(exts@) =~= before.push(t@));
                }
            } else {
                let mut e = string_from_str(".");
                push_chars(&mut e, t.as_slice());
                proof {
                    reveal_strlit(".");
                    assert(e@ =~= seq!['.'] + t@);
                }
                exts.push(e);
                proof {
                    assert(views_of(exts@) =~= before.push(seq!['.'] + t@));
                }
            }
        }
        proof {
            let pv = views_of(parts@).take(i + 1);
            assert(pv.drop_last() =~= views_of(parts@).take(i as int));
            assert(pv.last() == parts@[i as int]@);
            assert(views_of(exts@) =~= extensions_of(pv));
        }
        i += 1;
    }
    assert(views_of(parts@).take(i as int) =~= views_of(parts@));
    exts
}

/// The `;`-separated parts of a text, as strings.
fn split_on_semicolons(s: &[char]) -> (parts: Vec<String>)
    ensures
        views_of(parts@) == split_semicolons(s@),
{
    let n = s.len();
    let mut parts: Vec<String> = Vec::new();
    let mut start: usize = 0;
    assert(s@.subrange(0, n as int) =~= s@);
    loop
        invariant
            start <= n == s@.len(),
            split_semicolons(s@) == views_of(parts@) + split_semicolons(s@.subrange(start as int, n as int)),
        decreases n - start,
    {
        let ghost rest = s@.subrange(start as int, n as int);
        let mut j: usize = start;
        while j < n && s[j] != ';'
            invariant
                start <= j <= n == s@.len(),
                forall|k: int| start <= k < j ==> s@[k] != ';',
            decreases n - j,
        {
            j += 1;
        }
        let ghost before = views_of(parts@);
        parts.push(string_from_chars(slice_range(s, start, j).as_slice()));
        proof {
            assert(views_of(parts@) =~= before.push(s@.subrange(start as int, j as int)));
            assert(rest.subrange(0, j - start) =~= s@.subrange(start as int, j as int));
        }
        if j == n {
            proof {
                assert forall|k: int| 0 <= k < rest.len() implies rest[k] != ';' by {
                    assert(rest[k] == s@[start + k]);
                }
                lemma_no_semicolon(rest, 0);
                assert(rest =~= s@.subrange(start as int, j as int));
                assert(before + split_semicolons(rest) =~= views_of(parts@));
            }
            return parts;
        }
        proof {
            assert(rest[j - start] == ';');
            lemma_semicolon_at(rest, 0, (j - start) as int);
            assert(rest.subrange(j - start + 1, rest.len() as int) =~= s@.subrange(j + 1, n as int));
            assert(before + split_semicolons(rest) =~= views_of(parts@) + split_semicolons(
                s@.subrange(j + 1, n as int),
            ));
        }
        start = j + 1;
    }
}

proof fn lemma_no_semicolon(s: Seq<char>, from: int)
    requires
        0 <= from,
        forall|k: int| from <= k < s.len() ==> s[k] != ';',
    ensures
        first_index(s, ';', from) is None,
    decreases s.len() - from,
{
    if from < s.len() {
        lemma_no_semicolon(s, from + 1);
    }
}

proof fn lemma_semicolon_at(s: Seq<char>, from: int, j: int)
    requires
        0 <= from <= j < s.len(),
        s[j] == ';',
        forall|k: int| from <= k < j ==> s[k] != ';',
    ensures
        first_index(s, ';', from) == Some(j),
    decreases j - from,
{
    if from < j {
        lemma_semicolon_at(s, from + 1, j);
    }
}

/// The extensions tried for a program named without one, from `PATHEXT` as
/// the command sees it.
pub fn windows_path_extensions(environment: &Vec<(String, String)>, runtime: &RuntimeEnvironment) -> (exts:
    Vec<String>)
    ensures
        views_of(exts@) == path_extensions_spec(
            resolved_var_spec(env_view(environment@), *runtime, "PATHEXT"@),
        ),
{
    let v = resolved_env_var(environment, runtime, "PATHEXT");
    match v {
        Some(s) => parse_path_extensions(Some(s.as_str())),
        None => parse_path_extensions(None),
    }
}

// ---------------------------------------------------------------------------
// Plans
// ---------------------------------------------------------------------------

/// How to start a program: the program, its arguments, and on Windows the
/// raw command-line tail passed to `cmd.exe` as is.
#[derive(Debug, Clone)]
pub struct SpawnPlan {
    pub program: String,
    pub args: Vec<String>,
    pub windows_raw_tail: Option<String>,
}

/// The shell `cmd.exe` paths resolve to: `COMSPEC` when set and not empty.
pub fn resolve_cmd_shell(runtime: &RuntimeEnvironment) -> (shell: String)
    ensures
        shell@ == match lookup_var(
            runtime.vars(),
            "COMSPEC"@,
            runtime.platform_of() == RuntimePlatform::Windows,
            runtime.vars().len() as int,
        ) {
            Some(v) => if v.len() > 0 {
                v
            } else {
                "cmd.exe"@
            },
            None => "cmd.exe"@,
        },
{
    match runtime.resolve_system_var("COMSPEC") {
        Some(v) => {
            if chars_of(v.as_str()).len() > 0 {
                v
            } else {
                string_from_str("cmd.exe")
            }
        },
        None => string_from_str("cmd.exe"),
    }
}

/// The `cmd.exe` command line: the escaped command and escaped arguments,
/// in quotes.
pub open spec fn cmd_tail_spec(command: Seq<char>, args: Seq<Seq<char>>, double: bool) -> Seq<char> {
    seq!['"'] + join_spec(
        seq![escape_meta_spec(command, false)] + args.map_values(
            |a: Seq<char>| escape_meta_spec(quote_windows_spec(a), double),
        ),
        " "@,
    ) + seq!['"']
}

/// A plan that runs `command` through `cmd.exe /D /S /C`.
pub fn build_cmd_shell_spawn_plan(
    command: &str,
    args: &Vec<String>,
    double_escape_meta_chars: bool,
    runtime: &RuntimeEnvironment,
) -> (plan: SpawnPlan)
    requires
        forall|k: int| 0 <= k < args@.len() ==> (#[trigger] args@[k])@.len() < usize::MAX / 2,
    ensures
        views_of(plan.args@) == seq!["/D"@, "/S"@, "/C"@],
        plan.windows_raw_tail matches Some(t) && t@ == cmd_tail_spec(
            command@,
            views_of(args@),
            double_escape_meta_chars,
        ),
{
    let mut words: Vec<String> = Vec::new();
    words.push(escape_cmd_command(command));
    let mut i: usize = 0;
    while i < args.len()
        invariant
            i <= args@.len(),
            forall|k: int| 0 <= k < args@.len() ==> (#[trigger] args@[k])@.len() < usize::MAX / 2,
            views_of(words@) == seq![escape_meta_spec(command@, false)] + views_of(args@.take(i as int)).map_values(
                |a: Seq<char>| escape_meta_spec(quote_windows_spec(a), double_escape_meta_chars),
            ),
        decreases args@.len() - i,
    {
        let ghost before = views_of(words@);
        let w = escape_cmd_argument(args[i].as_str(), double_escape_meta_chars);
        words.push(w);
        proof {
            let a = args@[i as int]@;
            assert(views_of(words@) =~= before.push(
                escape_meta_spec(quote_windows_spec(a), double_escape_meta_chars),
            ));
            let w0 = views_of(args@.take(i as int));
            assert(views_of(args@.take(i + 1)) =~= w0.push(a));
            assert(w0.push(a).map_values(
                |x: Seq<char>| escape_meta_spec(quote_windows_spec(x), double_escape_meta_chars),
            ) =~= w0.map_values(
                |x: Seq<char>| escape_meta_spec(quote_windows_spec(x), double_escape_meta_chars),
            ).push(escape_meta_spec(quote_windows_spec(a), double_escape_meta_chars)));
        }
        i += 1;
    }
    proof {
        assert(args@.take(i as int) =~= args@);
    }
    let joined = join_strings(words.as_slice(), " ");
    let mut tail = string_from_str("\"");
    push_str(&mut tail, joined.as_str());
    push_char(&mut tail, '"');
    let mut plan_args: Vec<String> = Vec::new();
    plan_args.push(string_from_str("/D"));
    plan_args.push(string_from_str("/S"));
    plan_args.push(string_from_str("/C"));
    proof {
        reveal_strlit("\"");
        assert(tail@ =~= cmd_tail_spec(command@, views_of(args@), double_escape_meta_chars));
        assert(views_of(plan_args@) =~= seq!["/D"@, "/S"@, "/C"@]);
    }
    SpawnPlan { program: resolve_cmd_shell(runtime), args: plan_args, windows_raw_tail: Some(tail) }
}

/// A plan that runs a PowerShell script with `host`.
pub fn build_powershell_spawn_plan(script_path: &str, args: &Vec<String>, host: &str) -> (plan: SpawnPlan)
    ensures
        plan.program@ == host@,
        views_of(plan.args@) == seq!["-NoLogo"@, "-NoProfile"@, "-NonInteractive"@, "-File"@, script_path@]
            + views_of(args@),
        plan.windows_raw_tail is None,
{
    let mut spawn_args: Vec<String> = Vec::new();
    spawn_args.push(string_from_str("-NoLogo"));
    spawn_args.push(string_from_str("-NoProfile"));
    spawn_args.push(string_from_str("-NonInteractive"));
    spawn_args.push(string_from_str("-File"));
    spawn_args.push(string_from_str(script_path));
    let ghost head = views_of(spawn_args@);
    let mut i: usize = 0;
    while i < args.len()
        invariant
            i <= args@.len(),
            views_of(spawn_args@) == head + views_of(args@.take(i as int)),
        decreases args@.len() - i,
    {
        let ghost before = views_of(spawn_args@);
        spawn_args.push(args[i].clone());
        proof {
            assert(views_of(spawn_args@) =~= before.push(args@[i as int]@));
            assert(views_of(args@.take(i + 1)) =~= views_of(args@.take(i as int)).push(args@[i as int]@));
        }
        i += 1;
    }
    proof {
        assert(args@.take(i as int) =~= args@);
        assert(head =~= seq!["-NoLogo"@, "-NoProfile"@, "-NonInteractive"@, "-File"@, script_path@]);
    }
    SpawnPlan { program: string_from_str(host), args: spawn_args, windows_raw_tail: None }
}

/// What the program found when it looked the executable up on disk.
#[derive(Debug, Clone)]
pub struct ResolvedExecutable {
    /// The path found.
    pub path: String,
    /// The extension of that path, if it has one.
    pub extension: Option<String>,
    /// Whether it is a `.cmd` shim under `node_modules/.bin`.
    pub node_cmd_shim: bool,
}

/// Builds the Windows plan for an executable, given what the lookup found
/// (`None` when nothing was found, then the name is used as given, with the
/// extension of the name) and the PowerShell host to use for scripts.
pub fn build_windows_spawn_plan(
    executable: &str,
    executable_extension: Option<&str>,
    args: &Vec<String>,
    resolved: Option<&ResolvedExecutable>,
    powershell_host: &str,
    runtime: &RuntimeEnvironment,
) -> (plan: SpawnPlan)
    requires
        forall|k: int| 0 <= k < args@.len() ==> (#[trigger] args@[k])@.len() < usize::MAX / 2,
    ensures
        ({
            let ext = match resolved {
                Some(r) => match r.extension {
                    Some(e) => Some(e@),
                    None => None,
                },
                None => match executable_extension {
                    Some(e) => Some(e@),
                    None => None,
                },
            };
            let target = match resolved {
                Some(r) => r.path@,
                None => executable@,
            };
            match target_kind_spec(ext) {
                Some(WindowsTargetKind::DirectExecutable) => plan.program@ == target && views_of(
                    plan.args@,
                ) == views_of(args@) && plan.windows_raw_tail is None,
                Some(WindowsTargetKind::PowerShellScript) => plan.program@ == powershell_host@
                    && views_of(plan.args@) == seq![
                    "-NoLogo"@,
                    "-NoProfile"@,
                    "-NonInteractive"@,
                    "-File"@,
                    target,
                ] + views_of(args@) && plan.windows_raw_tail is None,
                _ => plan.windows_raw_tail matches Some(t) && t@ == cmd_tail_spec(
                    target,
                    views_of(args@),
                    match resolved {
                        Some(r) => r.node_cmd_shim,
                        None => false,
                    },
                ),
            }
        }),
{
    let (target, ext, shim): (&str, Option<&str>, bool) = match resolved {
        Some(r) => (
            r.path.as_str(),
            match &r.extension {
                Some(e) => Some(e.as_str()),
                None => None,
            },
            r.node_cmd_shim,
        ),
        None => (executable, executable_extension, false),
    };
    match classify_windows_target_kind(ext) {
        Some(WindowsTargetKind::DirectExecutable) => {
            let mut plan_args: Vec<String> = Vec::new();
            let mut i: usize = 0;
            while i < args.len()
                invariant
                    i <= args@.len(),
                    views_of(plan_args@) == views_of(args@.take(i as int)),
                decreases args@.len() - i,
            {
                let ghost before = views_of(plan_args@);
                plan_args.push(args[i].clone());
                proof {
                    assert(views_of(plan_args@) =~= before.push(args@[i as int]@));
                    assert(views_of(args@.take(i + 1)) =~= views_of(args@.take(i as int)).push(
                        args@[i as int]@,
                    ));
                }
                i += 1;
            }
            proof {
                assert(args@.take(i as int) =~= args@);
            }
            SpawnPlan { program: string_from_str(target), args: plan_args, windows_raw_tail: None }
        },
        Some(WindowsTargetKind::PowerShellScript) => build_powershell_spawn_plan(
            target,
            args,
            powershell_host,
        ),
        _ => build_cmd_shell_spawn_plan(target, args, shim, runtime),
    }
}

/// What starts local commands on this host.
#[derive(Debug, Clone)]
pub struct SpawnPlanner {
    runtime_environment: RuntimeEnvironment,
}

impl SpawnPlanner {
    /// The environment by view.
    pub closed spec fn environment_of(&self) -> RuntimeEnvironment {
        self.runtime_environment
    }

    /// A planner for the environment.
    pub fn new(runtime_environment: RuntimeEnvironment) -> (p: Self)
        ensures
            p.environment_of() == runtime_environment,
    {
        SpawnPlanner { runtime_environment }
    }

    /// The environment the planner plans for.
    pub fn environment(&self) -> (e: &RuntimeEnvironment)
        ensures
            *e == self.environment_of(),
    {
        &self.runtime_environment
    }

    /// The plan on a POSIX host: the executable with its arguments, as given.
    pub fn build_posix(&self, executable: &str, args: &Vec<String>) -> (plan: SpawnPlan)
        ensures
            plan.program@ == executable@,
            views_of(plan.args@) == views_of(args@),
            plan.windows_raw_tail is None,
    {
        let mut plan_args: Vec<String> = Vec::new();
        let mut i: usize = 0;
        while i < args.len()
            invariant
                i <= args@.len(),
                views_of(plan_args@) == views_of(args@.take(i as int)),
            decreases args@.len() - i,
        {
            let ghost before = views_of(plan_args@);
            plan_args.push(args[i].clone());
            proof {
                assert(views_of(plan_args@) =~= before.push(args@[i as int]@));
                assert(views_of(args@.take(i + 1)) =~= views_of(args@.take(i as int)).push(
                    args@[i as int]@,
                ));
            }
            i += 1;
        }
        proof {
            assert(args@.take(i as int) =~= args@);
        }
        SpawnPlan { program: string_from_str(executable), args: plan_args, windows_raw_tail: None }
    }
}

// ---------------------------------------------------------------------------
// Looking executables up on Windows
// ---------------------------------------------------------------------------

/// ASCII upper-casing of one character (what `char::to_ascii_uppercase` does).
pub open spec fn ascii_upper(c: char) -> char {
    if 'a' <= c && c <= 'z' {
        ((c as u32) - 32) as char
    } else {
        c
    }
}

/// ASCII upper-casing of every character of `s`.
pub open spec fn ascii_upper_seq(s: Seq<char>) -> Seq<char> {
    s.map_values(|c: char| ascii_upper(c))
}

fn to_ascii_upper(c: char) -> (r: char)
    ensures
        r == ascii_upper(c),
{
    if 'a' <= c && c <= 'z' {
        let code = (c as u32) - 32;
        assert(0x41 <= code <= 0x5a);
        let byte = code as u8;
        byte as char
    } else {
        c
    }
}

fn upper_ascii_chars(s: &[char]) -> (out: Vec<char>)
    ensures
        out@ == ascii_upper_seq(s@),
{
    let mut out: Vec<char> = Vec::new();
    let mut i: usize = 0;
    while i < s.len()
        invariant
            i <= s@.len(),
            out@ == ascii_upper_seq(s@.take(i as int)),
        decreases s@.len() - i,
    {
        out.push(to_ascii_upper(s[i]));
        proof {
            assert(ascii_upper_seq(s@.take(i + 1)) =~= ascii_upper_seq(s@.take(i as int)).push(
                ascii_upper(s@[i as int]),
            ));
        }
        i += 1;
    }
    assert(s@.take(i as int) =~= s@);
    out
}

/// The suffixes tried after a name without extension for one entry of
/// `PATHEXT`: the entry as written, then its lower-case and its upper-case
/// forms where they differ from it.
pub open spec fn extension_suffixes_spec(extension: Seq<char>) -> Seq<Seq<char>> {
    let lower = ascii_lower_seq(extension);
    let upper = ascii_upper_seq(extension);
    let with_lower = if lower != extension {
        seq![extension, lower]
    } else {
        seq![extension]
    };
    if upper != extension {
        with_lower.push(upper)
    } else {
        with_lower
    }
}

/// The suffixes tried after a name without extension for one entry of
/// `PATHEXT`, in order.
pub fn extension_suffixes(extension: &str) -> (v: Vec<String>)
    ensures
        views_of(v@) == extension_suffixes_spec(extension@),
{
    let chars = chars_of(extension);
    let lower = lower_ascii_chars(chars.as_slice());
    let upper = upper_ascii_chars(chars.as_slice());
    let mut v: Vec<String> = Vec::new();
    v.push(string_from_str(extension));
    if !chars_equal(lower.as_slice(), chars.as_slice()) {
        v.push(string_from_chars(lower.as_slice()));
    }
    if !chars_equal(upper.as_slice(), chars.as_slice()) {
        v.push(string_from_chars(upper.as_slice()));
    }
    assert(views_of(v@) =~= extension_suffixes_spec(extension@));
    v
}

/// Each `PATHEXT` entry's suffixes put after `path`, entry by entry.
pub open spec fn suffixed_candidates(path: Seq<char>, extensions: Seq<Seq<char>>) -> Seq<Seq<char>>
    decreases extensions.len(),
{
    if extensions.len() == 0 {
        Seq::empty()
    } else {
        suffixed_candidates(path, extensions.drop_last()) + extension_suffixes_spec(
            extensions.last(),
        ).map_values(|suffix: Seq<char>| path + suffix)
    }
}

/// The files tried for an executable path, in order: the path itself when it
/// has an extension; else the path completed with each `PATHEXT` entry's
/// suffixes, then the bare path.
pub open spec fn executable_candidates_spec(
    path: Seq<char>,
    has_extension: bool,
    extensions: Seq<Seq<char>>,
) -> Seq<Seq<char>> {
    if has_extension {
        seq![path]
    } else {
        suffixed_candidates(path, extensions).push(path)
    }
}

/// The files tried for an executable path, in the order they are probed;
/// the first that exists is the one that runs.
pub fn executable_candidates(path: &str, has_extension: bool, extensions: &Vec<String>) -> (v: Vec<
    String,
>)
    ensures
        views_of(v@) == executable_candidates_spec(path@, has_extension, views_of(extensions@)),
{
    let mut v: Vec<String> = Vec::new();
    if has_extension {
        v.push(string_from_str(path));
        assert(views_of(v@) =~= seq![path@]);
        return v;
    }
    let ghost exts = views_of(extensions@);
    let mut i: usize = 0;
    while i < extensions.len()
        invariant
            i <= extensions@.len(),
            exts == views_of(extensions@),
            views_of(v@) == suffixed_candidates(path@, exts.take(i as int)),
        decreases extensions@.len() - i,
    {
        let suffixes = extension_suffixes(extensions[i].as_str());
        let ghost start = views_of(v@);
        let ghost sfx = views_of(suffixes@);
        let mut j: usize = 0;
        while j < suffixes.len()
            invariant
                j <= suffixes@.len(),
                sfx == views_of(suffixes@),
                views_of(v@) == start + sfx.take(j as int).map_values(
                    |suffix: Seq<char>| path@ + suffix,
                ),
            decreases suffixes@.len() - j,
        {
            let ghost before = views_of(v@);
            let mut candidate = string_from_str(path);
            push_str(&mut candidate, suffixes[j].as_str());
            v.push(candidate);
            proof {
                assert(views_of(v@) =~= before.push(path@ + sfx[j as int]));
                assert(sfx.take(j + 1).map_values(|suffix: Seq<char>| path@ + suffix) =~= sfx.take(
                    j as int,
                ).map_values(|suffix: Seq<char>| path@ + suffix).push(path@ + sfx[j as int]));
            }
            j += 1;
        }
        proof {
            assert(sfx.take(j as int) =~= sfx);
            assert(exts.take(i + 1).drop_last() =~= exts.take(i as int));
            assert(exts.take(i + 1).last() == extensions@[i as int]@);
        }
        i += 1;
    }
    proof {
        assert(exts.take(i as int) =~= exts);
    }
    let ghost before = views_of(v@);
    v.push(string_from_str(path));
    assert(views_of(v@) =~= before.push(path@));
    v
}

/// Whether `c` separates path segments on Windows.
pub open spec fn is_path_separator(c: char) -> bool {
    c == '/' || c == '\\'
}

/// The segments finished so far when `s` is read in order, after adding
/// the current one, which is dropped when it is empty (or `.` where dots
/// are skipped).
pub open spec fn close_segment(done: Seq<Seq<char>>, current: Seq<char>, skip_dots: bool) -> Seq<Seq<char>> {
    if current.len() == 0 || (skip_dots && current == "."@) {
        done
    } else {
        done.push(current)
    }
}

/// The segments finished and the one being read after reading `s`.
pub open spec fn split_state(s: Seq<char>, skip_dots: bool) -> (Seq<Seq<char>>, Seq<char>)
    decreases s.len(),
{
    if s.len() == 0 {
        (Seq::empty(), Seq::empty())
    } else {
        let (done, current) = split_state(s.drop_last(), skip_dots);
        if is_path_separator(s.last()) {
            (close_segment(done, current, skip_dots), Seq::empty())
        } else {
            (done, current.push(s.last()))
        }
    }
}

/// The segments of a Windows path: the text between separators, without
/// empty segments (and without `.` where dots are skipped).
pub open spec fn path_segments_spec(s: Seq<char>, skip_dots: bool) -> Seq<Seq<char>> {
    let (done, current) = split_state(s, skip_dots);
    close_segment(done, current, skip_dots)
}

fn split_segments(s: &Vec<char>, skip_dots: bool) -> (v: Vec<Vec<char>>)
    ensures
        v@.map_values(|x: Vec<char>| x@) == path_segments_spec(s@, skip_dots),
{
    let mut done: Vec<Vec<char>> = Vec::new();
    let mut current: Vec<char> = Vec::new();
    let dot: Vec<char> = vec!['.'];
    assert(dot@ =~= "."@) by {
        reveal_strlit(".");
    }
    let mut i: usize = 0;
    while i < s.len()
        invariant
            i <= s@.len(),
            dot@ == "."@,
            (done@.map_values(|x: Vec<char>| x@), current@) == split_state(s@.take(i as int), skip_dots),
        decreases s@.len() - i,
    {
        let c = s[i];
        proof {
            assert(s@.take(i + 1).drop_last() =~= s@.take(i as int));
            assert(s@.take(i + 1).last() == c);
        }
        if c == '/' || c == '\\' {
            let keep = current.len() > 0 && !(skip_dots && chars_equal(current.as_slice(), dot.as_slice()));
            if keep {
                let ghost before = done@;
                done.push(current);
                proof {
                    assert(done@.map_values(|x: Vec<char>| x@) =~= before.map_values(|x: Vec<char>| x@).push(
                        done@.last()@,
                    ));
                }
            }
            current = Vec::new();
        } else {
            current.push(c);
        }
        i += 1;
    }
    assert(s@.take(i as int) =~= s@);
    let keep = current.len() > 0 && !(skip_dots && chars_equal(current.as_slice(), dot.as_slice()));
    if keep {
        let ghost before = done@;
        done.push(current);
        proof {
            assert(done@.map_values(|x: Vec<char>| x@) =~= before.map_values(|x: Vec<char>| x@).push(
                done@.last()@,
            ));
        }
    }
    done
}

/// The segments of a relative Windows path, to be joined under the working
/// directory: the text between `/` and `\` separators, empty ones dropped.
pub fn windows_relative_segments(path: &str) -> (v: Vec<String>)
    ensures
        views_of(v@) == path_segments_spec(path@, false),
{
    let chars = chars_of(path);
    let parts = split_segments(&chars, false);
    let mut v: Vec<String> = Vec::new();
    let mut i: usize = 0;
    while i < parts.len()
        invariant
            i <= parts@.len(),
            parts@.map_values(|x: Vec<char>| x@) == path_segments_spec(path@, false),
            views_of(v@) == parts@.map_values(|x: Vec<char>| x@).take(i as int),
        decreases parts@.len() - i,
    {
        let ghost before = v@;
        let piece = string_from_chars(parts[i].as_slice());
        assert(piece@ == parts@[i as int]@);
        v.push(piece);
        proof {
            assert(v@ == before.push(piece));
            assert(views_of(v@) =~= views_of(before).push(piece@));
            assert(views_of(v@) =~= parts@.map_values(|x: Vec<char>| x@).take(i + 1));
        }
        i += 1;
    }
    assert(parts@.map_values(|x: Vec<char>| x@).take(i as int) =~= parts@.map_values(|x: Vec<char>| x@));
    v
}

/// Whether a file name has the extension `cmd`, in any case: it ends in
/// `.cmd` after at least one other character.
pub open spec fn has_cmd_extension(name: Seq<char>) -> bool {
    name.len() > 4 && ascii_lower_seq(name.subrange(name.len() - 4, name.len() as int)) == ".cmd"@
}

/// Whether a resolved executable is a `.cmd` shim that npm puts under
/// `node_modules/.bin` (compared without regard to ASCII case).
pub open spec fn node_cmd_shim_spec(path: Seq<char>) -> bool {
    let segments = path_segments_spec(path, true);
    &&& segments.len() > 0
    &&& has_cmd_extension(segments.last())
    &&& exists|j: int|
        0 <= j && j + 1 < segments.len() && ascii_lower_seq(#[trigger] segments[j]) == "node_modules"@
            && ascii_lower_seq(segments[j + 1]) == ".bin"@
}

/// Whether a resolved executable is a `.cmd` shim under `node_modules/.bin`,
/// whose arguments `cmd.exe` reads twice.
pub fn is_node_cmd_shim(path: &str) -> (b: bool)
    ensures
        b == node_cmd_shim_spec(path@),
{
    let chars = chars_of(path);
    let segments = split_segments(&chars, true);
    let ghost views = segments@.map_values(|x: Vec<char>| x@);
    let n = segments.len();
    if n == 0 {
        return false;
    }
    let last = &segments[n - 1];
    let ext = chars_of(".cmd");
    proof {
        reveal_strlit(".cmd");
    }
    if last.len() <= 4 {
        return false;
    }
    let tail = slice_range(last.as_slice(), last.len() - 4, last.len());
    let lower_tail = lower_ascii_chars(tail.as_slice());
    if !chars_equal(lower_tail.as_slice(), ext.as_slice()) {
        return false;
    }
    let node = chars_of("node_modules");
    let bin = chars_of(".bin");
    proof {
        reveal_strlit("node_modules");
        reveal_strlit(".bin");
    }
    let mut j: usize = 0;
    while j + 1 < n
        invariant
            n == segments@.len(),
            n > 0,
            views == segments@.map_values(|x: Vec<char>| x@),
            views == path_segments_spec(path@, true),
            has_cmd_extension(views.last()),
            node@ == "node_modules"@,
            bin@ == ".bin"@,
            j + 1 <= n,
            forall|k: int|
                0 <= k < j ==> !(ascii_lower_seq(#[trigger] views[k]) == "node_modules"@ && ascii_lower_seq(
                    views[k + 1],
                ) == ".bin"@),
        decreases n - j,
    {
        let a = lower_ascii_chars(segments[j].as_slice());
        let b = lower_ascii_chars(segments[j + 1].as_slice());
        if chars_equal(a.as_slice(), node.as_slice()) && chars_equal(b.as_slice(), bin.as_slice()) {
            assert(ascii_lower_seq(views[j as int]) == "node_modules"@);
            return true;
        }
        j += 1;
    }
    false
}

} // verus!
