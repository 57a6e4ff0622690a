//! The operator console's log: its entries, the line format of the log file,
//! and the cleaning of text before it is shown in a terminal.

use vstd::prelude::*;
use crate::config_store::spaces;
use crate::text::{chars_of, first_index, push_char, push_chars, push_str, slice_range, string_from_chars, string_from_str, trim_seq, trimmed_chars};

verus! {

/// The severity of a console log entry.
#[derive(Debug, Clone, Copy, PartialEq, Eq, Structural)]
pub enum ConsoleLogLevel {
    Info,
    Warn,
    Error,
}

/// One line of the operator console's log.
#[derive(Debug, Clone)]
pub struct ConsoleLogEntry {
    pub timestamp: String,
    pub level: ConsoleLogLevel,
    pub message: String,
}

/// The tag a level is written with.
pub open spec fn level_tag_spec(level: ConsoleLogLevel) -> Seq<char> {
    match level {
        ConsoleLogLevel::Info => seq!['I', 'N', 'F', 'O'],
        ConsoleLogLevel::Warn => seq!['W', 'A', 'R', 'N'],
        ConsoleLogLevel::Error => seq!['E', 'R', 'R', 'O', 'R'],
    }
}

/// The tag right-aligned in five columns.
pub open spec fn padded_tag(level: ConsoleLogLevel) -> Seq<char> {
    spaces((5 - level_tag_spec(level).len()) as nat) + level_tag_spec(level)
}

/// The tag a level is written with.
pub fn log_level_tag(level: ConsoleLogLevel) -> (s: &'static str)
    ensures
        s@ == level_tag_spec(level),
{
    proof {
        reveal_strlit("INFO");
        reveal_strlit("WARN");
        reveal_strlit("ERROR");
    }
    match level {
        ConsoleLogLevel::Info => "INFO",
        ConsoleLogLevel::Warn => "WARN",
        ConsoleLogLevel::Error => "ERROR",
    }
}

/// The level a tag names.
pub open spec fn level_of_tag(tag: Seq<char>) -> Option<ConsoleLogLevel> {
    if tag == level_tag_spec(ConsoleLogLevel::Info) {
        Some(ConsoleLogLevel::Info)
    } else if tag == level_tag_spec(ConsoleLogLevel::Warn) {
        Some(ConsoleLogLevel::Warn)
    } else if tag == level_tag_spec(ConsoleLogLevel::Error) {
        Some(ConsoleLogLevel::Error)
    } else {
        None
    }
}

/// The level a tag names.
pub fn parse_log_level(tag: &[char]) -> (r: Option<ConsoleLogLevel>)
    ensures
        r == level_of_tag(tag@),
{
    let info = chars_of(log_level_tag(ConsoleLogLevel::Info));
    let warn = chars_of(log_level_tag(ConsoleLogLevel::Warn));
    let error = chars_of(log_level_tag(ConsoleLogLevel::Error));
    if crate::text::chars_equal(tag, info.as_slice()) {
        Some(ConsoleLogLevel::Info)
    } else if crate::text::chars_equal(tag, warn.as_slice()) {
        Some(ConsoleLogLevel::Warn)
    } else if crate::text::chars_equal(tag, error.as_slice()) {
        Some(ConsoleLogLevel::Error)
    } else {
        None
    }
}

/// The line an entry is written as in the log file.
pub open spec fn serialize_spec(timestamp: Seq<char>, level: ConsoleLogLevel, message: Seq<char>) -> Seq<
    char,
> {
    timestamp + seq![' '] + padded_tag(level) + seq![' '] + message + seq!['\n']
}

/// The line an entry is written as in the log file: time, the level right
/// aligned in five columns, the message.
pub fn serialize_log_entry(entry: &ConsoleLogEntry) -> (line: String)
    ensures
        line@ == serialize_spec(entry.timestamp@, entry.level, entry.message@),
{
    let mut line = string_from_str(entry.timestamp.as_str());
    push_char(&mut line, ' ');
    let tag = chars_of(log_level_tag(entry.level));
    let mut pad: usize = 5 - tag.len();
    while pad > 0
        invariant
            pad <= 5 - tag@.len(),
            tag@ == level_tag_spec(entry.level),
            line@ == entry.timestamp@ + seq![' '] + spaces((5 - tag@.len() - pad) as nat),
        decreases pad,
    {
        push_char(&mut line, ' ');
        proof {
            assert(spaces((5 - tag@.len() - pad) as nat).push(' ') =~= spaces(
                (5 - tag@.len() - (pad - 1)) as nat,
            ));
        }
        pad -= 1;
    }
    push_chars(&mut line, tag.as_slice());
    push_char(&mut line, ' ');
    push_str(&mut line, entry.message.as_str());
    push_char(&mut line, '\n');
    proof {
        assert(line@ =~= serialize_spec(entry.timestamp@, entry.level, entry.message@));
    }
    line
}

/// The line the terminal console shows for an entry: the file line without
/// its line feed.
pub fn log_line_text(entry: &ConsoleLogEntry) -> (text: String)
    ensures
        text@ == serialize_spec(entry.timestamp@, entry.level, entry.message@).drop_last(),
{
    let mut text = string_from_str(entry.timestamp.as_str());
    push_char(&mut text, ' ');
    let tag = chars_of(log_level_tag(entry.level));
    let mut pad: usize = 5 - tag.len();
    while pad > 0
        invariant
            pad <= 5 - tag@.len(),
            tag@ == level_tag_spec(entry.level),
            text@ == entry.timestamp@ + seq![' '] + spaces((5 - tag@.len() - pad) as nat),
        decreases pad,
    {
        push_char(&mut text, ' ');
        proof {
            assert(spaces((5 - tag@.len() - pad) as nat).push(' ') =~= spaces(
                (5 - tag@.len() - (pad - 1)) as nat,
            ));
        }
        pad -= 1;
    }
    push_chars(&mut text, tag.as_slice());
    push_char(&mut text, ' ');
    push_str(&mut text, entry.message.as_str());
    proof {
        assert(text@ =~= serialize_spec(entry.timestamp@, entry.level, entry.message@).drop_last());
    }
    text
}

/// An entry by view.
pub struct EntryView {
    pub timestamp: Seq<char>,
    pub level: ConsoleLogLevel,
    pub message: Seq<char>,
}

/// The view of an entry.
pub open spec fn entry_view(e: ConsoleLogEntry) -> EntryView {
    EntryView { timestamp: e.timestamp@, level: e.level, message: e.message@ }
}

impl ConsoleLogEntry {
    /// A copy of the entry.
    pub fn copy(&self) -> (c: Self)
        ensures
            entry_view(c) == entry_view(*self),
    {
        ConsoleLogEntry { timestamp: self.timestamp.clone(), level: self.level, message: self.message.clone() }
    }
}

/// The entry a log file line holds: the time up to the first space, a level
/// tag in the next five columns, a space, the message.
pub open spec fn parse_line_spec(raw: Seq<char>) -> Option<EntryView> {
    match first_index(raw, ' ', 0) {
        None => None,
        Some(i) => {
            let rest = raw.subrange(i + 1, raw.len() as int);
            if rest.len() < 6 {
                None
            } else {
                match level_of_tag(trim_seq(rest.subrange(0, 5))) {
                    None => None,
                    Some(level) => if rest[5] == ' ' {
                        Some(
                            EntryView {
                                timestamp: raw.subrange(0, i),
                                level,
                                message: rest.subrange(6, rest.len() as int),
                            },
                        )
                    } else {
                        None
                    },
                }
            }
        },
    }
}

/// The entry a log file line (without its line ending) holds.
pub fn parse_log_line(raw: &str) -> (r: Option<ConsoleLogEntry>)
    ensures
        match parse_line_spec(raw@) {
            None => r is None,
            Some(v) => r matches Some(e) && e.timestamp@ == v.timestamp && e.level == v.level
                && e.message@ == v.message,
        },
{
    let c = chars_of(raw);
    let i = match crate::text::find_char(c.as_slice(), ' ') {
        None => {
            return None;
        },
        Some(i) => i,
    };
    let n = c.len();
    assert(i < n);
    let rest = slice_range(c.as_slice(), i + 1, n);
    if rest.len() < 6 {
        return None;
    }
    let field = slice_range(rest.as_slice(), 0, 5);
    let tag = trimmed_chars(string_from_chars(field.as_slice()).as_str());
    let level = match parse_log_level(tag.as_slice()) {
        None => {
            return None;
        },
        Some(l) => l,
    };
    if rest[5] != ' ' {
        return None;
    }
    Some(
        ConsoleLogEntry {
            timestamp: string_from_chars(slice_range(c.as_slice(), 0, i).as_slice()),
            level,
            message: string_from_chars(slice_range(rest.as_slice(), 6, rest.len()).as_slice()),
        },
    )
}

/// Reading back a written entry gives the entry, when its time holds no space.
pub proof fn lemma_log_line_round_trip(timestamp: Seq<char>, level: ConsoleLogLevel, message: Seq<char>)
    requires
        !timestamp.contains(' '),
    ensures
        parse_line_spec(serialize_spec(timestamp, level, message).drop_last()) == Some(
            EntryView { timestamp, level, message },
        ),
{
    let line = serialize_spec(timestamp, level, message).drop_last();
    let n: int = timestamp.len() as int;
    assert(line[n] == ' ');
    assert forall|k: int| 0 <= k < n implies line[k] != ' ' by {
        assert(line[k] == timestamp[k]);
        if line[k] == ' ' {
            assert(timestamp.contains(' '));
        }
    }
    lemma_first_gap(line, ' ', n);
    let rest = line.subrange(n + 1, line.len() as int);
    assert(rest =~= padded_tag(level) + seq![' '] + message);
    assert(rest.subrange(0, 5) =~= padded_tag(level));
    lemma_trim_padded(level);
    assert(rest.subrange(6, rest.len() as int) =~= message);
    assert(line.subrange(0, n) =~= timestamp);
}

/// The first occurrence found by `first_index` is at `j`.
proof fn lemma_first_gap(s: Seq<char>, c: char, j: int)
    requires
        0 <= j < s.len(),
        s[j] == c,
        forall|k: int| 0 <= k < j ==> s[k] != c,
    ensures
        first_index(s, c, 0) == Some(j),
{
    lemma_first_gap_from(s, c, 0, j);
}

proof fn lemma_first_gap_from(s: Seq<char>, c: char, from: int, j: int)
    requires
        0 <= from <= j < s.len(),
        s[j] == c,
        forall|k: int| from <= k < j ==> s[k] != c,
    ensures
        first_index(s, c, from) == Some(j),
    decreases j - from,
{
    if from < j {
        lemma_first_gap_from(s, c, from + 1, j);
    }
}

/// Trimming a padded tag gives the tag.
proof fn lemma_trim_padded(level: ConsoleLogLevel)
    ensures
        trim_seq(padded_tag(level)) == level_tag_spec(level),
{
    let p = padded_tag(level);
    let t = level_tag_spec(level);
    match level {
        ConsoleLogLevel::Error => {
            assert(p =~= t);
            assert(crate::text::trim_start_seq(t) == t);
            assert(crate::text::trim_end_seq(t) == t);
        },
        _ => {
            assert(p =~= seq![' '] + t);
            assert(p.drop_first() =~= t);
            assert(crate::text::trim_start_seq(t) == t);
            assert(crate::text::trim_start_seq(p) == crate::text::trim_start_seq(p.drop_first()));
            assert(crate::text::trim_end_seq(t) == t);
        },
    }
}

/// The date part of a timestamp: the digits and dashes before `T`.
pub open spec fn archive_date_spec(ts: Seq<char>) -> Seq<char>
    decreases ts.len(),
{
    if ts.len() == 0 || ts[0] == 'T' {
        Seq::empty()
    } else {
        let rest = archive_date_spec(ts.drop_first());
        if ('0' <= ts[0] && ts[0] <= '9') || ts[0] == '-' {
            seq![ts[0]] + rest
        } else {
            rest
        }
    }
}

/// The date label an archived log file gets from a timestamp.
pub fn sanitize_archive_date(timestamp: &str) -> (d: String)
    ensures
        d@ == archive_date_spec(timestamp@),
{
    let c = chars_of(timestamp);
    let n = c.len();
    let mut end: usize = 0;
    while end < n && c[end] != 'T'
        invariant
            end <= n == c@.len(),
            forall|k: int| 0 <= k < end ==> c@[k] != 'T',
        decreases n - end,
    {
        end += 1;
    }
    let mut out: Vec<char> = Vec::new();
    let mut i: usize = end;
    proof {
        lemma_archive_date_cut(c@, end as int);
        assert(c@.subrange(end as int, end as int) =~= Seq::<char>::empty());
    }
    while i > 0
        invariant
            i <= end <= n == c@.len(),
            archive_date_spec(c@) == archive_date_spec(c@.subrange(0, end as int)),
            archive_date_spec(c@.subrange(0, end as int)) == keep_date_chars(c@.subrange(0, i as int))
                + out@,
        decreases i,
    {
        let ch = c[i - 1];
        let ghost before = out@;
        if ('0' <= ch && ch <= '9') || ch == '-' {
            out.insert(0, ch);
        }
        proof {
            let s = c@.subrange(0, i as int);
            assert(s.drop_last() =~= c@.subrange(0, i - 1));
            lemma_keep_date_chars_last(s);
            assert(keep_date_chars(s) + before =~= keep_date_chars(c@.subrange(0, i - 1)) + out@);
        }
        i -= 1;
    }
    proof {
        assert(c@.subrange(0, 0) =~= Seq::<char>::empty());
        assert(keep_date_chars(Seq::<char>::empty()) + out@ =~= out@);
    }
    string_from_chars(out.as_slice())
}

/// The digits and dashes of `s`.
pub open spec fn keep_date_chars(s: Seq<char>) -> Seq<char>
    decreases s.len(),
{
    if s.len() == 0 {
        Seq::empty()
    } else {
        (if ('0' <= s[0] && s[0] <= '9') || s[0] == '-' {
            seq![s[0]]
        } else {
            Seq::empty()
        }) + keep_date_chars(s.drop_first())
    }
}

proof fn lemma_keep_date_chars_last(s: Seq<char>)
    requires
        s.len() > 0,
    ensures
        keep_date_chars(s) == keep_date_chars(s.drop_last()) + (if ('0' <= s.last() && s.last()
            <= '9') || s.last() == '-' {
            seq![s.last()]
        } else {
            Seq::<char>::empty()
        }),
    decreases s.len(),
{
    if s.len() == 1 {
        assert(s.drop_last() =~= Seq::<char>::empty());
        assert(s.drop_first() =~= Seq::<char>::empty());
        assert(keep_date_chars(s) =~= keep_date_chars(s.drop_last()) + (if ('0' <= s.last()
            && s.last() <= '9') || s.last() == '-' {
            seq![s.last()]
        } else {
            Seq::<char>::empty()
        }));
    } else {
        lemma_keep_date_chars_last(s.drop_first());
        assert(s.drop_first().drop_last() =~= s.drop_last().drop_first());
        assert(s.drop_last()[0] == s[0]);
        assert(s.drop_first().last() == s.last());
        assert(keep_date_chars(s) =~= keep_date_chars(s.drop_last()) + (if ('0' <= s.last()
            && s.last() <= '9') || s.last() == '-' {
            seq![s.last()]
        } else {
            Seq::<char>::empty()
        }));
    }
}

/// Up to the first `T` the date is the kept characters; the rest is ignored.
proof fn lemma_archive_date_cut(s: Seq<char>, end: int)
    requires
        0 <= end <= s.len(),
        end == s.len() || s[end] == 'T',
        forall|k: int| 0 <= k < end ==> s[k] != 'T',
    ensures
        archive_date_spec(s) == archive_date_spec(s.subrange(0, end)),
        archive_date_spec(s.subrange(0, end)) == keep_date_chars(s.subrange(0, end)),
    decreases end,
{
    if end == 0 {
        assert(s.subrange(0, 0) =~= Seq::<char>::empty());
        assert(keep_date_chars(Seq::<char>::empty()) =~= Seq::<char>::empty());
    } else {
        let r = s.drop_first();
        assert forall|k: int| 0 <= k < end - 1 implies r[k] != 'T' by {
            assert(r[k] == s[k + 1]);
        }
        if end - 1 < r.len() {
            assert(r[end - 1] == s[end]);
        }
        lemma_archive_date_cut(r, end - 1);
        assert(s.subrange(0, end).drop_first() =~= r.subrange(0, end - 1));
        assert(s.subrange(0, end)[0] == s[0]);
        assert(keep_date_chars(s.subrange(0, end)) =~= (if ('0' <= s[0] && s[0] <= '9') || s[0]
            == '-' {
            seq![s[0]]
        } else {
            Seq::<char>::empty()
        }) + keep_date_chars(r.subrange(0, end - 1)));
    }
}

// ---------------------------------------------------------------------------
// Cleaning text for the terminal
// ---------------------------------------------------------------------------

/// Where the cleaner is inside an escape sequence.
#[derive(Debug, Clone, Copy, PartialEq, Eq, Structural)]
pub enum SanitizeState {
    Normal,
    Escape,
    Csi,
    Osc,
    OscEscape,
}

/// A control character (Unicode category Cc).
pub open spec fn is_control(c: char) -> bool {
    (c as u32) <= 0x1f || (0x7f <= (c as u32) && (c as u32) <= 0x9f)
}

/// One step of the cleaner: the next state and what it keeps of `c`.
pub open spec fn sanitize_step(st: SanitizeState, c: char) -> (SanitizeState, Seq<char>) {
    match st {
        SanitizeState::Normal => if c == '\u{1b}' {
            (SanitizeState::Escape, Seq::empty())
        } else if c == '\n' || c == '\t' || !is_control(c) {
            (SanitizeState::Normal, seq![c])
        } else {
            (SanitizeState::Normal, Seq::empty())
        },
        SanitizeState::Escape => if c == '[' {
            (SanitizeState::Csi, Seq::empty())
        } else if c == ']' {
            (SanitizeState::Osc, Seq::empty())
        } else {
            (SanitizeState::Normal, Seq::empty())
        },
        SanitizeState::Csi => if '@' <= c && c <= '~' {
            (SanitizeState::Normal, Seq::empty())
        } else {
            (SanitizeState::Csi, Seq::empty())
        },
        SanitizeState::Osc => if c == '\u{7}' {
            (SanitizeState::Normal, Seq::empty())
        } else if c == '\u{1b}' {
            (SanitizeState::OscEscape, Seq::empty())
        } else {
            (SanitizeState::Osc, Seq::empty())
        },
        SanitizeState::OscEscape => if c == '\\' {
            (SanitizeState::Normal, Seq::empty())
        } else {
            (SanitizeState::Osc, Seq::empty())
        },
    }
}

/// The cleaner run over `s`: what it kept and the state it ended in.
pub open spec fn sanitize_run(s: Seq<char>) -> (Seq<char>, SanitizeState)
    decreases s.len(),
{
    if s.len() == 0 {
        (Seq::empty(), SanitizeState::Normal)
    } else {
        let (out, st) = sanitize_run(s.drop_last());
        let (st2, kept) = sanitize_step(st, s.last());
        (out + kept, st2)
    }
}

/// Text with terminal escape sequences (CSI and OSC) and control characters
/// other than line feed and tab removed.
pub fn sanitize_console_text(input: &str) -> (out: String)
    ensures
        out@ == sanitize_run(input@).0,
{
    let c = chars_of(input);
    let mut out = String::new();
    let mut state = SanitizeState::Normal;
    let mut i: usize = 0;
    while i < c.len()
        invariant
            i <= c@.len(),
            c@ == input@,
            (out@, state) == sanitize_run(c@.take(i as int)),
        decreases c@.len() - i,
    {
        let ch = c[i];
        let code = ch as u32;
        let control = code <= 0x1f || (0x7f <= code && code <= 0x9f);
        match state {
            SanitizeState::Normal => {
                if ch == '\u{1b}' {
                    state = SanitizeState::Escape;
                } else if ch == '\n' || ch == '\t' || !control {
                    push_char(&mut out, ch);
                }
            },
            SanitizeState::Escape => {
                state = if ch == '[' {
                    SanitizeState::Csi
                } else if ch == ']' {
                    SanitizeState::Osc
                } else {
                    SanitizeState::Normal
                };
            },
            SanitizeState::Csi => {
                if '@' <= ch && ch <= '~' {
                    state = SanitizeState::Normal;
                }
            },
            SanitizeState::Osc => {
                if ch == '\u{7}' {
                    state = SanitizeState::Normal;
                } else if ch == '\u{1b}' {
                    state = SanitizeState::OscEscape;
                }
            },
            SanitizeState::OscEscape => {
                state = if ch == '\\' {
                    SanitizeState::Normal
                } else {
                    SanitizeState::Osc
                };
            },
        }
        proof {
            let t = c@.take(i + 1);
            assert(t.drop_last() =~= c@.take(i as int));
            assert(t.last() == ch);
            assert(out@ =~= sanitize_run(t).0);
        }
        i += 1;
    }
    assert(c@.take(i as int) =~= c@);
    out
}

/// Cleaned text holds no escape character and no control character other
/// Whether the characters of `a` occur in `b` in the same order.
pub open spec fn is_subsequence(a: Seq<char>, b: Seq<char>) -> bool
    decreases b.len(),
{
    if a.len() == 0 {
        true
    } else if b.len() == 0 {
        false
    } else if a.last() == b.last() {
        is_subsequence(a.drop_last(), b.drop_last()) || is_subsequence(a, b.drop_last())
    } else {
        is_subsequence(a, b.drop_last())
    }
}

/// Cleaning only removes characters: what it keeps appears in the input, in
/// the same order.
pub proof fn lemma_sanitized_is_subsequence(s: Seq<char>)
    ensures
        is_subsequence(sanitize_run(s).0, s),
    decreases s.len(),
{
    if s.len() > 0 {
        let d = s.drop_last();
        lemma_sanitized_is_subsequence(d);
        let (out, st) = sanitize_run(d);
        let (st2, kept) = sanitize_step(st, s.last());
        let full = out + kept;
        assert(sanitize_run(s).0 == full);
        assert(s.drop_last() == d);
        if kept.len() == 0 {
            assert(full =~= out);
            if full.len() > 0 {
                assert(is_subsequence(full, d));
            }
        } else {
            assert(kept == seq![s.last()]);
            assert(full.last() == s.last());
            assert(full.drop_last() =~= out);
        }
    }
}

/// than line feed and tab.
pub proof fn lemma_sanitized_has_no_controls(s: Seq<char>)
    ensures
        forall|k: int|
            0 <= k < sanitize_run(s).0.len() ==> {
                let c = #[trigger] sanitize_run(s).0[k];
                c == '\n' || c == '\t' || !is_control(c)
            },
    decreases s.len(),
{
    if s.len() > 0 {
        lemma_sanitized_has_no_controls(s.drop_last());
        let (out, st) = sanitize_run(s.drop_last());
        let (st2, kept) = sanitize_step(st, s.last());
        assert(sanitize_run(s).0 == out + kept);
        assert forall|k: int| 0 <= k < sanitize_run(s).0.len() implies {
            let c = #[trigger] sanitize_run(s).0[k];
            c == '\n' || c == '\t' || !is_control(c)
        } by {
            if k < out.len() {
                assert((out + kept)[k] == out[k]);
                assert(out[k] == sanitize_run(s.drop_last()).0[k]);
            }
        }
    }
}

/// The fields of a log event, separated by single spaces.
pub open spec fn joined_fields(fields: Seq<Seq<char>>) -> Seq<char>
    decreases fields.len(),
{
    if fields.len() == 0 {
        Seq::empty()
    } else if fields.len() == 1 {
        fields[0]
    } else {
        joined_fields(fields.drop_last()) + " "@ + fields.last()
    }
}

/// The console text of a log event: its message, then its other fields,
/// separated by spaces.
pub open spec fn event_text_spec(message: Option<Seq<char>>, fields: Seq<Seq<char>>) -> Seq<char> {
    match message {
        Some(m) => if fields.len() == 0 {
            m
        } else {
            m + " "@ + joined_fields(fields)
        },
        None => joined_fields(fields),
    }
}

/// The console text of a log event with `message` and the rendered `fields`
/// (`name=value`), as the console shows it.
pub fn event_text(message: Option<String>, fields: &Vec<String>) -> (t: String)
    ensures
        t@ == event_text_spec(opt_text(message), fields@.map_values(|f: String| f@)),
{
    let ghost fs = fields@.map_values(|f: String| f@);
    let mut joined = String::new();
    let mut i: usize = 0;
    while i < fields.len()
        invariant
            i <= fields@.len(),
            fs == fields@.map_values(|f: String| f@),
            joined@ == joined_fields(fs.take(i as int)),
        decreases fields@.len() - i,
    {
        if i > 0 {
            push_str(&mut joined, " ");
        }
        push_str(&mut joined, fields[i].as_str());
        proof {
            let t = fs.take(i + 1);
            assert(t.drop_last() =~= fs.take(i as int));
            assert(t.last() == fs[i as int]);
            if i == 0 {
                assert(fs.take(0) =~= Seq::<Seq<char>>::empty());
            }
        }
        i += 1;
    }
    assert(fs.take(i as int) =~= fs);
    match message {
        Some(m) => {
            if fields.len() == 0 {
                m
            } else {
                let mut t = m;
                push_str(&mut t, " ");
                push_str(&mut t, joined.as_str());
                t
            }
        },
        None => joined,
    }
}

/// An optional text by view.
pub open spec fn opt_text(s: Option<String>) -> Option<Seq<char>> {
    match s {
        Some(t) => Some(t@),
        None => None,
    }
}

} // verus!
