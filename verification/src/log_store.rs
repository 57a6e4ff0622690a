//! The bookkeeping of the console log: how a message becomes log lines, the
//! window of recent lines kept in memory, where a range of lines is read
//! from (the files or memory), the byte offsets of lines in a log file, and
//! the names of archived log files.

use vstd::prelude::*;
use crate::console_log::{entry_view, sanitize_console_text, sanitize_run, ConsoleLogEntry, EntryView};
use crate::text::{chars_of, decimal, find_char_from, first_index, lemma_first_index, slice_range, string_from_chars};
use std::collections::VecDeque;

verus! {

/// How many recent log lines are kept in memory.
pub const RUNTIME_LOG_BUFFER_LIMIT: usize = 2000;

/// The pieces of `s` from `pos` on, split at each line feed.
pub open spec fn pieces_from(s: Seq<char>, pos: int) -> Seq<Seq<char>>
    decreases s.len() - pos,
{
    if pos < 0 || pos > s.len() {
        Seq::empty()
    } else {
        match first_index(s, '\n', pos) {
            None => seq![s.subrange(pos, s.len() as int)],
            Some(e) => {
                proof {
                    lemma_first_index(s, '\n', pos);
                }
                seq![s.subrange(pos, e)] + pieces_from(s, e + 1)
            },
        }
    }
}

/// The log lines of a message: its text with escape sequences and control
/// characters removed, split at each line feed; a final line feed starts one
/// more, empty, line, and an empty text gives no line.
pub open spec fn message_lines_spec(message: Seq<char>) -> Seq<Seq<char>> {
    let s = sanitize_run(message).0;
    if s.len() == 0 {
        Seq::empty()
    } else {
        pieces_from(s, 0)
    }
}

/// The log lines of a message.
pub fn message_lines(message: &str) -> (lines: Vec<String>)
    ensures
        crate::text::views_of(lines@) == message_lines_spec(message@),
{
    let clean = sanitize_console_text(message);
    let s = chars_of(clean.as_str());
    let ghost q = s@;
    let mut lines: Vec<String> = Vec::new();
    if s.len() == 0 {
        return lines;
    }
    let mut pos: usize = 0;
    loop
        invariant
            pos <= s@.len(),
            q == s@,
            q == sanitize_run(message@).0,
            q.len() > 0,
            crate::text::views_of(lines@) + pieces_from(q, pos as int) == pieces_from(q, 0),
        decreases s@.len() - pos,
    {
        proof {
            lemma_first_index(q, '\n', pos as int);
        }
        let ghost before = crate::text::views_of(lines@);
        match find_char_from(s.as_slice(), '\n', pos) {
            None => {
                let piece = slice_range(s.as_slice(), pos, s.len());
                lines.push(string_from_chars(piece.as_slice()));
                proof {
                    assert(crate::text::views_of(lines@) =~= before.push(q.subrange(pos as int, q.len() as int)));
                    assert(before + pieces_from(q, pos as int) =~= crate::text::views_of(lines@));
                }
                return lines;
            },
            Some(e) => {
                let piece = slice_range(s.as_slice(), pos, e);
                lines.push(string_from_chars(piece.as_slice()));
                proof {
                    assert(crate::text::views_of(lines@) =~= before.push(q.subrange(pos as int, e as int)));
                    assert(before + pieces_from(q, pos as int) =~= crate::text::views_of(lines@)
                        + pieces_from(q, e + 1));
                }
                assert(e < s.len());
                pos = e + 1;
            },
        }
    }
}

/// The entries by view.
pub open spec fn entries_view(s: Seq<ConsoleLogEntry>) -> Seq<EntryView> {
    s.map_values(|e: ConsoleLogEntry| entry_view(e))
}

/// The most recent log lines, at most `RUNTIME_LOG_BUFFER_LIMIT` of them, oldest first.
pub struct RecentLogs {
    entries: VecDeque<ConsoleLogEntry>,
}

impl View for RecentLogs {
    type V = Seq<EntryView>;

    closed spec fn view(&self) -> Seq<EntryView> {
        entries_view(self.entries@)
    }
}

/// The window after `entry` is added: the oldest goes when the window is full.
pub open spec fn pushed_window(s: Seq<EntryView>, entry: EntryView) -> Seq<EntryView> {
    if s.len() >= RUNTIME_LOG_BUFFER_LIMIT {
        s.drop_first().push(entry)
    } else {
        s.push(entry)
    }
}

/// The entries from index `start` on, at most `limit` of them.
pub open spec fn window_slice(s: Seq<EntryView>, start: usize, limit: usize) -> Seq<EntryView> {
    let a: int = if start < s.len() {
        start as int
    } else {
        s.len() as int
    };
    let b: int = if a + limit < s.len() {
        a + limit
    } else {
        s.len() as int
    };
    s.subrange(a, b)
}

impl RecentLogs {
    /// The window never holds more than the limit.
    #[verifier::type_invariant]
    spec fn bounded(self) -> bool {
        self.entries@.len() <= RUNTIME_LOG_BUFFER_LIMIT
    }

    /// An empty window.
    pub fn new() -> (r: Self)
        ensures
            r@ == Seq::<EntryView>::empty(),
    {
        let r = RecentLogs { entries: VecDeque::new() };
        assert(r@ =~= Seq::<EntryView>::empty());
        r
    }

    /// How many entries the window holds.
    pub fn len(&self) -> (n: usize)
        ensures
            n == self@.len(),
            n <= RUNTIME_LOG_BUFFER_LIMIT,
    {
        proof {
            use_type_invariant(self);
        }
        self.entries.len()
    }

    /// Adds an entry, dropping the oldest when the window is full.
    pub fn push(&mut self, entry: ConsoleLogEntry)
        ensures
            final(self)@ == pushed_window(old(self)@, entry_view(entry)),
    {
        proof {
            use_type_invariant(&*self);
        }
        let ghost s = self@;
        let mut entries: VecDeque<ConsoleLogEntry> = VecDeque::new();
        std::mem::swap(&mut entries, &mut self.entries);
        assert(entries_view(entries@) == s);
        if entries.len() >= RUNTIME_LOG_BUFFER_LIMIT {
            let _ = entries.pop_front();
            assert(entries_view(entries@) =~= s.drop_first());
        }
        let ghost mid = entries_view(entries@);
        entries.push_back(entry);
        assert(entries_view(entries@) =~= mid.push(entry_view(entry)));
        self.entries = entries;
    }

    /// The entries from index `start` on, at most `limit` of them.
    pub fn read(&self, start: usize, limit: usize) -> (r: Vec<ConsoleLogEntry>)
        ensures
            entries_view(r@) == window_slice(self@, start, limit),
    {
        let n = self.entries.len();
        let a: usize = if start < n {
            start
        } else {
            n
        };
        let b: usize = if limit < n - a {
            a + limit
        } else {
            n
        };
        let mut out: Vec<ConsoleLogEntry> = Vec::new();
        let mut i: usize = a;
        while i < b
            invariant
                a <= i <= b <= n,
                n == self.entries@.len(),
                entries_view(out@) == self@.subrange(a as int, i as int),
            decreases b - i,
        {
            let e = self.entries[i].copy();
            let ghost before = entries_view(out@);
            out.push(e);
            proof {
                assert(self@[i as int] == entry_view(self.entries@[i as int]));
                assert(entries_view(out@) =~= before.push(self@[i as int]));
                assert(entries_view(out@) =~= self@.subrange(a as int, i + 1));
            }
            i += 1;
        }
        out
    }
}

/// Where the lines `start..start + limit` of a log with `total` lines, the
/// last `buffered` of them in memory, are read from: a range of lines from
/// the files, and a range of indexes in memory.
#[derive(Debug, Clone, Copy, PartialEq, Eq, Structural)]
pub struct LogReadPlan {
    pub file_lines: Option<LineRange>,
    pub buffered: Option<LineRange>,
}

/// The indexes `start..end`.
#[derive(Debug, Clone, Copy, PartialEq, Eq, Structural)]
pub struct LineRange {
    pub start: usize,
    pub end: usize,
}

/// The read plan for lines `start..start + limit`.
pub open spec fn read_plan_spec(total: usize, buffered: usize, start: usize, limit: usize) -> LogReadPlan {
    if limit == 0 || start >= total {
        LogReadPlan { file_lines: None, buffered: None }
    } else {
        let end: int = if start + limit < total {
            start + limit
        } else {
            total as int
        };
        let buffer_start: int = if total > buffered {
            total - buffered
        } else {
            0
        };
        if start >= buffer_start {
            LogReadPlan {
                file_lines: None,
                buffered: Some(LineRange { start: (start - buffer_start) as usize, end: (end - buffer_start) as usize }),
            }
        } else {
            let file_end: int = if end < buffer_start {
                end
            } else {
                buffer_start
            };
            LogReadPlan {
                file_lines: Some(LineRange { start, end: file_end as usize }),
                buffered: if end > buffer_start {
                    Some(LineRange { start: 0, end: (end - buffer_start) as usize })
                } else {
                    None
                },
            }
        }
    }
}

/// Where to read lines `start..start + limit` of a log with `total` lines,
/// the last `buffered` of them held in memory.
pub fn plan_log_read(total: usize, buffered: usize, start: usize, limit: usize) -> (p: LogReadPlan)
    ensures
        p == read_plan_spec(total, buffered, start, limit),
{
    if limit == 0 || start >= total {
        return LogReadPlan { file_lines: None, buffered: None };
    }
    let end: usize = if limit < total - start {
        start + limit
    } else {
        total
    };
    let buffer_start = total.saturating_sub(buffered);
    if start >= buffer_start {
        LogReadPlan { file_lines: None, buffered: Some(LineRange { start: start - buffer_start, end: end - buffer_start }) }
    } else {
        let file_end = if end < buffer_start {
            end
        } else {
            buffer_start
        };
        LogReadPlan {
            file_lines: Some(LineRange { start, end: file_end }),
            buffered: if end > buffer_start {
                Some(LineRange { start: 0, end: end - buffer_start })
            } else {
                None
            },
        }
    }
}

/// Where each line of one log file starts, and where the next would.
pub struct LogSegmentIndex {
    pub start_line: usize,
    pub line_offsets: Vec<u64>,
    pub next_offset: u64,
}

impl LogSegmentIndex {
    /// An index for a file whose first line is log line `start_line`.
    pub fn new(start_line: usize) -> (r: Self)
        ensures
            r.start_line == start_line,
            r.line_offsets@ == Seq::<u64>::empty(),
            r.next_offset == 0,
    {
        LogSegmentIndex { start_line, line_offsets: Vec::new(), next_offset: 0 }
    }

    /// Records a line of `len` bytes written at the end of the file.
    pub fn record_line(&mut self, len: u64)
        requires
            old(self).next_offset + len <= u64::MAX,
        ensures
            final(self).start_line == old(self).start_line,
            final(self).line_offsets@ == old(self).line_offsets@.push(old(self).next_offset),
            final(self).next_offset == old(self).next_offset + len,
    {
        self.line_offsets.push(self.next_offset);
        self.next_offset = self.next_offset + len;
    }

    /// The log lines of `start..end` this file holds, if any.
    pub fn overlap(&self, start: usize, end: usize) -> (r: Option<(usize, usize)>)
        requires
            self.start_line + self.line_offsets@.len() <= usize::MAX,
        ensures
            ({
                let seg_end = self.start_line + self.line_offsets@.len();
                let a: int = if start > self.start_line {
                    start as int
                } else {
                    self.start_line as int
                };
                let b: int = if end < seg_end {
                    end as int
                } else {
                    seg_end
                };
                r == if a >= b {
                    None::<(usize, usize)>
                } else {
                    Some((a as usize, b as usize))
                }
            }),
    {
        let seg_end = self.start_line + self.line_offsets.len();
        let a = if start > self.start_line {
            start
        } else {
            self.start_line
        };
        let b = if end < seg_end {
            end
        } else {
            seg_end
        };
        if a >= b {
            None
        } else {
            Some((a, b))
        }
    }

    /// Where log line `global_index` starts in the file and how many bytes
    /// it takes, if the file holds it.
    pub fn line_span(&self, global_index: usize) -> (r: Option<(u64, u64)>)
        ensures
            ({
                let k = global_index - self.start_line;
                let n = self.line_offsets@.len();
                r == if global_index < self.start_line || k >= n {
                    None::<(u64, u64)>
                } else {
                    let offset = self.line_offsets@[k];
                    let next = if k + 1 < n {
                        self.line_offsets@[k + 1]
                    } else {
                        self.next_offset
                    };
                    Some((offset, if next > offset {
                        (next - offset) as u64
                    } else {
                        0u64
                    }))
                }
            }),
    {
        if global_index < self.start_line {
            return None;
        }
        let k = global_index - self.start_line;
        if k >= self.line_offsets.len() {
            return None;
        }
        let offset = self.line_offsets[k];
        let next = if k + 1 < self.line_offsets.len() {
            self.line_offsets[k + 1]
        } else {
            self.next_offset
        };
        Some((offset, next.saturating_sub(offset)))
    }
}

/// Whether the active log file is to be archived before writing: it holds
/// lines and they were written on another day.
pub fn should_rotate(line_count: usize, active_date: &str, current_date: &str) -> (b: bool)
    ensures
        b == (line_count > 0 && active_date@ != current_date@),
{
    line_count > 0 && !crate::text::str_equal(active_date, current_date)
}

/// Whether the retention of archived logs changes: the new number of days,
/// or `None` when it stays.
pub fn retention_change(current_days: u64, configured_days: u64) -> (r: Option<u64>)
    ensures
        r == if current_days == configured_days {
            None::<u64>
        } else {
            Some(configured_days)
        },
{
    if current_days == configured_days {
        None
    } else {
        Some(configured_days)
    }
}

/// Whether an archive last written at `modified_secs` (seconds since the
/// epoch, in whole seconds like `now_secs`) is past its retention; with 0 days
/// archives are kept.
pub fn archive_expired(retention_days: u64, modified_secs: u64, now_secs: u64) -> (b: bool)
    ensures
        b == (retention_days > 0 && modified_secs < if now_secs > retention_days * 86400 {
            now_secs - retention_days * 86400
        } else {
            0
        }),
{
    if retention_days == 0 {
        return false;
    }
    let span: u64 = if retention_days > u64::MAX / 86400 {
        assert(retention_days * 86400 > u64::MAX) by (nonlinear_arith)
            requires
                retention_days > u64::MAX / 86400,
        ;
        u64::MAX
    } else {
        assert(retention_days * 86400 <= u64::MAX) by (nonlinear_arith)
            requires
                retention_days <= u64::MAX / 86400,
        ;
        retention_days * 86400
    };
    let cutoff = now_secs.saturating_sub(span);
    modified_secs < cutoff
}


/// What `Path::file_name` gives for a path, by view.
pub uninterp spec fn path_file_name(p: Seq<char>) -> Option<Seq<char>>;

/// The final component of a path (`Path::file_name`), as text: `None` when
/// the path ends in `..`, a root or a prefix, or is empty. A name that is not
/// valid Unicode comes back with replacement characters.
#[verifier::external_body]
pub(crate) fn file_name_of(p: &str) -> (r: Option<String>)
    ensures
        match r {
            Some(s) => path_file_name(p@) == Some(s@),
            None => path_file_name(p@) is None,
        },
{
    match std::path::Path::new(p).file_name() {
        Some(name) => Some(name.to_string_lossy().into_owned()),
        None => None,
    }
}

/// A file name split as `Path::file_stem` and `Path::extension` split it:
/// at the last dot, unless there is none or the only one comes first, in
/// which case the whole name is the stem and there is no extension.
pub open spec fn stem_and_extension(name: Seq<char>) -> (Seq<char>, Option<Seq<char>>) {
    match crate::text::last_index(name, '.', name.len() as int) {
        None => (name, None),
        Some(i) => if i == 0 {
            (name, None)
        } else {
            (name.take(i), Some(name.skip(i + 1)))
        },
    }
}

fn split_stem(name: &[char]) -> (r: (Vec<char>, Option<Vec<char>>))
    ensures
        r.0@ == stem_and_extension(name@).0,
        match r.1 {
            Some(e) => stem_and_extension(name@).1 == Some(e@),
            None => stem_and_extension(name@).1 is None,
        },
{
    proof {
        crate::text::lemma_last_index(name@, '.', name@.len() as int);
    }
    match crate::text::rfind_char(name, '.') {
        None => (slice_range(name, 0, name.len()), None),
        Some(i) => {
            if i == 0 {
                (slice_range(name, 0, name.len()), None)
            } else {
                assert(i < name.len());
                (slice_range(name, 0, i), Some(slice_range(name, i + 1, name.len())))
            }
        },
    }
}

/// The name of an archive of the log file `file_name`: the stem, the date,
/// the index, and the extension where there is one.
pub open spec fn archived_name_spec(file_name: Seq<char>, date: Seq<char>, index: usize) -> Seq<char> {
    let (stem, ext) = stem_and_extension(file_name);
    let base = stem + "."@ + date + "."@ + decimal(index as nat);
    match ext {
        Some(e) => base + "."@ + e,
        None => base,
    }
}

/// The file name of archive number `index` of date `date` of the log file at
/// `path`; an error when the path has no file name.
pub fn archived_log_file_name(path: &str, date: &str, index: usize) -> (r: Result<String, String>)
    ensures
        match path_file_name(path@) {
            Some(n) => r matches Ok(s) && s@ == archived_name_spec(n, date@, index),
            None => r matches Err(m) && m@ == "log path '"@ + path@ + "' must include a file name"@,
        },
{
    match file_name_of(path) {
        None => {
            let mut m = crate::text::string_from_str("log path '");
            crate::text::push_str(&mut m, path);
            crate::text::push_str(&mut m, "' must include a file name");
            Err(m)
        },
        Some(name) => {
            let chars = chars_of(name.as_str());
            let (stem, ext) = split_stem(chars.as_slice());
            let mut s = string_from_chars(stem.as_slice());
            crate::text::push_str(&mut s, ".");
            crate::text::push_str(&mut s, date);
            crate::text::push_str(&mut s, ".");
            crate::text::push_str(&mut s, crate::text::decimal_string(index as u64).as_str());
            match ext {
                Some(e) => {
                    crate::text::push_str(&mut s, ".");
                    crate::text::push_chars(&mut s, e.as_slice());
                },
                None => {},
            }
            Ok(s)
        },
    }
}

/// Whether every character is a digit or, where `dash` holds, a hyphen.
pub open spec fn all_digits_or(s: Seq<char>, dash: bool) -> bool {
    forall|k: int| 0 <= k < s.len() ==> (crate::text::is_digit(#[trigger] s[k]) || (dash && s[k] == '-'))
}

/// Whether what is left of an archive name between the stem and the
/// extension is a date (digits and hyphens) and an index (digits), joined by
/// one dot.
pub open spec fn date_and_index(core: Seq<char>) -> bool {
    match first_index(core, '.', 0) {
        None => false,
        Some(j) => {
            let date = core.take(j);
            let index = core.skip(j + 1);
            &&& !index.contains('.')
            &&& date.len() > 0
            &&& all_digits_or(date, true)
            &&& index.len() > 0
            &&& all_digits_or(index, false)
        },
    }
}

/// Whether `candidate` names an archive of the log file named `active`.
pub open spec fn archived_name_matches(active: Seq<char>, candidate: Seq<char>) -> bool {
    let (stem, ext) = stem_and_extension(active);
    let prefix = stem + "."@;
    if !crate::text::seq_starts_with(candidate, prefix) {
        false
    } else {
        let rest = candidate.skip(prefix.len() as int);
        match ext {
            None => date_and_index(rest),
            Some(e) => {
                let suffix = "."@ + e;
                crate::text::seq_ends_with(rest, suffix) && date_and_index(
                    rest.take(rest.len() - suffix.len()),
                )
            },
        }
    }
}

fn all_digits_or_dash(s: &[char], dash: bool) -> (b: bool)
    ensures
        b == all_digits_or(s@, dash),
{
    let mut i: usize = 0;
    while i < s.len()
        invariant
            i <= s@.len(),
            all_digits_or(s@.take(i as int), dash),
        decreases s@.len() - i,
    {
        let c = s[i];
        if !(('0' <= c && c <= '9') || (dash && c == '-')) {
            return false;
        }
        assert(all_digits_or(s@.take(i + 1), dash)) by {
            assert forall|k: int| 0 <= k < i + 1 implies (crate::text::is_digit(#[trigger] s@.take(i + 1)[k]) || (dash
                && s@.take(i + 1)[k] == '-')) by {
                if k < i {
                    assert(s@.take(i + 1)[k] == s@.take(i as int)[k]);
                }
            }
        }
        i += 1;
    }
    assert(s@.take(i as int) =~= s@);
    true
}

fn is_date_and_index(core: &[char]) -> (b: bool)
    ensures
        b == date_and_index(core@),
{
    proof {
        lemma_first_index(core@, '.', 0);
    }
    match find_char_from(core, '.', 0) {
        None => false,
        Some(j) => {
            assert(j < core.len());
            let date = slice_range(core, 0, j);
            let index = slice_range(core, j + 1, core.len());
            assert(date@ =~= core@.take(j as int));
            assert(index@ =~= core@.skip(j + 1));
            !crate::text::contains_char(index.as_slice(), '.') && date.len() > 0 && all_digits_or_dash(
                date.as_slice(),
                true,
            ) && index.len() > 0 && all_digits_or_dash(index.as_slice(), false)
        },
    }
}

/// Whether the file at `candidate` is an archive of the log file at `active`.
pub fn is_archived_log_path(active: &str, candidate: &str) -> (b: bool)
    ensures
        b == match (path_file_name(active@), path_file_name(candidate@)) {
            (Some(a), Some(c)) => archived_name_matches(a, c),
            _ => false,
        },
{
    let active_name = match file_name_of(active) {
        Some(n) => n,
        None => return false,
    };
    let candidate_name = match file_name_of(candidate) {
        Some(n) => n,
        None => return false,
    };
    let a = chars_of(active_name.as_str());
    let c = chars_of(candidate_name.as_str());
    let (stem, ext) = split_stem(a.as_slice());
    let mut prefix = stem;
    prefix.push('.');
    assert(prefix@ =~= stem_and_extension(a@).0 + "."@) by {
        reveal_strlit(".");
    }
    if !crate::text::starts_with_chars(c.as_slice(), prefix.as_slice()) {
        return false;
    }
    let rest = slice_range(c.as_slice(), prefix.len(), c.len());
    assert(rest@ =~= c@.skip(prefix@.len() as int));
    match ext {
        None => is_date_and_index(rest.as_slice()),
        Some(e) => {
            let mut suffix: Vec<char> = Vec::new();
            suffix.push('.');
            let mut k: usize = 0;
            while k < e.len()
                invariant
                    k <= e@.len(),
                    suffix@ == seq!['.'] + e@.take(k as int),
                decreases e@.len() - k,
            {
                suffix.push(e[k]);
                assert(e@.take(k + 1) =~= e@.take(k as int).push(e@[k as int]));
                assert(suffix@ =~= seq!['.'] + e@.take(k + 1));
                k += 1;
            }
            assert(e@.take(k as int) =~= e@);
            assert(suffix@ =~= "."@ + e@) by {
                reveal_strlit(".");
            }
            if !crate::text::ends_with_chars(rest.as_slice(), suffix.as_slice()) {
                return false;
            }
            let core = slice_range(rest.as_slice(), 0, rest.len() - suffix.len());
            assert(core@ =~= rest@.take(rest@.len() - suffix@.len()));
            is_date_and_index(core.as_slice())
        },
    }
}
} // verus!
