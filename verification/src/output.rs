//! Limiting command output before it is returned to the caller: by leading
//! and trailing lines, then by a total character budget.

use crate::text::{chars_of, decimal, push_chars, push_decimal, push_str, slice_range, string_from_chars};
use vstd::prelude::*;

verus! {

/// The marker that stands for removed characters.
pub const CHAR_TRUNCATION_MARKER: &'static str = "... [truncated] ...";

/// How much of a command's output to return.
#[derive(Debug, Clone, PartialEq, Eq, Structural)]
pub struct OutputRenderOptions {
    head_lines: Option<usize>,
    tail_lines: Option<usize>,
    max_chars: Option<usize>,
}

impl Default for OutputRenderOptions {
    fn default() -> (r: Self)
        ensures
            r.head() is None,
            r.tail() is None,
            r.max() is None,
    {
        OutputRenderOptions { head_lines: None, tail_lines: None, max_chars: None }
    }
}

/// A `u64` limit as a `usize`, saturating at `usize::MAX`.
pub open spec fn saturate(v: u64) -> usize {
    if v <= usize::MAX {
        v as usize
    } else {
        usize::MAX
    }
}

/// The index of the first newline of `s`.
pub open spec fn first_newline(s: Seq<char>) -> Option<int>
    decreases s.len(),
{
    if s.len() == 0 {
        None
    } else if s[0] == '\n' {
        Some(0)
    } else {
        match first_newline(s.drop_first()) {
            Some(i) => Some(i + 1),
            None => None,
        }
    }
}

/// `s` split after each newline; the last piece may lack one, and the empty
/// text has no lines (what `str::split_inclusive('\n')` yields).
pub open spec fn lines_of(s: Seq<char>) -> Seq<Seq<char>>
    decreases s.len(),
{
    if s.len() == 0 {
        Seq::empty()
    } else {
        match first_newline(s) {
            Some(i) => if 0 <= i < s.len() {
                seq![s.take(i + 1)] + lines_of(s.skip(i + 1))
            } else {
                seq![s]
            },
            None => seq![s],
        }
    }
}

/// The concatenation of pieces.
pub open spec fn concat_pieces(pieces: Seq<Seq<char>>) -> Seq<char>
    decreases pieces.len(),
{
    if pieces.len() == 0 {
        Seq::empty()
    } else {
        concat_pieces(pieces.drop_last()) + pieces.last()
    }
}

/// The first `n` characters of `s` (all of `s` when shorter).
pub open spec fn first_chars(s: Seq<char>, n: int) -> Seq<char> {
    if n >= s.len() {
        s
    } else {
        s.take(n)
    }
}

/// The last `n` characters of `s` (all of `s` when shorter).
pub open spec fn last_chars(s: Seq<char>, n: int) -> Seq<char> {
    if n >= s.len() {
        s
    } else {
        s.skip(s.len() - n)
    }
}

/// The number of characters in the truncation marker.
pub open spec fn marker_len() -> int {
    CHAR_TRUNCATION_MARKER@.len() as int
}

/// The first `head` and last `tail` lines with a note of how many lines lie between.
pub open spec fn head_and_tail(lines: Seq<Seq<char>>, head: int, tail: int) -> Seq<char> {
    concat_pieces(lines.take(head)) + "... ["@ + decimal((lines.len() - head - tail) as nat)
        + " lines omitted] ...\n"@ + concat_pieces(lines.skip(lines.len() - tail))
}

impl OutputRenderOptions {
    pub closed spec fn head(&self) -> Option<usize> {
        self.head_lines
    }

    pub closed spec fn tail(&self) -> Option<usize> {
        self.tail_lines
    }

    pub closed spec fn max(&self) -> Option<usize> {
        self.max_chars
    }

    /// Whether a head limit of at least one line is set.
    pub open spec fn has_head(&self) -> bool {
        self.head() matches Some(h) && h > 0
    }

    /// Whether a tail limit of at least one line is set.
    pub open spec fn has_tail(&self) -> bool {
        self.tail() matches Some(t) && t > 0
    }

    /// The text after the line limits.
    pub open spec fn line_limited(&self, text: Seq<char>) -> Seq<char> {
        let lines = lines_of(text);
        if !self.has_head() && !self.has_tail() {
            if self.head() is Some || self.tail() is Some {
                Seq::empty()
            } else {
                text
            }
        } else if self.has_head() && self.has_tail() {
            let h = self.head()->0 as int;
            let t = self.tail()->0 as int;
            if h + t >= lines.len() {
                text
            } else {
                head_and_tail(lines, h, t)
            }
        } else if self.has_head() {
            let h = self.head()->0 as int;
            concat_pieces(if h >= lines.len() { lines } else { lines.take(h) })
        } else {
            let t = self.tail()->0 as int;
            concat_pieces(if t >= lines.len() { lines } else { lines.skip(lines.len() - t) })
        }
    }

    /// The text after the character budget.
    pub open spec fn char_limited(&self, text: Seq<char>) -> Seq<char> {
        match self.max() {
            None => text,
            Some(m) => if text.len() <= m {
                text
            } else if m <= marker_len() {
                if !self.has_head() && self.has_tail() {
                    last_chars(text, m as int)
                } else {
                    first_chars(text, m as int)
                }
            } else {
                let keep = m - marker_len();
                if !self.has_head() && self.has_tail() {
                    CHAR_TRUNCATION_MARKER@ + last_chars(text, keep)
                } else if self.has_head() && !self.has_tail() {
                    first_chars(text, keep) + CHAR_TRUNCATION_MARKER@
                } else {
                    first_chars(text, keep / 2) + CHAR_TRUNCATION_MARKER@ + last_chars(
                        text,
                        keep - keep / 2,
                    )
                }
            },
        }
    }

    /// What `apply` returns.
    pub open spec fn rendered(&self, text: Seq<char>) -> Seq<char> {
        self.char_limited(self.line_limited(text))
    }

    /// Options from the request's limits; a character budget of zero means
    /// no budget, and line limits of zero are kept (they select nothing).
    pub fn new(head_lines: Option<u64>, tail_lines: Option<u64>, max_chars: Option<u64>) -> (r: Self)
        ensures
            r.head() == match head_lines {
                Some(h) => Some(saturate(h)),
                None => None::<usize>,
            },
            r.tail() == match tail_lines {
                Some(t) => Some(saturate(t)),
                None => None::<usize>,
            },
            r.max() == match max_chars {
                Some(m) => if m > 0 {
                    Some(saturate(m))
                } else {
                    None::<usize>
                },
                None => None::<usize>,
            },
    {
        OutputRenderOptions {
            head_lines: normalize_line_limit(head_lines),
            tail_lines: normalize_line_limit(tail_lines),
            max_chars: match max_chars {
                Some(m) => if m > 0 {
                    Some(saturating_u64_to_usize(m))
                } else {
                    None
                },
                None => None,
            },
        }
    }

    /// Applies the line limits, then the character budget.
    pub fn apply(&self, text: String) -> (r: String)
        ensures
            r@ == self.rendered(text@),
    {
        let chars = chars_of(text.as_str());
        let limited = self.apply_line_limits(&chars);
        let out = self.apply_char_limit(&limited);
        string_from_chars(out.as_slice())
    }

    fn apply_line_limits(&self, text: &Vec<char>) -> (r: Vec<char>)
        ensures
            r@ == self.line_limited(text@),
    {
        let head = match self.head_lines {
            Some(h) => if h > 0 {
                Some(h)
            } else {
                None
            },
            None => None,
        };
        let tail = match self.tail_lines {
            Some(t) => if t > 0 {
                Some(t)
            } else {
                None
            },
            None => None,
        };
        if head.is_none() && tail.is_none() {
            if self.head_lines.is_some() || self.tail_lines.is_some() {
                return Vec::new();
            }
            return slice_range(text.as_slice(), 0, text.len());
        }
        let lines = split_lines(text);
        let ghost lv = lines@.map_values(|l: Vec<char>| l@);
        match (head, tail) {
            (Some(h), Some(t)) => {
                if h >= lines.len() || t >= lines.len() - h {
                    return slice_range(text.as_slice(), 0, text.len());
                }
                render_head_and_tail(&lines, h, t)
            },
            (Some(h), None) => {
                let end = if h >= lines.len() { lines.len() } else { h };
                let r = concat_range(&lines, 0, end);
                proof {
                    if h >= lines.len() {
                        assert(lv.subrange(0, end as int) =~= lv);
                    } else {
                        assert(lv.subrange(0, end as int) =~= lv.take(h as int));
                    }
                }
                r
            },
            (None, Some(t)) => {
                let start = if t >= lines.len() { 0 } else { lines.len() - t };
                let r = concat_range(&lines, start, lines.len());
                proof {
                    if t >= lines.len() {
                        assert(lv.subrange(0, lv.len() as int) =~= lv);
                    } else {
                        assert(lv.subrange(start as int, lv.len() as int) =~= lv.skip(lv.len() - t));
                    }
                }
                r
            },
            (None, None) => slice_range(text.as_slice(), 0, text.len()),
        }
    }

    fn apply_char_limit(&self, text: &Vec<char>) -> (r: Vec<char>)
        ensures
            r@ == self.char_limited(text@),
    {
        let max = match self.max_chars {
            None => return slice_range(text.as_slice(), 0, text.len()),
            Some(m) => m,
        };
        if text.len() <= max {
            return slice_range(text.as_slice(), 0, text.len());
        }
        let has_head = match self.head_lines {
            Some(h) => h > 0,
            None => false,
        };
        let has_tail = match self.tail_lines {
            Some(t) => t > 0,
            None => false,
        };
        if !has_head && has_tail {
            truncate_tail_chars(text, max)
        } else if has_head && !has_tail {
            truncate_head_chars(text, max)
        } else {
            truncate_middle_chars(text, max)
        }
    }
}

fn normalize_line_limit(limit: Option<u64>) -> (r: Option<usize>)
    ensures
        r == match limit {
            Some(h) => Some(saturate(h)),
            None => None::<usize>,
        },
{
    match limit {
        Some(h) => Some(saturating_u64_to_usize(h)),
        None => None,
    }
}

/// A `u64` as a `usize`, saturating at `usize::MAX`.
pub fn saturating_u64_to_usize(value: u64) -> (r: usize)
    ensures
        r == saturate(value),
{
    if value <= usize::MAX as u64 {
        value as usize
    } else {
        usize::MAX
    }
}

proof fn lemma_first_newline_concat(a: Seq<char>, b: Seq<char>)
    requires
        !a.contains('\n'),
    ensures
        first_newline(a + b) == match first_newline(b) {
            Some(i) => Some(a.len() + i),
            None => None::<int>,
        },
    decreases a.len(),
{
    if a.len() == 0 {
        assert(a + b =~= b);
    } else {
        assert(a[0] != '\n');
        assert((a + b).drop_first() =~= a.drop_first() + b);
        assert(!a.drop_first().contains('\n')) by {
            if a.drop_first().contains('\n') {
                let k = choose|k: int| 0 <= k < a.drop_first().len() && a.drop_first()[k] == '\n';
                assert(a[k + 1] == '\n');
            }
        }
        lemma_first_newline_concat(a.drop_first(), b);
    }
}

proof fn lemma_first_newline_bound(s: Seq<char>)
    ensures
        first_newline(s) matches Some(i) ==> 0 <= i < s.len() && s[i] == '\n',
        first_newline(s) is None ==> !s.contains('\n'),
    decreases s.len(),
{
    if s.len() > 0 && s[0] != '\n' {
        lemma_first_newline_bound(s.drop_first());
        if first_newline(s) is None && s.contains('\n') {
            let k = choose|k: int| 0 <= k < s.len() && s[k] == '\n';
            assert(s.drop_first()[k - 1] == '\n');
        }
    }
}

fn split_lines(text: &Vec<char>) -> (lines: Vec<Vec<char>>)
    ensures
        lines@.map_values(|l: Vec<char>| l@) == lines_of(text@),
{
    let mut lines: Vec<Vec<char>> = Vec::new();
    let mut current: Vec<char> = Vec::new();
    let mut i: usize = 0;
    assert(text@.skip(0) =~= text@);
    assert(current@ + text@.skip(0) =~= text@);
    assert(lines@.map_values(|l: Vec<char>| l@) =~= Seq::<Seq<char>>::empty());
    while i < text.len()
        invariant
            i <= text@.len(),
            !current@.contains('\n'),
            lines_of(text@) == lines@.map_values(|l: Vec<char>| l@) + lines_of(current@ + text@.skip(i as int)),
        decreases text@.len() - i,
    {
        let c = text[i];
        let ghost rest = current@ + text@.skip(i as int);
        proof {
            lemma_first_newline_concat(current@, text@.skip(i as int));
            assert(text@.skip(i as int)[0] == c);
        }
        if c == '\n' {
            current.push('\n');
            let mut piece: Vec<char> = Vec::new();
            std::mem::swap(&mut piece, &mut current);
            let ghost before = lines@.map_values(|l: Vec<char>| l@);
            lines.push(piece);
            proof {
                let k = piece@.len() - 1;
                assert(first_newline(rest) == Some(k));
                assert(rest.take(k + 1) =~= piece@);
                assert(rest.skip(k + 1) =~= text@.skip(i + 1));
                assert(lines_of(rest) == seq![piece@] + lines_of(text@.skip(i + 1)));
                assert(lines@.map_values(|l: Vec<char>| l@) =~= before.push(piece@));
                assert(current@ + text@.skip(i + 1) =~= text@.skip(i + 1));
                assert(before + (seq![piece@] + lines_of(text@.skip(i + 1))) =~= before.push(piece@)
                    + lines_of(text@.skip(i + 1)));
            }
        } else {
            let ghost old_current = current@;
            current.push(c);
            proof {
                assert(current@ + text@.skip(i + 1) =~= rest);
                assert(!current@.contains('\n')) by {
                    if current@.contains('\n') {
                        let k = choose|k: int| 0 <= k < current@.len() && current@[k] == '\n';
                        if k < old_current.len() {
                            assert(old_current[k] == '\n');
                        }
                    }
                }
            }
        }
        i += 1;
    }
    proof {
        assert(current@ + text@.skip(i as int) =~= current@);
        lemma_first_newline_bound(current@);
    }
    if current.len() > 0 {
        let ghost before = lines@.map_values(|l: Vec<char>| l@);
        let ghost cur = current@;
        lines.push(current);
        proof {
            assert(lines_of(cur) == seq![cur]);
            assert(lines@.map_values(|l: Vec<char>| l@) =~= before + seq![cur]);
        }
    } else {
        proof {
            assert(lines_of(current@) =~= Seq::<Seq<char>>::empty());
            assert(lines@.map_values(|l: Vec<char>| l@) + Seq::<Seq<char>>::empty() =~= lines@.map_values(
                |l: Vec<char>| l@,
            ));
        }
    }
    lines
}

fn concat_range(lines: &Vec<Vec<char>>, start: usize, end: usize) -> (r: Vec<char>)
    requires
        start <= end <= lines@.len(),
    ensures
        r@ == concat_pieces(lines@.map_values(|l: Vec<char>| l@).subrange(start as int, end as int)),
{
    let ghost lv = lines@.map_values(|l: Vec<char>| l@);
    let mut out: Vec<char> = Vec::new();
    let mut k = start;
    assert(lv.subrange(start as int, start as int) =~= Seq::<Seq<char>>::empty());
    while k < end
        invariant
            start <= k <= end <= lines@.len(),
            lv == lines@.map_values(|l: Vec<char>| l@),
            out@ == concat_pieces(lv.subrange(start as int, k as int)),
        decreases end - k,
    {
        let mut j: usize = 0;
        let ghost base = out@;
        while j < lines[k].len()
            invariant
                k < lines@.len(),
                j <= lines@[k as int]@.len(),
                out@ == base + lines@[k as int]@.take(j as int),
            decreases lines@[k as int]@.len() - j,
        {
            out.push(lines[k][j]);
            assert(lines@[k as int]@.take(j + 1) =~= lines@[k as int]@.take(j as int).push(
                lines@[k as int]@[j as int],
            ));
            j += 1;
        }
        proof {
            assert(lines@[k as int]@.take(j as int) =~= lines@[k as int]@);
            let sub = lv.subrange(start as int, k + 1);
            assert(sub.drop_last() =~= lv.subrange(start as int, k as int));
            assert(sub.last() == lv[k as int]);
        }
        k += 1;
    }
    out
}

fn render_head_and_tail(lines: &Vec<Vec<char>>, head: usize, tail: usize) -> (r: Vec<char>)
    requires
        head + tail < lines@.len(),
    ensures
        r@ == head_and_tail(lines@.map_values(|l: Vec<char>| l@), head as int, tail as int),
{
    let ghost lv = lines@.map_values(|l: Vec<char>| l@);
    let omitted = lines.len() - (head + tail);
    let first = concat_range(lines, 0, head);
    let last = concat_range(lines, lines.len() - tail, lines.len());
    let mut s = String::new();
    push_chars(&mut s, first.as_slice());
    push_str(&mut s, "... [");
    push_decimal(&mut s, omitted as u64);
    push_str(&mut s, " lines omitted] ...\n");
    push_chars(&mut s, last.as_slice());
    proof {
        assert(lv.subrange(0, head as int) =~= lv.take(head as int));
        assert(lv.subrange(lv.len() - tail, lv.len() as int) =~= lv.skip(lv.len() - tail));
        assert(s@ =~= head_and_tail(lv, head as int, tail as int));
    }
    chars_of(s.as_str())
}

fn take_first_chars(text: &Vec<char>, count: usize) -> (r: Vec<char>)
    ensures
        r@ == first_chars(text@, count as int),
{
    if count >= text.len() {
        slice_range(text.as_slice(), 0, text.len())
    } else {
        slice_range(text.as_slice(), 0, count)
    }
}

fn take_last_chars(text: &Vec<char>, count: usize) -> (r: Vec<char>)
    ensures
        r@ == last_chars(text@, count as int),
{
    if count >= text.len() {
        slice_range(text.as_slice(), 0, text.len())
    } else {
        let r = slice_range(text.as_slice(), text.len() - count, text.len());
        assert(r@ =~= text@.skip(text@.len() - count));
        r
    }
}

fn marker_chars() -> (m: Vec<char>)
    ensures
        m@ == CHAR_TRUNCATION_MARKER@,
        m@.len() == 19,
{
    proof {
        reveal_strlit("... [truncated] ...");
    }
    chars_of(CHAR_TRUNCATION_MARKER)
}

fn join3(a: &Vec<char>, b: &Vec<char>, c: &Vec<char>) -> (r: Vec<char>)
    ensures
        r@ == a@ + b@ + c@,
{
    let mut s = String::new();
    push_chars(&mut s, a.as_slice());
    push_chars(&mut s, b.as_slice());
    push_chars(&mut s, c.as_slice());
    assert(s@ =~= a@ + b@ + c@);
    chars_of(s.as_str())
}

fn truncate_head_chars(text: &Vec<char>, max: usize) -> (r: Vec<char>)
    ensures
        r@ == if max <= marker_len() {
            first_chars(text@, max as int)
        } else {
            first_chars(text@, max - marker_len()) + CHAR_TRUNCATION_MARKER@
        },
{
    let marker = marker_chars();
    if max <= marker.len() {
        return take_first_chars(text, max);
    }
    let kept = take_first_chars(text, max - marker.len());
    let empty: Vec<char> = Vec::new();
    let r = join3(&kept, &marker, &empty);
    assert(r@ =~= kept@ + marker@);
    r
}

fn truncate_tail_chars(text: &Vec<char>, max: usize) -> (r: Vec<char>)
    ensures
        r@ == if max <= marker_len() {
            last_chars(text@, max as int)
        } else {
            CHAR_TRUNCATION_MARKER@ + last_chars(text@, max - marker_len())
        },
{
    let marker = marker_chars();
    if max <= marker.len() {
        return take_last_chars(text, max);
    }
    let kept = take_last_chars(text, max - marker.len());
    let empty: Vec<char> = Vec::new();
    let r = join3(&empty, &marker, &kept);
    assert(r@ =~= marker@ + kept@);
    r
}

fn truncate_middle_chars(text: &Vec<char>, max: usize) -> (r: Vec<char>)
    ensures
        r@ == if max <= marker_len() {
            first_chars(text@, max as int)
        } else {
            first_chars(text@, (max - marker_len()) / 2) + CHAR_TRUNCATION_MARKER@ + last_chars(
                text@,
                (max - marker_len()) - (max - marker_len()) / 2,
            )
        },
{
    let marker = marker_chars();
    if max <= marker.len() {
        return take_first_chars(text, max);
    }
    let keep = max - marker.len();
    let head = keep / 2;
    let tail = keep - head;
    let first = take_first_chars(text, head);
    let last = take_last_chars(text, tail);
    join3(&first, &marker, &last)
}

/// The truncation marker is nineteen characters long.
pub proof fn lemma_marker_len()
    ensures
        marker_len() == 19,
{
    reveal_strlit("... [truncated] ...");
}

/// The character budget: text within it is kept whole; longer text is cut to
/// exactly the budget. When the budget leaves room for the marker, a head-only
/// line limit keeps the start, a tail-only one the end, and otherwise the
/// budget is split around the middle: the first half of what is kept, the
/// marker, then the rest from the end, so the text's last characters survive.
pub proof fn lemma_char_budget(o: OutputRenderOptions, text: Seq<char>)
    ensures
        ({
            let lines = o.line_limited(text);
            let out = o.rendered(text);
            let marker = "... [truncated] ..."@;
            match o.max() {
                None => out == lines,
                Some(m) => {
                    let m = m as int;
                    let keep = m - 19;
                    &&& lines.len() <= m ==> out == lines
                    &&& lines.len() > m ==> out.len() == m
                    &&& lines.len() > m && m > 19 && !o.has_head() && o.has_tail() ==> out == marker
                        + lines.skip(lines.len() - keep)
                    &&& lines.len() > m && m > 19 && o.has_head() && !o.has_tail() ==> out
                        == lines.take(keep) + marker
                    &&& lines.len() > m && m > 19 && o.has_head() == o.has_tail() ==> out
                        == lines.take(keep / 2) + marker + lines.skip(lines.len() - (keep - keep / 2))
                    &&& lines.len() > m && m > 19 && o.has_head() == o.has_tail() ==> out.last()
                        == lines.last()
                    &&& lines.len() > m && m <= 19 && !o.has_head() && o.has_tail() ==> out
                        == lines.skip(lines.len() - m)
                    &&& lines.len() > m && m <= 19 && !(!o.has_head() && o.has_tail()) ==> out
                        == lines.take(m)
                },
            }
        }),
{
    lemma_marker_len();
    reveal_strlit("... [truncated] ...");
    let lines = o.line_limited(text);
    if o.max() is Some {
        let m = o.max()->0 as int;
        let keep = m - 19;
        if lines.len() > m && m > 19 && o.has_head() == o.has_tail() {
            let out = o.rendered(text);
            let tail = lines.skip(lines.len() - (keep - keep / 2));
            assert(keep - keep / 2 >= 1);
            assert(out =~= lines.take(keep / 2) + "... [truncated] ..."@ + tail);
            assert(out.last() == tail.last());
        }
    }
}

} // verus!
