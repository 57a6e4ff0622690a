//! Editing the configuration file from the web console's form.
//!
//! The file is edited line by line so that comments, key order and layout
//! survive: a scalar setting is rewritten in place (keeping any inline
//! comment), a missing one is inserted under its section, and a collection is
//! replaced by a YAML block. Collections arrive already written as YAML; the
//! program serialises them and reads and writes the file.

use vstd::prelude::*;
use crate::config::{AppConfig, ConfigError, ResolvedConfigPath};
use crate::ssh::trim_line_ends;
use crate::text::{
    chars_equal, chars_of, decimal, first_index, is_white_space, is_whitespace, lemma_first_index,
    leading_space_len, push_chars, push_decimal, slice_range, string_from_chars, string_from_str,
    trim_end_seq, trim_seq, trim_start_seq, trimmed_end_len,
};

verus! {

// ---------------------------------------------------------------------------
// Lines
// ---------------------------------------------------------------------------

/// The text cut after each line feed (what `split_inclusive('\n')` yields).
pub open spec fn split_lines(s: Seq<char>) -> Seq<Seq<char>>
    decreases s.len(),
{
    if s.len() == 0 {
        Seq::empty()
    } else {
        match first_index(s, '\n', 0) {
            None => seq![s],
            Some(i) => {
                proof {
                    lemma_first_index(s, '\n', 0);
                }
                seq![s.subrange(0, i + 1)] + split_lines(s.subrange(i + 1, s.len() as int))
            },
        }
    }
}

/// The lines written one after another.
pub open spec fn concat_lines(ls: Seq<Seq<char>>) -> Seq<char>
    decreases ls.len(),
{
    if ls.len() == 0 {
        Seq::empty()
    } else {
        concat_lines(ls.drop_last()) + ls.last()
    }
}

/// Cutting a text into lines and writing them back gives the text.
pub proof fn lemma_split_concat(s: Seq<char>)
    ensures
        concat_lines(split_lines(s)) == s,
    decreases s.len(),
{
    if s.len() > 0 {
        lemma_first_index(s, '\n', 0);
        match first_index(s, '\n', 0) {
            None => {
                assert(seq![s].drop_last() =~= Seq::<Seq<char>>::empty());
                assert(concat_lines(Seq::<Seq<char>>::empty()) =~= Seq::<char>::empty());
                assert(Seq::<char>::empty() + s =~= s);
                assert(concat_lines(seq![s]) =~= s);
            },
            Some(i) => {
                let head = s.subrange(0, i + 1);
                let rest = s.subrange(i + 1, s.len() as int);
                lemma_split_concat(rest);
                lemma_concat_prepend(head, split_lines(rest));
                assert(head + rest =~= s);
            },
        }
    }
}

/// Writing a line before others puts its text first.
proof fn lemma_concat_prepend(head: Seq<char>, ls: Seq<Seq<char>>)
    ensures
        concat_lines(seq![head] + ls) == head + concat_lines(ls),
    decreases ls.len(),
{
    if ls.len() == 0 {
        assert(seq![head] + ls =~= seq![head]);
        assert(seq![head].drop_last() =~= Seq::<Seq<char>>::empty());
        assert(head + Seq::<char>::empty() =~= head);
        assert(concat_lines(Seq::<Seq<char>>::empty()) =~= Seq::<char>::empty());
        assert(Seq::<char>::empty() + head =~= head);
        assert(concat_lines(seq![head]) =~= head);
    } else {
        lemma_concat_prepend(head, ls.drop_last());
        assert((seq![head] + ls).drop_last() =~= seq![head] + ls.drop_last());
        assert(head + concat_lines(ls) =~= head + concat_lines(ls.drop_last()) + ls.last());
    }
}

/// Cuts a text after each line feed.
pub fn split_lines_exec(s: &str) -> (lines: Vec<Vec<char>>)
    ensures
        lines_view(lines@) == split_lines(s@),
{
    let c = chars_of(s);
    let n = c.len();
    let mut lines: Vec<Vec<char>> = Vec::new();
    let mut start: usize = 0;
    assert(c@.subrange(0, n as int) =~= c@);
    while start < n
        invariant
            start <= n == c@.len(),
            c@ == s@,
            split_lines(c@) == lines_view(lines@) + split_lines(c@.subrange(start as int, n as int)),
        decreases n - start,
    {
        let ghost rest = c@.subrange(start as int, n as int);
        let mut j: usize = start;
        while j < n && c[j] != '\n'
            invariant
                start <= j <= n == c@.len(),
                forall|k: int| start <= k < j ==> c@[k] != '\n',
            decreases n - j,
        {
            j += 1;
        }
        proof {
            lemma_first_index(rest, '\n', 0);
            if j < n {
                assert(rest[j - start] == '\n');
                lemma_first_from_gap(rest, '\n', (j - start) as int);
            } else {
                assert forall|k: int| 0 <= k < rest.len() implies rest[k] != '\n' by {
                    assert(rest[k] == c@[start + k]);
                }
                lemma_first_none(rest, '\n');
            }
        }
        let end = if j < n {
            j + 1
        } else {
            n
        };
        let ghost before = lines_view(lines@);
        lines.push(slice_range(c.as_slice(), start, end));
        proof {
            assert(lines_view(lines@) =~= before.push(c@.subrange(start as int, end as int)));
            assert(rest.subrange(0, end - start) =~= c@.subrange(start as int, end as int));
            assert(rest.subrange(end - start, rest.len() as int) =~= c@.subrange(end as int, n as int));
            if j >= n {
                assert(c@.subrange(end as int, n as int) =~= Seq::<char>::empty());
                assert(split_lines(rest) =~= seq![rest]);
            }
            assert(before + split_lines(rest) =~= before.push(c@.subrange(start as int, end as int))
                + split_lines(c@.subrange(end as int, n as int)));
        }
        start = end;
    }
    proof {
        assert(split_lines(c@.subrange(start as int, n as int)) =~= Seq::<Seq<char>>::empty());
        assert(lines_view(lines@) + Seq::<Seq<char>>::empty() =~= lines_view(lines@));
    }
    lines
}

/// When everything before `j` differs from `c` and `s[j] == c`, the first
/// occurrence of `c` is at `j`.
proof fn lemma_first_from_gap(s: Seq<char>, c: char, j: int)
    requires
        0 <= j < s.len(),
        s[j] == c,
        forall|k: int| 0 <= k < j ==> s[k] != c,
    ensures
        first_index(s, c, 0) == Some(j),
{
    lemma_first_at(s, c, 0, j);
}

proof fn lemma_first_at(s: Seq<char>, c: char, from: int, j: int)
    requires
        0 <= from <= j < s.len(),
        s[j] == c,
        forall|k: int| from <= k < j ==> s[k] != c,
    ensures
        first_index(s, c, from) == Some(j),
    decreases j - from,
{
    if from < j {
        lemma_first_at(s, c, from + 1, j);
    }
}

/// When `c` does not occur in `s`, `first_index` finds nothing.
proof fn lemma_first_none(s: Seq<char>, c: char)
    requires
        forall|k: int| 0 <= k < s.len() ==> s[k] != c,
    ensures
        first_index(s, c, 0) is None,
{
    lemma_first_none_from(s, c, 0);
}

proof fn lemma_first_none_from(s: Seq<char>, c: char, from: int)
    requires
        0 <= from,
        forall|k: int| from <= k < s.len() ==> s[k] != c,
    ensures
        first_index(s, c, from) is None,
    decreases s.len() - from,
{
    if from < s.len() {
        lemma_first_none_from(s, c, from + 1);
    }
}

/// The lines by view.
pub open spec fn lines_view(lines: Seq<Vec<char>>) -> Seq<Seq<char>> {
    lines.map_values(|l: Vec<char>| l@)
}

/// Writes the lines one after another.
pub fn concat_exec(lines: &Vec<Vec<char>>) -> (s: String)
    ensures
        s@ == concat_lines(lines_view(lines@)),
{
    let mut s = String::new();
    let mut i: usize = 0;
    while i < lines.len()
        invariant
            i <= lines@.len(),
            s@ == concat_lines(lines_view(lines@.take(i as int))),
        decreases lines@.len() - i,
    {
        push_chars(&mut s, lines[i].as_slice());
        proof {
            let t = lines_view(lines@.take(i + 1));
            assert(t.drop_last() =~= lines_view(lines@.take(i as int)));
            assert(t.last() == lines@[i as int]@);
        }
        i += 1;
    }
    assert(lines@.take(i as int) =~= lines@);
    s
}

// ---------------------------------------------------------------------------
// Mapping keys
// ---------------------------------------------------------------------------

/// A space or a tab.
pub open spec fn is_indent_char(c: char) -> bool {
    c == ' ' || c == '\t'
}

/// `s` without its leading spaces and tabs.
pub open spec fn skip_indent(s: Seq<char>) -> Seq<char>
    decreases s.len(),
{
    if s.len() > 0 && is_indent_char(s[0]) {
        skip_indent(s.drop_first())
    } else {
        s
    }
}

/// The mapping key a line opens, if it opens one: its indentation, the key
/// and the position of its colon.
pub open spec fn mapping_key_spec(line: Seq<char>) -> Option<(nat, Seq<char>, nat)> {
    let content = trim_line_ends(line);
    let trimmed = skip_indent(content);
    if trimmed.len() == 0 || trimmed[0] == '#' || trimmed[0] == '-' {
        None
    } else {
        let indent = content.len() - trimmed.len();
        match first_index(trimmed, ':', 0) {
            None => None,
            Some(c) => {
                let key = trim_seq(trimmed.subrange(0, c));
                if key.len() == 0 || key.contains('"') || key.contains('\'') {
                    None
                } else {
                    Some((indent as nat, key, (indent + c) as nat))
                }
            },
        }
    }
}

/// The length of a line without its trailing carriage returns and line feeds.
pub fn content_len(line: &[char]) -> (n: usize)
    ensures
        n <= line@.len(),
        line@.subrange(0, n as int) == trim_line_ends(line@),
{
    let mut n: usize = line.len();
    assert(line@.subrange(0, n as int) =~= line@);
    while n > 0 && (line[n - 1] == '\r' || line[n - 1] == '\n')
        invariant
            n <= line@.len(),
            trim_line_ends(line@) == trim_line_ends(line@.subrange(0, n as int)),
        decreases n,
    {
        proof {
            assert(line@.subrange(0, n as int).drop_last() =~= line@.subrange(0, n - 1));
        }
        n -= 1;
    }
    n
}

/// The mapping key a line opens.
pub fn mapping_key(line: &[char]) -> (r: Option<(usize, Vec<char>, usize)>)
    ensures
        match (r, mapping_key_spec(line@)) {
            (Some((i, k, c)), Some((si, sk, sc))) => i == si && k@ == sk && c == sc && c
                < trim_line_ends(line@).len(),
            (None, None) => true,
            _ => false,
        },
{
    let n = content_len(line);
    let ghost content = line@.subrange(0, n as int);
    let mut i: usize = 0;
    assert(content.subrange(0, n as int) =~= content);
    while i < n && (line[i] == ' ' || line[i] == '\t')
        invariant
            i <= n <= line@.len(),
            content == line@.subrange(0, n as int),
            skip_indent(content) == skip_indent(content.subrange(i as int, n as int)),
        decreases n - i,
    {
        proof {
            assert(content.subrange(i as int, n as int).drop_first() =~= content.subrange(
                i + 1,
                n as int,
            ));
        }
        i += 1;
    }
    let ghost trimmed = content.subrange(i as int, n as int);
    assert(skip_indent(content) == trimmed);
    if i == n || line[i] == '#' || line[i] == '-' {
        return None;
    }
    let mut c: usize = i;
    while c < n && line[c] != ':'
        invariant
            i <= c <= n <= line@.len(),
            forall|k: int| i <= k < c ==> line@[k] != ':',
        decreases n - c,
    {
        c += 1;
    }
    proof {
        if c < n {
            assert forall|k: int| 0 <= k < c - i implies trimmed[k] != ':' by {
                assert(trimmed[k] == line@[i + k]);
            }
            lemma_first_from_gap(trimmed, ':', c - i);
        } else {
            assert forall|k: int| 0 <= k < trimmed.len() implies trimmed[k] != ':' by {
                assert(trimmed[k] == line@[i + k]);
            }
            lemma_first_none(trimmed, ':');
        }
    }
    if c == n {
        return None;
    }
    let raw_key = slice_range(line, i, c);
    proof {
        assert(raw_key@ =~= trimmed.subrange(0, c - i));
    }
    let key_text = string_from_chars(raw_key.as_slice());
    let key = crate::text::trimmed_chars(key_text.as_str());
    if key.len() == 0 || crate::text::contains_char(key.as_slice(), '"')
        || crate::text::contains_char(key.as_slice(), '\'') {
        return None;
    }
    Some((i, key, c))
}

// ---------------------------------------------------------------------------
// Inline comments and scalar values
// ---------------------------------------------------------------------------

/// Scans `content` from `i` for a `#` that starts a comment: outside quotes,
/// at `start` or after white space. Inside double quotes a backslash escapes
/// the next character.
pub open spec fn comment_scan(
    content: Seq<char>,
    start: int,
    i: int,
    quote: Option<char>,
    escaped: bool,
) -> Option<int>
    decreases content.len() - i,
{
    if i < 0 || i >= content.len() {
        None
    } else {
        let c = content[i];
        if escaped {
            comment_scan(content, start, i + 1, quote, false)
        } else {
            match quote {
                Some(q) => if q == '"' && c == '\\' {
                    comment_scan(content, start, i + 1, quote, true)
                } else if q == c {
                    comment_scan(content, start, i + 1, None, false)
                } else {
                    comment_scan(content, start, i + 1, quote, false)
                },
                None => if c == '"' || c == '\'' {
                    comment_scan(content, start, i + 1, Some(c), false)
                } else if c == '#' && (i == start || (i > 0 && is_white_space(content[i - 1]))) {
                    Some(i)
                } else {
                    comment_scan(content, start, i + 1, None, false)
                },
            }
        }
    }
}

/// Where the inline comment of `content` starts, looking from `start`.
pub open spec fn inline_comment_spec(content: Seq<char>, start: int) -> Option<int> {
    comment_scan(content, start, start, None, false)
}

/// Where the inline comment of `content` starts, looking from `start`.
pub fn find_inline_comment(content: &[char], start: usize) -> (r: Option<usize>)
    ensures
        match inline_comment_spec(content@, start as int) {
            Some(i) => r == Some(i as usize) && start <= i < content@.len(),
            None => r is None,
        },
{
    let mut quote: Option<char> = None;
    let mut escaped = false;
    let mut i: usize = start;
    while i < content.len()
        invariant
            start <= i,
            inline_comment_spec(content@, start as int) == comment_scan(
                content@,
                start as int,
                i as int,
                quote,
                escaped,
            ),
        decreases content@.len() - i,
    {
        let c = content[i];
        if escaped {
            escaped = false;
        } else {
            match quote {
                Some(q) => {
                    if q == '"' && c == '\\' {
                        escaped = true;
                    } else if q == c {
                        quote = None;
                    }
                },
                None => {
                    if c == '"' || c == '\'' {
                        quote = Some(c);
                    } else if c == '#' && (i == start || (i > 0 && is_whitespace(content[i - 1]))) {
                        proof {
                            lemma_comment_scan_bound(content@, start as int, i as int, quote, escaped);
                        }
                        return Some(i);
                    }
                },
            }
        }
        i += 1;
    }
    None
}

/// A comment found from `i` lies at or after `i`.
proof fn lemma_comment_scan_bound(
    content: Seq<char>,
    start: int,
    i: int,
    quote: Option<char>,
    escaped: bool,
)
    ensures
        comment_scan(content, start, i, quote, escaped) matches Some(k) ==> i <= k < content.len(),
    decreases content.len() - i,
{
    if 0 <= i < content.len() {
        let c = content[i];
        lemma_comment_scan_bound(content, start, i + 1, quote, false);
        lemma_comment_scan_bound(content, start, i + 1, quote, true);
        lemma_comment_scan_bound(content, start, i + 1, None, false);
        lemma_comment_scan_bound(content, start, i + 1, Some(c), false);
    }
}

/// The line ending a line carries: `\r\n`, `\n` or none.
pub open spec fn own_line_ending(line: Seq<char>) -> Seq<char> {
    if line.len() >= 2 && line[line.len() - 2] == '\r' && line.last() == '\n' {
        seq!['\r', '\n']
    } else if line.len() >= 1 && line.last() == '\n' {
        seq!['\n']
    } else {
        Seq::empty()
    }
}

/// The line with the value after its colon replaced, keeping the white space
/// before the value (one space when there is none), and the white space
/// before an inline comment together with the comment.
pub open spec fn replace_scalar_spec(line: Seq<char>, colon: int, value: Seq<char>) -> Seq<char> {
    let nl = own_line_ending(line);
    let content = line.subrange(0, line.len() - nl.len());
    let comment_at = inline_comment_spec(content, colon + 1);
    let value_end = match comment_at {
        Some(k) => k,
        None => content.len() as int,
    };
    let comment = match comment_at {
        Some(k) => content.subrange(k, content.len() as int),
        None => Seq::empty(),
    };
    let region = content.subrange(colon + 1, value_end);
    let leading = region.subrange(0, region.len() - trim_start_seq(region).len());
    let trailing = if comment_at is Some {
        region.subrange(trim_end_seq(region).len() as int, region.len() as int)
    } else {
        Seq::empty()
    };
    content.subrange(0, colon + 1) + (if leading.len() == 0 {
        seq![' ']
    } else {
        leading
    }) + value + trailing + comment + nl
}

/// Replaces the value after the colon at `colon`.
#[verifier::rlimit(40)]
pub fn replace_scalar_value(line: &[char], colon: usize, value: &[char]) -> (out: Vec<char>)
    requires
        colon < line@.len() - own_line_ending(line@).len(),
    ensures
        out@ == replace_scalar_spec(line@, colon as int, value@),
{
    let len = line.len();
    let nl_len: usize = if len >= 2 && line[len - 2] == '\r' && line[len - 1] == '\n' {
        2
    } else if len >= 1 && line[len - 1] == '\n' {
        1
    } else {
        0
    };
    let ghost nls = own_line_ending(line@);
    assert(nls.len() == nl_len);
    let content = slice_range(line, 0, len - nl_len);
    let ghost cs = line@.subrange(0, line@.len() - nls.len());
    assert(content@ == cs);
    let comment_at = find_inline_comment(content.as_slice(), colon + 1);
    let value_end = match comment_at {
        Some(k) => k,
        None => content.len(),
    };
    let region = slice_range(content.as_slice(), colon + 1, value_end);
    let lead_len = leading_space_len(region.as_slice());
    let trail_start = trimmed_end_len(region.as_slice());
    let prefix = slice_range(content.as_slice(), 0, colon + 1);
    let lead: Vec<char> = if lead_len == 0 {
        let mut v = Vec::new();
        v.push(' ');
        v
    } else {
        slice_range(region.as_slice(), 0, lead_len)
    };
    let trail: Vec<char> = if comment_at.is_some() {
        slice_range(region.as_slice(), trail_start, region.len())
    } else {
        Vec::new()
    };
    let comment: Vec<char> = if comment_at.is_some() {
        slice_range(content.as_slice(), value_end, content.len())
    } else {
        Vec::new()
    };
    let nl = slice_range(line, len - nl_len, len);
    proof {
        let r = region@;
        assert(r.len() - trim_start_seq(r).len() == lead_len);
        assert(lead@ == (if r.subrange(0, r.len() - trim_start_seq(r).len()).len() == 0 {
            seq![' ']
        } else {
            r.subrange(0, r.len() - trim_start_seq(r).len())
        }));
        assert(trim_end_seq(r).len() == trail_start);
        assert(nl@ =~= nls);
    }
    let mut out = prefix;
    append_chars(&mut out, lead.as_slice());
    append_chars(&mut out, value);
    append_chars(&mut out, trail.as_slice());
    append_chars(&mut out, comment.as_slice());
    append_chars(&mut out, nl.as_slice());
    out
}

/// Appends characters to a character vector.
pub fn append_chars(out: &mut Vec<char>, more: &[char])
    ensures
        final(out)@ == old(out)@ + more@,
{
    let mut i: usize = 0;
    while i < more.len()
        invariant
            i <= more@.len(),
            out@ == old(out)@ + more@.take(i as int),
        decreases more@.len() - i,
    {
        out.push(more[i]);
        assert(more@.take(i + 1) =~= more@.take(i as int).push(more@[i as int]));
        i += 1;
    }
    assert(more@.take(i as int) =~= more@);
}

// ---------------------------------------------------------------------------
// Finding mappings
// ---------------------------------------------------------------------------

/// The open mappings after dropping those indented at least `indent`.
pub open spec fn pop_ge(s: Seq<(nat, Seq<char>)>, indent: nat) -> Seq<(nat, Seq<char>)>
    decreases s.len(),
{
    if s.len() > 0 && s.last().0 >= indent {
        pop_ge(s.drop_last(), indent)
    } else {
        s
    }
}

/// The chain of mappings that encloses line `n - 1`, outermost first, as
/// indentation and key.
pub open spec fn scan_stack(lines: Seq<Seq<char>>, n: int) -> Seq<(nat, Seq<char>)>
    decreases n,
{
    if n <= 0 || n > lines.len() {
        Seq::empty()
    } else {
        let s = scan_stack(lines, n - 1);
        match mapping_key_spec(lines[n - 1]) {
            None => s,
            Some((indent, key, _)) => pop_ge(s, indent).push((indent, key)),
        }
    }
}

/// The keys of a chain of mappings.
pub open spec fn stack_keys(s: Seq<(nat, Seq<char>)>) -> Seq<Seq<char>> {
    s.map_values(|e: (nat, Seq<char>)| e.1)
}

/// The first line from `i` that opens the mapping at path `wanted`, with its
/// indentation and colon position.
pub open spec fn find_mapping_from(lines: Seq<Seq<char>>, wanted: Seq<Seq<char>>, i: int) -> Option<
    (nat, nat, nat),
>
    decreases lines.len() - i,
{
    if i < 0 || i >= lines.len() {
        None
    } else {
        match mapping_key_spec(lines[i]) {
            Some((indent, _, colon)) => if stack_keys(scan_stack(lines, i + 1)) == wanted {
                Some((i as nat, indent, colon))
            } else {
                find_mapping_from(lines, wanted, i + 1)
            },
            None => find_mapping_from(lines, wanted, i + 1),
        }
    }
}

/// The line that opens the mapping at path `wanted`.
pub open spec fn find_mapping_spec(lines: Seq<Seq<char>>, wanted: Seq<Seq<char>>) -> Option<
    (nat, nat, nat),
> {
    if wanted.len() == 0 {
        None
    } else {
        find_mapping_from(lines, wanted, 0)
    }
}

/// The chain by view.
pub open spec fn stack_view(s: Seq<(usize, Vec<char>)>) -> Seq<(nat, Seq<char>)> {
    s.map_values(|e: (usize, Vec<char>)| (e.0 as nat, e.1@))
}

/// Whether the keys of the chain are the wanted path.
fn keys_equal(stack: &Vec<(usize, Vec<char>)>, wanted: &Vec<Vec<char>>) -> (b: bool)
    ensures
        b == (stack_keys(stack_view(stack@)) == lines_view(wanted@)),
{
    if stack.len() != wanted.len() {
        proof {
            assert(stack_keys(stack_view(stack@)).len() != lines_view(wanted@).len());
        }
        return false;
    }
    let mut k: usize = 0;
    while k < stack.len()
        invariant
            k <= stack@.len() == wanted@.len(),
            forall|m: int| 0 <= m < k ==> stack@[m].1@ == wanted@[m]@,
        decreases stack@.len() - k,
    {
        if !chars_equal(stack[k].1.as_slice(), wanted[k].as_slice()) {
            proof {
                assert(stack_keys(stack_view(stack@))[k as int] != lines_view(wanted@)[k as int]);
            }
            return false;
        }
        k += 1;
    }
    assert(stack_keys(stack_view(stack@)) =~= lines_view(wanted@));
    true
}

/// The line that opens the mapping at path `wanted`, with its indentation
/// and colon position.
pub fn find_yaml_mapping(lines: &Vec<Vec<char>>, wanted: &Vec<Vec<char>>) -> (r: Option<
    (usize, usize, usize),
>)
    ensures
        match r {
            Some((i, ind, c)) => find_mapping_spec(lines_view(lines@), lines_view(wanted@)) == Some(
                (i as nat, ind as nat, c as nat),
            ) && i < lines@.len() && c < trim_line_ends(lines@[i as int]@).len(),
            None => find_mapping_spec(lines_view(lines@), lines_view(wanted@)) is None,
        },
{
    let ghost ls = lines_view(lines@);
    let ghost ws = lines_view(wanted@);
    if wanted.len() == 0 {
        return None;
    }
    let mut stack: Vec<(usize, Vec<char>)> = Vec::new();
    let mut i: usize = 0;
    while i < lines.len()
        invariant
            i <= lines@.len(),
            ls == lines_view(lines@),
            ws == lines_view(wanted@),
            ws.len() > 0,
            stack_view(stack@) == scan_stack(ls, i as int),
            find_mapping_spec(ls, ws) == find_mapping_from(ls, ws, i as int),
        decreases lines@.len() - i,
    {
        let key = mapping_key(lines[i].as_slice());
        proof {
            assert(ls[i as int] == lines@[i as int]@);
        }
        match key {
            None => {},
            Some((indent, k, colon)) => {
                let ghost before = stack_view(stack@);
                while stack.len() > 0 && stack[stack.len() - 1].0 >= indent
                    invariant
                        pop_ge(before, indent as nat) == pop_ge(stack_view(stack@), indent as nat),
                    decreases stack@.len(),
                {
                    let ghost s0 = stack_view(stack@);
                    stack.pop();
                    proof {
                        assert(stack_view(stack@) =~= s0.drop_last());
                    }
                }
                let ghost popped = stack_view(stack@);
                proof {
                    if popped.len() > 0 {
                        assert(popped.last().0 < indent);
                    }
                    assert(pop_ge(popped, indent as nat) == popped);
                }
                stack.push((indent, k));
                proof {
                    assert(stack_view(stack@) =~= popped.push((indent as nat, k@)));
                }
                if keys_equal(&stack, wanted) {
                    return Some((i, indent, colon));
                }
            },
        }
        i += 1;
    }
    None
}

/// The first line after `from` that opens a mapping indented no more than
/// `indent`, or the end.
pub open spec fn block_end_from(lines: Seq<Seq<char>>, indent: nat, from: int) -> int
    decreases lines.len() - from,
{
    if from < 0 || from >= lines.len() {
        lines.len() as int
    } else {
        match mapping_key_spec(lines[from]) {
            Some((ind, _, _)) => if ind <= indent {
                from
            } else {
                block_end_from(lines, indent, from + 1)
            },
            None => block_end_from(lines, indent, from + 1),
        }
    }
}

/// Where the block of the mapping opened at `parent` ends.
pub open spec fn block_end_spec(lines: Seq<Seq<char>>, parent: int, indent: nat) -> int {
    block_end_from(lines, indent, parent + 1)
}

proof fn lemma_block_end_bounds(lines: Seq<Seq<char>>, indent: nat, from: int)
    requires
        0 <= from,
    ensures
        from <= block_end_from(lines, indent, from) <= lines.len() || (from > lines.len()
            && block_end_from(lines, indent, from) == lines.len()),
    decreases lines.len() - from,
{
    if from < lines.len() {
        lemma_block_end_bounds(lines, indent, from + 1);
    }
}

/// Where the block of the mapping opened at `parent` ends.
pub fn mapping_block_end(lines: &Vec<Vec<char>>, parent: usize, indent: usize) -> (end: usize)
    requires
        parent < lines@.len(),
    ensures
        end == block_end_spec(lines_view(lines@), parent as int, indent as nat),
        parent < end <= lines@.len(),
{
    let ghost ls = lines_view(lines@);
    proof {
        lemma_block_end_bounds(ls, indent as nat, parent + 1);
    }
    let n = lines.len();
    assert(parent < n);
    let mut j: usize = parent + 1;
    while j < lines.len()
        invariant
            parent < j <= lines@.len(),
            ls == lines_view(lines@),
            block_end_spec(ls, parent as int, indent as nat) == block_end_from(
                ls,
                indent as nat,
                j as int,
            ),
        decreases lines@.len() - j,
    {
        proof {
            assert(ls[j as int] == lines@[j as int]@);
        }
        match mapping_key(lines[j].as_slice()) {
            Some((ind, _, _)) => {
                if ind <= indent {
                    return j;
                }
            },
            None => {},
        }
        j += 1;
    }
    j
}

/// The smallest indentation deeper than `indent` among mapping lines from
/// `from` up to `end`, given the smallest so far.
pub open spec fn child_min_from(
    lines: Seq<Seq<char>>,
    indent: nat,
    from: int,
    end: int,
    best: Option<nat>,
) -> Option<nat>
    decreases end - from,
{
    if from < 0 || from >= end || from >= lines.len() {
        best
    } else {
        let next = match mapping_key_spec(lines[from]) {
            Some((ind, _, _)) => if ind > indent {
                match best {
                    Some(b) => if ind < b {
                        Some(ind)
                    } else {
                        Some(b)
                    },
                    None => Some(ind),
                }
            } else {
                best
            },
            None => best,
        };
        child_min_from(lines, indent, from + 1, end, next)
    }
}

/// The indentation of the children of the mapping opened at `parent`: the
/// smallest deeper one inside its block, else two more than its own.
pub open spec fn child_indent_spec(lines: Seq<Seq<char>>, parent: int, indent: nat) -> nat {
    match child_min_from(lines, indent, parent + 1, block_end_spec(lines, parent, indent), None) {
        Some(m) => m,
        None => plus_two(indent),
    }
}

/// The indentation of the children of the mapping opened at `parent`.
pub fn child_indent(lines: &Vec<Vec<char>>, parent: usize, indent: usize) -> (r: usize)
    requires
        parent < lines@.len(),
    ensures
        r == child_indent_spec(lines_view(lines@), parent as int, indent as nat),
{
    let ghost ls = lines_view(lines@);
    let end = mapping_block_end(lines, parent, indent);
    let mut best: Option<usize> = None;
    let mut j: usize = parent + 1;
    while j < end
        invariant
            parent < j <= end <= lines@.len(),
            ls == lines_view(lines@),
            end == block_end_spec(ls, parent as int, indent as nat),
            child_min_from(ls, indent as nat, parent + 1, end as int, None) == child_min_from(
                ls,
                indent as nat,
                j as int,
                end as int,
                match best {
                    Some(b) => Some(b as nat),
                    None => None,
                },
            ),
        decreases end - j,
    {
        proof {
            assert(ls[j as int] == lines@[j as int]@);
        }
        match mapping_key(lines[j].as_slice()) {
            Some((ind, _, _)) => {
                if ind > indent {
                    best = match best {
                        Some(b) => if ind < b {
                            Some(ind)
                        } else {
                            Some(b)
                        },
                        None => Some(ind),
                    };
                }
            },
            None => {},
        }
        j += 1;
    }
    match best {
        Some(b) => b,
        None => indent.saturating_add(2),
    }
}

/// Whether some line ends with `\r\n`, among the first `n`.
pub open spec fn any_crlf(lines: Seq<Seq<char>>, n: int) -> bool
    decreases n,
{
    if n <= 0 || n > lines.len() {
        false
    } else {
        any_crlf(lines, n - 1) || own_line_ending(lines[n - 1]) == seq!['\r', '\n']
    }
}

/// The line ending new lines get: `\r\n` when some line has one, else `\n`.
pub open spec fn line_ending_spec(lines: Seq<Seq<char>>) -> Seq<char> {
    if any_crlf(lines, lines.len() as int) {
        seq!['\r', '\n']
    } else {
        seq!['\n']
    }
}

/// The line ending new lines get.
pub fn line_ending(lines: &Vec<Vec<char>>) -> (nl: Vec<char>)
    ensures
        nl@ == line_ending_spec(lines_view(lines@)),
{
    let ghost ls = lines_view(lines@);
    let mut i: usize = 0;
    let mut found = false;
    while i < lines.len()
        invariant
            i <= lines@.len(),
            ls == lines_view(lines@),
            found == any_crlf(ls, i as int),
        decreases lines@.len() - i,
    {
        let l = &lines[i];
        let n = l.len();
        let crlf = n >= 2 && l[n - 2] == '\r' && l[n - 1] == '\n';
        proof {
            assert(ls[i as int] == lines@[i as int]@);
            let li = ls[i as int];
            assert(li == l@);
            if crlf {
                assert(own_line_ending(li) =~= seq!['\r', '\n']);
            } else if own_line_ending(li) == seq!['\r', '\n'] {
                assert(own_line_ending(li).len() == 2);
                assert(false);
            }
        }
        found = found || crlf;
        i += 1;
    }
    let mut nl: Vec<char> = Vec::new();
    if found {
        nl.push('\r');
    }
    nl.push('\n');
    proof {
        if found {
            assert(nl@ =~= seq!['\r', '\n']);
        } else {
            assert(nl@ =~= seq!['\n']);
        }
    }
    nl
}

/// Whether a line ends with a line feed or a carriage return.
pub open spec fn has_line_ending_spec(line: Seq<char>) -> bool {
    line.len() > 0 && (line.last() == '\n' || line.last() == '\r')
}

/// `n` spaces.
pub open spec fn spaces(n: nat) -> Seq<char> {
    Seq::new(n, |i: int| ' ')
}

/// `n` spaces.
pub fn spaces_exec(n: usize) -> (s: Vec<char>)
    ensures
        s@ == spaces(n as nat),
{
    let mut s: Vec<char> = Vec::new();
    let mut i: usize = 0;
    while i < n
        invariant
            i <= n,
            s@ == spaces(i as nat),
        decreases n - i,
    {
        s.push(' ');
        assert(s@ =~= spaces((i + 1) as nat));
        i += 1;
    }
    s
}

// ---------------------------------------------------------------------------
// Editing
// ---------------------------------------------------------------------------

/// `n + 2`, saturating at the largest index.
pub open spec fn plus_two(n: nat) -> nat {
    if n + 2 <= usize::MAX {
        n + 2
    } else {
        usize::MAX as nat
    }
}

/// The lines with `repl` in place of lines `start..end`.
pub open spec fn splice(ls: Seq<Seq<char>>, start: int, end: int, repl: Seq<Seq<char>>) -> Seq<
    Seq<char>,
> {
    ls.subrange(0, start) + repl + ls.subrange(end, ls.len() as int)
}

/// The lines with a line ending added to line `idx - 1` when it has none.
pub open spec fn end_previous_line(ls: Seq<Seq<char>>, idx: int, nl: Seq<char>) -> Seq<Seq<char>> {
    if idx > 0 && !has_line_ending_spec(ls[idx - 1]) {
        ls.update(idx - 1, ls[idx - 1] + nl)
    } else {
        ls
    }
}

/// Where a new child of the mapping at `parent` goes and how far it is
/// indented; `None` when that mapping does not exist. At the top level the
/// lines (a lone empty line dropped) end with it, unindented.
pub open spec fn insertion_point(ls: Seq<Seq<char>>, parent: Seq<Seq<char>>) -> Option<
    (Seq<Seq<char>>, int, nat),
> {
    if parent.len() == 0 {
        let l0 = if ls.len() == 1 && ls[0].len() == 0 {
            Seq::empty()
        } else {
            ls
        };
        Some((l0, l0.len() as int, 0))
    } else {
        match find_mapping_spec(ls, parent) {
            None => None,
            Some((pi, pind, _)) => Some(
                (ls, block_end_spec(ls, pi as int, pind), child_indent_spec(ls, pi as int, pind)),
            ),
        }
    }
}

/// Adds the line `key: value` (or `key:` for a new mapping) as the last child
/// of the mapping at `parent`.
pub open spec fn insert_line_spec(
    ls: Seq<Seq<char>>,
    parent: Seq<Seq<char>>,
    key: Seq<char>,
    value: Option<Seq<char>>,
) -> (bool, Seq<Seq<char>>) {
    let nl = line_ending_spec(ls);
    match insertion_point(ls, parent) {
        None => (false, ls),
        Some((l0, idx, indent)) => {
            let l1 = end_previous_line(l0, idx, nl);
            let line = spaces(indent) + key + match value {
                Some(v) => ": "@ + v,
                None => ":"@,
            } + nl;
            (true, splice(l1, idx, idx, seq![line]))
        },
    }
}

/// Creates the mappings along `path` that do not exist yet.
pub open spec fn ensure_spec(ls: Seq<Seq<char>>, path: Seq<Seq<char>>) -> (bool, Seq<Seq<char>>)
    decreases path.len(),
{
    if path.len() == 0 || find_mapping_spec(ls, path) is Some {
        (true, ls)
    } else {
        let (ok, l2) = ensure_spec(ls, path.drop_last());
        if !ok {
            (false, l2)
        } else {
            insert_line_spec(l2, path.drop_last(), path.last(), None)
        }
    }
}

/// Rewrites the scalar at `path` in place.
pub open spec fn replace_scalar_lines_spec(ls: Seq<Seq<char>>, path: Seq<Seq<char>>, value: Seq<char>) -> Option<
    Seq<Seq<char>>,
> {
    match find_mapping_spec(ls, path) {
        None => None,
        Some((i, _, c)) => Some(ls.update(i as int, replace_scalar_spec(ls[i as int], c as int, value))),
    }
}

/// Inserts the scalar at `path`, creating its parents.
pub open spec fn insert_scalar_spec(ls: Seq<Seq<char>>, path: Seq<Seq<char>>, value: Seq<char>) -> (
    bool,
    Seq<Seq<char>>,
) {
    if path.len() == 0 {
        (false, ls)
    } else {
        let (ok, l2) = ensure_spec(ls, path.drop_last());
        if !ok {
            (false, l2)
        } else {
            insert_line_spec(l2, path.drop_last(), path.last(), Some(value))
        }
    }
}

/// Sets the scalar at `path`: rewritten where it exists, inserted otherwise.
pub open spec fn set_scalar_spec(ls: Seq<Seq<char>>, path: Seq<Seq<char>>, value: Seq<char>) -> Seq<
    Seq<char>,
> {
    match replace_scalar_lines_spec(ls, path, value) {
        Some(l) => l,
        None => insert_scalar_spec(ls, path, value).1,
    }
}

proof fn lemma_colon_in_content(line: Seq<char>)
    ensures
        trim_line_ends(line).len() <= line.len() - own_line_ending(line).len(),
{
    if line.len() >= 2 && line[line.len() - 2] == '\r' && line.last() == '\n' {
        let d = line.drop_last();
        assert(d.last() == '\r');
        lemma_trim_line_ends_len(d.drop_last());
        assert(trim_line_ends(line) == trim_line_ends(d));
        assert(trim_line_ends(d) == trim_line_ends(d.drop_last()));
    } else if line.len() >= 1 && line.last() == '\n' {
        lemma_trim_line_ends_len(line.drop_last());
    } else {
        lemma_trim_line_ends_len(line);
    }
}

proof fn lemma_trim_line_ends_len(s: Seq<char>)
    ensures
        trim_line_ends(s).len() <= s.len(),
    decreases s.len(),
{
    if s.len() > 0 && (s.last() == '\r' || s.last() == '\n') {
        lemma_trim_line_ends_len(s.drop_last());
    }
}

/// Copies the first `n` lines of a path.
fn path_prefix(path: &Vec<Vec<char>>, n: usize) -> (out: Vec<Vec<char>>)
    requires
        n <= path@.len(),
    ensures
        lines_view(out@) == lines_view(path@).take(n as int),
{
    let mut out: Vec<Vec<char>> = Vec::new();
    let mut i: usize = 0;
    while i < n
        invariant
            i <= n <= path@.len(),
            lines_view(out@) == lines_view(path@).take(i as int),
        decreases n - i,
    {
        let ghost before = lines_view(out@);
        let item = slice_range(path[i].as_slice(), 0, path[i].len());
        out.push(item);
        proof {
            assert(path@[i as int]@.subrange(0, path@[i as int]@.len() as int) =~= path@[i as int]@);
            assert(lines_view(out@) =~= before.push(path@[i as int]@));
            assert(lines_view(out@) =~= lines_view(path@).take(i + 1));
        }
        i += 1;
    }
    out
}

/// Copies lines, replacing `start..end` with `repl`.
fn splice_lines(lines: &Vec<Vec<char>>, start: usize, end: usize, repl: &Vec<Vec<char>>) -> (out: Vec<
    Vec<char>,
>)
    requires
        start <= end <= lines@.len(),
    ensures
        lines_view(out@) == splice(lines_view(lines@), start as int, end as int, lines_view(repl@)),
{
    let mut out: Vec<Vec<char>> = Vec::new();
    let mut i: usize = 0;
    while i < start
        invariant
            i <= start <= end <= lines@.len(),
            lines_view(out@) == lines_view(lines@).subrange(0, i as int),
        decreases start - i,
    {
        let ghost before = lines_view(out@);
        let item = slice_range(lines[i].as_slice(), 0, lines[i].len());
        out.push(item);
        proof {
            assert(lines@[i as int]@.subrange(0, lines@[i as int]@.len() as int) =~= lines@[i as int]@);
            assert(lines_view(out@) =~= before.push(lines@[i as int]@));
            assert(lines_view(out@) =~= lines_view(lines@).subrange(0, i + 1));
        }
        i += 1;
    }
    let ghost head = lines_view(out@);
    let mut k: usize = 0;
    while k < repl.len()
        invariant
            k <= repl@.len(),
            lines_view(out@) == head + lines_view(repl@).take(k as int),
        decreases repl@.len() - k,
    {
        let ghost before = lines_view(out@);
        let item = slice_range(repl[k].as_slice(), 0, repl[k].len());
        out.push(item);
        proof {
            assert(repl@[k as int]@.subrange(0, repl@[k as int]@.len() as int) =~= repl@[k as int]@);
            assert(lines_view(out@) =~= before.push(repl@[k as int]@));
            assert(lines_view(out@) =~= head + lines_view(repl@).take(k + 1));
        }
        k += 1;
    }
    let ghost mid = lines_view(out@);
    assert(mid =~= head + lines_view(repl@));
    let mut j: usize = end;
    while j < lines.len()
        invariant
            end <= j <= lines@.len(),
            lines_view(out@) == mid + lines_view(lines@).subrange(end as int, j as int),
        decreases lines@.len() - j,
    {
        let ghost before = lines_view(out@);
        let item = slice_range(lines[j].as_slice(), 0, lines[j].len());
        out.push(item);
        proof {
            assert(lines@[j as int]@.subrange(0, lines@[j as int]@.len() as int) =~= lines@[j as int]@);
            assert(lines_view(out@) =~= before.push(lines@[j as int]@));
            assert(lines_view(out@) =~= mid + lines_view(lines@).subrange(end as int, j + 1));
        }
        j += 1;
    }
    out
}

/// Rewrites the scalar at `path` in place; `false` when it does not exist.
pub fn replace_yaml_scalar(lines: &mut Vec<Vec<char>>, path: &Vec<Vec<char>>, value: &[char]) -> (found: bool)
    ensures
        match replace_scalar_lines_spec(lines_view(old(lines)@), lines_view(path@), value@) {
            Some(l) => found && lines_view(final(lines)@) == l,
            None => !found && final(lines)@ == old(lines)@,
        },
{
    match find_yaml_mapping(lines, path) {
        None => false,
        Some((i, _, c)) => {
            proof {
                let ls = lines_view(lines@);
                let ws = lines_view(path@);
                assert(find_mapping_spec(ls, ws) is Some);
                assert(c < trim_line_ends(lines@[i as int]@).len());
                lemma_colon_in_content(lines@[i as int]@);
                assert(lines[i as int]@ == lines@[i as int]@);
            }
            let updated = replace_scalar_value(lines[i].as_slice(), c, value);
            let ghost before = lines_view(lines@);
            lines.set(i, updated);
            proof {
                assert(lines_view(lines@) =~= before.update(
                    i as int,
                    replace_scalar_spec(before[i as int], c as int, value@),
                ));
            }
            true
        },
    }
}

/// Where a new child of the mapping at the first `plen` keys of `path` goes
/// and how far it is indented; empties a lone empty line at the top level.
fn insertion_point_exec(lines: &mut Vec<Vec<char>>, path: &Vec<Vec<char>>, plen: usize) -> (r: Option<
    (usize, usize),
>)
    requires
        plen <= path@.len(),
    ensures
        match r {
            None => insertion_point(lines_view(old(lines)@), lines_view(path@).take(plen as int)) is None
                && final(lines)@ == old(lines)@,
            Some((idx, indent)) => insertion_point(
                lines_view(old(lines)@),
                lines_view(path@).take(plen as int),
            ) == Some((lines_view(final(lines)@), idx as int, indent as nat)) && idx
                <= final(lines)@.len(),
        },
{
    let ghost ls = lines_view(lines@);
    if plen == 0 {
        proof {
            assert(lines_view(path@).take(0).len() == 0);
        }
        if lines.len() == 1 && lines[0].len() == 0 {
            proof {
                assert(ls[0] == lines@[0]@);
                assert(ls[0].len() == 0);
            }
            lines.clear();
            proof {
                assert(lines_view(lines@) =~= Seq::<Seq<char>>::empty());
            }
        } else {
            proof {
                if ls.len() == 1 {
                    assert(ls[0] == lines@[0]@);
                }
            }
        }
        return Some((lines.len(), 0));
    }
    let parent = path_prefix(path, plen);
    match find_yaml_mapping(lines, &parent) {
        None => None,
        Some((pi, pind, _)) => {
            let end = mapping_block_end(lines, pi, pind);
            let indent = child_indent(lines, pi, pind);
            Some((end, indent))
        },
    }
}

/// Adds a line ending to line `idx - 1` when it has none.
fn end_previous_line_exec(lines: &mut Vec<Vec<char>>, idx: usize, nl: &Vec<char>)
    requires
        idx <= old(lines)@.len(),
    ensures
        lines_view(final(lines)@) == end_previous_line(lines_view(old(lines)@), idx as int, nl@),
        final(lines)@.len() == old(lines)@.len(),
{
    if idx > 0 {
        let n = lines[idx - 1].len();
        let ended = n > 0 && (lines[idx - 1][n - 1] == '\n' || lines[idx - 1][n - 1] == '\r');
        if !ended {
            let mut l = slice_range(lines[idx - 1].as_slice(), 0, n);
            append_chars(&mut l, nl.as_slice());
            let ghost before = lines_view(lines@);
            proof {
                assert(lines@[idx - 1]@.subrange(0, n as int) =~= lines@[idx - 1]@);
                assert(before[idx - 1] == lines@[idx - 1]@);
                assert(l@ == before[idx - 1] + nl@);
                assert(!has_line_ending_spec(before[idx - 1]));
            }
            lines.set(idx - 1, l);
            proof {
                assert(lines_view(lines@) =~= before.update(idx - 1, before[idx - 1] + nl@));
            }
        }
    }
}

/// Adds `key: value` (or `key:`) as the last child of the mapping at the
/// first `plen` keys of `path`.
fn insert_yaml_line(
    lines: &mut Vec<Vec<char>>,
    path: &Vec<Vec<char>>,
    plen: usize,
    key: &[char],
    value: Option<&[char]>,
) -> (ok: bool)
    requires
        plen <= path@.len(),
    ensures
        (ok, lines_view(final(lines)@)) == insert_line_spec(
            lines_view(old(lines)@),
            lines_view(path@).take(plen as int),
            key@,
            match value {
                Some(v) => Some(v@),
                None => None,
            },
        ),
{
    let nl = line_ending(lines);
    let (idx, indent) = match insertion_point_exec(lines, path, plen) {
        None => {
            return false;
        },
        Some(p) => p,
    };
    end_previous_line_exec(lines, idx, &nl);
    let mut line = spaces_exec(indent);
    append_chars(&mut line, key);
    match value {
        Some(v) => {
            line.push(':');
            line.push(' ');
            append_chars(&mut line, v);
        },
        None => {
            line.push(':');
        },
    }
    append_chars(&mut line, nl.as_slice());
    let mut repl: Vec<Vec<char>> = Vec::new();
    let ghost lv = line@;
    repl.push(line);
    let updated = splice_lines(lines, idx, idx, &repl);
    proof {
        reveal_strlit(": ");
        reveal_strlit(":");
        let ghost vv = match value {
            Some(v) => Some(v@),
            None => None::<Seq<char>>,
        };
        let expected = spaces(indent as nat) + key@ + match vv {
            Some(v) => ": "@ + v,
            None => ":"@,
        } + nl@;
        assert(lv =~= expected);
        assert(lines_view(repl@) =~= seq![expected]);
    }
    *lines = updated;
    true
}

/// Creates the mappings along the first `n` keys of `path` that do not exist yet.
fn ensure_yaml_mapping(lines: &mut Vec<Vec<char>>, path: &Vec<Vec<char>>, n: usize) -> (ok: bool)
    requires
        n <= path@.len(),
    ensures
        (ok, lines_view(final(lines)@)) == ensure_spec(lines_view(old(lines)@), lines_view(path@).take(n as int)),
    decreases n,
{
    let prefix = path_prefix(path, n);
    if n == 0 {
        return true;
    }
    if find_yaml_mapping(lines, &prefix).is_some() {
        return true;
    }
    proof {
        assert(lines_view(path@).take(n as int).drop_last() =~= lines_view(path@).take(n - 1));
        assert(lines_view(path@).take(n as int).last() == path@[n - 1]@);
    }
    if !ensure_yaml_mapping(lines, path, n - 1) {
        return false;
    }
    insert_yaml_line(lines, path, n - 1, path[n - 1].as_slice(), None)
}

/// Inserts the scalar at `path`, creating its parents.
fn insert_yaml_scalar(lines: &mut Vec<Vec<char>>, path: &Vec<Vec<char>>, value: &[char]) -> (ok: bool)
    ensures
        (ok, lines_view(final(lines)@)) == insert_scalar_spec(lines_view(old(lines)@), lines_view(path@), value@),
{
    if path.len() == 0 {
        return false;
    }
    let n = path.len();
    proof {
        assert(lines_view(path@).drop_last() =~= lines_view(path@).take(n - 1));
        assert(lines_view(path@).last() == path@[n - 1]@);
    }
    if !ensure_yaml_mapping(lines, path, n - 1) {
        return false;
    }
    insert_yaml_line(lines, path, n - 1, path[n - 1].as_slice(), Some(value))
}

/// Sets the scalar at `path`.
pub fn set_yaml_scalar(lines: &mut Vec<Vec<char>>, path: &Vec<Vec<char>>, value: &[char])
    ensures
        lines_view(final(lines)@) == set_scalar_spec(lines_view(old(lines)@), lines_view(path@), value@),
{
    if !replace_yaml_scalar(lines, path, value) {
        let _ = insert_yaml_scalar(lines, path, value);
    }
}

// ---------------------------------------------------------------------------
// Blocks
// ---------------------------------------------------------------------------

/// `l` without one trailing carriage return.
pub open spec fn strip_cr(l: Seq<char>) -> Seq<char> {
    if l.len() > 0 && l.last() == '\r' {
        l.drop_last()
    } else {
        l
    }
}

/// The lines of a text (what `str::lines` yields).
pub open spec fn text_lines(s: Seq<char>) -> Seq<Seq<char>>
    decreases s.len(),
{
    if s.len() == 0 {
        Seq::empty()
    } else {
        match first_index(s, '\n', 0) {
            None => seq![strip_cr(s)],
            Some(i) => {
                proof {
                    lemma_first_index(s, '\n', 0);
                }
                seq![strip_cr(s.subrange(0, i))] + text_lines(s.subrange(i + 1, s.len() as int))
            },
        }
    }
}

/// Each line of `v`, indented and ended.
pub open spec fn block_lines(v: Seq<char>, indent: nat, nl: Seq<char>) -> Seq<Seq<char>> {
    text_lines(v).map_values(|l: Seq<char>| spaces(indent) + l + nl)
}

/// Each line of `v`, indented by `indent` and ended by `nl`.
fn block_lines_exec(v: &[char], indent: usize, nl: &Vec<char>) -> (out: Vec<Vec<char>>)
    ensures
        lines_view(out@) == block_lines(v@, indent as nat, nl@),
{
    let n = v.len();
    let pad = spaces_exec(indent);
    let mut out: Vec<Vec<char>> = Vec::new();
    let mut start: usize = 0;
    assert(v@.subrange(0, n as int) =~= v@);
    while start < n
        invariant
            start <= n == v@.len(),
            pad@ == spaces(indent as nat),
            block_lines(v@, indent as nat, nl@) == lines_view(out@) + block_lines(
                v@.subrange(start as int, n as int),
                indent as nat,
                nl@,
            ),
        decreases n - start,
    {
        let ghost rest = v@.subrange(start as int, n as int);
        let mut j: usize = start;
        while j < n && v[j] != '\n'
            invariant
                start <= j <= n == v@.len(),
                forall|k: int| start <= k < j ==> v@[k] != '\n',
            decreases n - j,
        {
            j += 1;
        }
        proof {
            if j < n {
                assert(rest[j - start] == '\n');
                lemma_first_from_gap(rest, '\n', (j - start) as int);
            } else {
                assert forall|k: int| 0 <= k < rest.len() implies rest[k] != '\n' by {
                    assert(rest[k] == v@[start + k]);
                }
                lemma_first_none(rest, '\n');
            }
        }
        let stop = if j > start && v[j - 1] == '\r' {
            j - 1
        } else {
            j
        };
        let mut line = slice_range(pad.as_slice(), 0, pad.len());
        let body = slice_range(v, start, stop);
        append_chars(&mut line, body.as_slice());
        append_chars(&mut line, nl.as_slice());
        let ghost before = lines_view(out@);
        let ghost lv = line@;
        out.push(line);
        let next = if j < n {
            j + 1
        } else {
            n
        };
        proof {
            let piece = rest.subrange(0, j - start);
            assert(piece =~= v@.subrange(start as int, j as int));
            assert(strip_cr(piece) =~= body@);
            assert(pad@.subrange(0, pad@.len() as int) =~= pad@);
            assert(lv == spaces(indent as nat) + strip_cr(piece) + nl@);
            assert(lines_view(out@) =~= before.push(lv));
            let tail = v@.subrange(next as int, n as int);
            if j < n {
                assert(rest.subrange(j - start + 1, rest.len() as int) =~= tail);
                assert(text_lines(rest) =~= seq![strip_cr(piece)] + text_lines(tail));
            } else {
                assert(piece =~= rest);
                assert(tail =~= Seq::<char>::empty());
                assert(text_lines(rest) =~= seq![strip_cr(piece)] + text_lines(tail));
            }
            assert(block_lines(rest, indent as nat, nl@) =~= seq![lv] + block_lines(
                tail,
                indent as nat,
                nl@,
            ));
            assert(before + block_lines(rest, indent as nat, nl@) =~= lines_view(out@)
                + block_lines(tail, indent as nat, nl@));
        }
        start = next;
    }
    proof {
        assert(v@.subrange(start as int, n as int) =~= Seq::<char>::empty());
        assert(block_lines(Seq::<char>::empty(), indent as nat, nl@) =~= Seq::<Seq<char>>::empty());
        assert(lines_view(out@) + Seq::<Seq<char>>::empty() =~= lines_view(out@));
    }
    out
}

/// The line that opens a mapping whose value becomes a block: the text up to
/// the colon, then the inline comment if there is one, then `nl`.
pub open spec fn header_spec(line: Seq<char>, colon: int, nl: Seq<char>) -> Seq<char> {
    let content = trim_line_ends(line);
    let prefix = content.subrange(0, colon + 1);
    match inline_comment_spec(content, colon + 1) {
        None => prefix + nl,
        Some(k) => prefix + seq![' '] + content.subrange(k, content.len() as int) + nl,
    }
}

/// The line that opens a mapping whose value becomes a block.
fn mapping_header(line: &[char], colon: usize, nl: &Vec<char>) -> (out: Vec<char>)
    requires
        colon < trim_line_ends(line@).len(),
    ensures
        out@ == header_spec(line@, colon as int, nl@),
{
    let n = content_len(line);
    let content = slice_range(line, 0, n);
    let mut out = slice_range(content.as_slice(), 0, colon + 1);
    match find_inline_comment(content.as_slice(), colon + 1) {
        None => {},
        Some(k) => {
            out.push(' ');
            let comment = slice_range(content.as_slice(), k, n);
            append_chars(&mut out, comment.as_slice());
        },
    }
    append_chars(&mut out, nl.as_slice());
    out
}

/// Whether `v`, trimmed, is `[]`.
pub open spec fn is_empty_list(v: Seq<char>) -> bool {
    trim_seq(v) == seq!['[', ']']
}

/// Whether `v`, trimmed, is `[]`.
fn is_empty_list_exec(v: &[char]) -> (b: bool)
    ensures
        b == is_empty_list(v@),
{
    let t = crate::text::trimmed_chars(string_from_chars(v).as_str());
    let b = t.len() == 2 && t[0] == '[' && t[1] == ']';
    proof {
        if b {
            assert(t@ =~= seq!['[', ']']);
        }
    }
    b
}

/// Replaces the value of the mapping at `path` with the block `value`.
pub open spec fn replace_block_spec(ls: Seq<Seq<char>>, path: Seq<Seq<char>>, value: Seq<char>) -> Option<
    Seq<Seq<char>>,
> {
    match find_mapping_spec(ls, path) {
        None => None,
        Some((li, ind, col)) => {
            let end = block_end_spec(ls, li as int, ind);
            let nl = line_ending_spec(ls);
            let v = trim_line_ends(value);
            let repl = if is_empty_list(v) {
                seq![replace_scalar_spec(ls[li as int], col as int, seq!['[', ']'])]
            } else {
                seq![header_spec(ls[li as int], col as int, nl)] + block_lines(v, plus_two(ind), nl)
            };
            Some(splice(ls, li as int, end, repl))
        },
    }
}

/// Inserts the mapping at `path` with the block `value`, creating its parents.
pub open spec fn insert_block_spec(ls: Seq<Seq<char>>, path: Seq<Seq<char>>, value: Seq<char>) -> (
    bool,
    Seq<Seq<char>>,
) {
    if path.len() == 0 {
        (false, ls)
    } else {
        let (ok, l2) = ensure_spec(ls, path.drop_last());
        if !ok {
            (false, l2)
        } else {
            let nl = line_ending_spec(l2);
            match insertion_point(l2, path.drop_last()) {
                None => (false, l2),
                Some((l3, idx, indent)) => {
                    let l4 = end_previous_line(l3, idx, nl);
                    let v = trim_line_ends(value);
                    let key = path.last();
                    let repl = if is_empty_list(v) {
                        seq![spaces(indent) + key + seq![':', ' ', '[', ']'] + nl]
                    } else {
                        seq![spaces(indent) + key + seq![':'] + nl] + block_lines(
                            v,
                            plus_two(indent),
                            nl,
                        )
                    };
                    (true, splice(l4, idx, idx, repl))
                },
            }
        }
    }
}

/// Sets the mapping at `path` to the block `value`: replaced where it exists,
/// inserted otherwise.
pub open spec fn set_block_spec(ls: Seq<Seq<char>>, path: Seq<Seq<char>>, value: Seq<char>) -> Seq<
    Seq<char>,
> {
    match replace_block_spec(ls, path, value) {
        Some(l) => l,
        None => insert_block_spec(ls, path, value).1,
    }
}

/// Replaces the value of the mapping at `path` with a block.
fn replace_yaml_block(lines: &mut Vec<Vec<char>>, path: &Vec<Vec<char>>, value: &[char]) -> (found: bool)
    ensures
        match replace_block_spec(lines_view(old(lines)@), lines_view(path@), value@) {
            Some(l) => found && lines_view(final(lines)@) == l,
            None => !found && final(lines)@ == old(lines)@,
        },
{
    let (li, ind, col) = match find_yaml_mapping(lines, path) {
        None => {
            return false;
        },
        Some(p) => p,
    };
    let end = mapping_block_end(lines, li, ind);
    let nl = line_ending(lines);
    let vlen = content_len(value);
    let v = slice_range(value, 0, vlen);
    let mut repl: Vec<Vec<char>> = Vec::new();
    proof {
        lemma_colon_in_content(lines@[li as int]@);
        assert(lines[li as int]@ == lines@[li as int]@);
    }
    if is_empty_list_exec(v.as_slice()) {
        let mut empty_list: Vec<char> = Vec::new();
        empty_list.push('[');
        empty_list.push(']');
        let l = replace_scalar_value(lines[li].as_slice(), col, empty_list.as_slice());
        proof {
            assert(empty_list@ =~= seq!['[', ']']);
        }
        repl.push(l);
        proof {
            assert(lines_view(repl@) =~= seq![replace_scalar_spec(
                lines@[li as int]@,
                col as int,
                seq!['[', ']'],
            )]);
        }
    } else {
        let header = mapping_header(lines[li].as_slice(), col, &nl);
        repl.push(header);
        let body = block_lines_exec(v.as_slice(), ind.saturating_add(2), &nl);
        let mut k: usize = 0;
        let ghost head = lines_view(repl@);
        while k < body.len()
            invariant
                k <= body@.len(),
                lines_view(repl@) == head + lines_view(body@).take(k as int),
            decreases body@.len() - k,
        {
            let ghost before = lines_view(repl@);
            let item = slice_range(body[k].as_slice(), 0, body[k].len());
            repl.push(item);
            proof {
                assert(body@[k as int]@.subrange(0, body@[k as int]@.len() as int) =~= body@[k as int]@);
                assert(lines_view(repl@) =~= before.push(body@[k as int]@));
                assert(lines_view(repl@) =~= head + lines_view(body@).take(k + 1));
            }
            k += 1;
        }
        proof {
            assert(lines_view(body@).take(k as int) =~= lines_view(body@));
        }
    }
    let updated = splice_lines(lines, li, end, &repl);
    *lines = updated;
    true
}

/// Inserts the mapping at `path` with a block, creating its parents.
fn insert_yaml_block(lines: &mut Vec<Vec<char>>, path: &Vec<Vec<char>>, value: &[char]) -> (ok: bool)
    ensures
        (ok, lines_view(final(lines)@)) == insert_block_spec(lines_view(old(lines)@), lines_view(path@), value@),
{
    if path.len() == 0 {
        return false;
    }
    let n = path.len();
    proof {
        assert(lines_view(path@).drop_last() =~= lines_view(path@).take(n - 1));
        assert(lines_view(path@).last() == path@[n - 1]@);
    }
    if !ensure_yaml_mapping(lines, path, n - 1) {
        return false;
    }
    let nl = line_ending(lines);
    let (idx, indent) = match insertion_point_exec(lines, path, n - 1) {
        None => {
            return false;
        },
        Some(p) => p,
    };
    end_previous_line_exec(lines, idx, &nl);
    let vlen = content_len(value);
    let v = slice_range(value, 0, vlen);
    let key = path[n - 1].as_slice();
    let mut repl: Vec<Vec<char>> = Vec::new();
    if is_empty_list_exec(v.as_slice()) {
        let mut line = spaces_exec(indent);
        append_chars(&mut line, key);
        line.push(':');
        line.push(' ');
        line.push('[');
        line.push(']');
        append_chars(&mut line, nl.as_slice());
        let ghost lv = line@;
        repl.push(line);
        proof {
            assert(lv =~= spaces(indent as nat) + key@ + seq![':', ' ', '[', ']'] + nl@);
            assert(lines_view(repl@) =~= seq![lv]);
        }
    } else {
        let mut line = spaces_exec(indent);
        append_chars(&mut line, key);
        line.push(':');
        append_chars(&mut line, nl.as_slice());
        let ghost lv = line@;
        repl.push(line);
        proof {
            assert(lv =~= spaces(indent as nat) + key@ + seq![':'] + nl@);
            assert(lines_view(repl@) =~= seq![lv]);
        }
        let body = block_lines_exec(v.as_slice(), indent.saturating_add(2), &nl);
        let mut k: usize = 0;
        let ghost head = lines_view(repl@);
        while k < body.len()
            invariant
                k <= body@.len(),
                lines_view(repl@) == head + lines_view(body@).take(k as int),
            decreases body@.len() - k,
        {
            let ghost before = lines_view(repl@);
            let item = slice_range(body[k].as_slice(), 0, body[k].len());
            repl.push(item);
            proof {
                assert(body@[k as int]@.subrange(0, body@[k as int]@.len() as int) =~= body@[k as int]@);
                assert(lines_view(repl@) =~= before.push(body@[k as int]@));
                assert(lines_view(repl@) =~= head + lines_view(body@).take(k + 1));
            }
            k += 1;
        }
        proof {
            assert(lines_view(body@).take(k as int) =~= lines_view(body@));
        }
    }
    let updated = splice_lines(lines, idx, idx, &repl);
    *lines = updated;
    true
}

/// Sets the mapping at `path` to a block.
pub fn set_yaml_block(lines: &mut Vec<Vec<char>>, path: &Vec<Vec<char>>, value: &[char])
    ensures
        lines_view(final(lines)@) == set_block_spec(lines_view(old(lines)@), lines_view(path@), value@),
{
    if !replace_yaml_block(lines, path, value) {
        let _ = insert_yaml_block(lines, path, value);
    }
}

// ---------------------------------------------------------------------------
// The form's patch
// ---------------------------------------------------------------------------

/// The lower-case hexadecimal digit for a value below 16.
pub open spec fn hex_digit(v: nat) -> char {
    if v < 10 {
        (('0' as u32) + v) as char
    } else {
        (('a' as u32) + (v - 10)) as char
    }
}

/// How JSON writes one character inside a string: `"` and `\\` escaped, the
/// control characters below U+0020 as `\b`, `\t`, `\n`, `\f`, `\r` or `\u00XX`.
pub open spec fn json_escape_char(c: char) -> Seq<char> {
    if c == '"' {
        seq!['\\', '"']
    } else if c == '\\' {
        seq!['\\', '\\']
    } else if c == '\u{8}' {
        seq!['\\', 'b']
    } else if c == '\t' {
        seq!['\\', 't']
    } else if c == '\n' {
        seq!['\\', 'n']
    } else if c == '\u{c}' {
        seq!['\\', 'f']
    } else if c == '\r' {
        seq!['\\', 'r']
    } else if (c as u32) < 0x20 {
        seq!['\\', 'u', '0', '0', hex_digit(((c as u32) / 16) as nat), hex_digit(((c as u32) % 16) as nat)]
    } else {
        seq![c]
    }
}

/// The escaped characters of a string.
pub open spec fn json_escape(s: Seq<char>) -> Seq<char>
    decreases s.len(),
{
    if s.len() == 0 {
        Seq::empty()
    } else {
        json_escape(s.drop_last()) + json_escape_char(s.last())
    }
}

/// A string written as a JSON string literal.
pub open spec fn json_string_spec(s: Seq<char>) -> Seq<char> {
    seq!['"'] + json_escape(s) + seq!['"']
}

/// A string as a JSON string literal (`serde_json::to_string` on a `str`).
/// serde_json writes it between double quotes, escaping `"` and `\\` and the
/// control characters below U+0020 (`\b`, `\t`, `\n`, `\f`, `\r`, otherwise
/// `\u00` and two lower-case hex digits); writing a `str` into memory cannot
/// fail. The result is also valid YAML for the same string.
#[verifier::external_body]
fn json_string(value: &str) -> (s: String)
    ensures
        s@ == json_string_spec(value@),
{
    match serde_json::to_string(value) {
        Ok(s) => s,
        Err(_) => String::new(),
    }
}

/// A YAML value for an optional text: `null` when blank, else the quoted text.
pub open spec fn yaml_optional_spec(s: Seq<char>) -> Seq<char> {
    if trim_seq(s).len() == 0 {
        seq!['n', 'u', 'l', 'l']
    } else {
        json_string_spec(s)
    }
}

/// A YAML value for an optional text.
fn yaml_optional_string(value: &str) -> (s: Vec<char>)
    ensures
        s@ == yaml_optional_spec(value@),
{
    if crate::text::is_blank(value) {
        let mut s: Vec<char> = Vec::new();
        s.push('n');
        s.push('u');
        s.push('l');
        s.push('l');
        assert(s@ =~= seq!['n', 'u', 'l', 'l']);
        s
    } else {
        chars_of(json_string(value).as_str())
    }
}

/// The changes the web console's form submits; a field left `None` keeps the
/// file's value. The command policies and servers come as YAML text.
#[derive(Debug, Clone, Default)]
pub struct VisualConfigPatch {
    pub data_dir: Option<String>,
    pub tui: Option<bool>,
    pub web: Option<bool>,
    pub server_address: Option<String>,
    pub api_key_env: Option<String>,
    pub log_retention_days: Option<u64>,
    pub default_action: Option<String>,
    pub default_working_directory: Option<String>,
    pub default_server: Option<String>,
    pub target_platform: Option<String>,
    pub default_timeout_ms: Option<u64>,
    pub max_timeout_ms: Option<u64>,
    pub history_retention_days: Option<u64>,
    pub history_max_records: Option<usize>,
    /// The `execution.commands` list, written as YAML.
    pub commands_yaml: Option<String>,
    /// The `execution.servers` list, written as YAML.
    pub servers_yaml: Option<String>,
}

/// A dotted path as its keys.
pub open spec fn split_dots(s: Seq<char>) -> Seq<Seq<char>>
    decreases s.len(),
{
    match first_index(s, '.', 0) {
        None => seq![s],
        Some(i) => {
            proof {
                lemma_first_index(s, '.', 0);
            }
            seq![s.subrange(0, i)] + split_dots(s.subrange(i + 1, s.len() as int))
        },
    }
}

/// The keys of a dotted path.
fn path_keys(path: &str) -> (keys: Vec<Vec<char>>)
    ensures
        lines_view(keys@) == split_dots(path@),
{
    let c = chars_of(path);
    let n = c.len();
    let mut keys: Vec<Vec<char>> = Vec::new();
    let mut start: usize = 0;
    assert(c@.subrange(0, n as int) =~= c@);
    loop
        invariant
            start <= n == c@.len(),
            c@ == path@,
            split_dots(c@) == lines_view(keys@) + split_dots(c@.subrange(start as int, n as int)),
        decreases n - start,
    {
        let ghost rest = c@.subrange(start as int, n as int);
        let mut j: usize = start;
        while j < n && c[j] != '.'
            invariant
                start <= j <= n == c@.len(),
                forall|k: int| start <= k < j ==> c@[k] != '.',
            decreases n - j,
        {
            j += 1;
        }
        let ghost before = lines_view(keys@);
        let item = slice_range(c.as_slice(), start, j);
        keys.push(item);
        proof {
            assert(lines_view(keys@) =~= before.push(c@.subrange(start as int, j as int)));
            assert(rest.subrange(0, j - start) =~= c@.subrange(start as int, j as int));
        }
        if j == n {
            proof {
                assert forall|k: int| 0 <= k < rest.len() implies rest[k] != '.' by {
                    assert(rest[k] == c@[start + k]);
                }
                lemma_first_none(rest, '.');
                assert(rest =~= c@.subrange(start as int, j as int));
                assert(before + split_dots(rest) =~= lines_view(keys@));
            }
            return keys;
        }
        proof {
            assert(rest[j - start] == '.');
            lemma_first_from_gap(rest, '.', (j - start) as int);
            assert(rest.subrange(j - start + 1, rest.len() as int) =~= c@.subrange(j + 1, n as int));
            assert(before + split_dots(rest) =~= lines_view(keys@) + split_dots(
                c@.subrange(j + 1, n as int),
            ));
        }
        start = j + 1;
    }
}

/// The scalar settings of a patch in the order they are applied, each as the
/// dotted path and the YAML value (`None` leaves it unchanged).
pub open spec fn scalar_updates(p: VisualConfigPatch) -> Seq<(Seq<char>, Option<Seq<char>>)> {
    seq![
        ("data-dir"@, match p.data_dir { Some(v) => Some(yaml_optional_spec(v@)), None => None }),
        ("tui"@, match p.tui { Some(b) => Some(bool_text(b)), None => None }),
        ("web"@, match p.web { Some(b) => Some(bool_text(b)), None => None }),
        ("server.address"@, match p.server_address { Some(v) => Some(json_string_spec(v@)), None => None }),
        ("server.access.api-key-env"@, match p.api_key_env { Some(v) => Some(yaml_optional_spec(v@)), None => None }),
        ("logging.retention-days"@, match p.log_retention_days { Some(n) => Some(decimal(n as nat)), None => None }),
        ("execution.default-action"@, match p.default_action { Some(v) => Some(json_string_spec(v@)), None => None }),
        ("execution.default-working-directory"@, match p.default_working_directory { Some(v) => Some(yaml_optional_spec(v@)), None => None }),
        ("execution.default-server"@, match p.default_server { Some(v) => Some(json_string_spec(v@)), None => None }),
        ("execution.target-platform"@, match p.target_platform { Some(v) => Some(json_string_spec(v@)), None => None }),
        ("execution.default-timeout-ms"@, match p.default_timeout_ms { Some(n) => Some(decimal(n as nat)), None => None }),
        ("execution.max-timeout-ms"@, match p.max_timeout_ms { Some(n) => Some(decimal(n as nat)), None => None }),
        ("history.retention-days"@, match p.history_retention_days { Some(n) => Some(decimal(n as nat)), None => None }),
        ("history.max-records"@, match p.history_max_records { Some(n) => Some(decimal(n as nat)), None => None }),
    ]
}

/// `true` or `false`.
pub open spec fn bool_text(b: bool) -> Seq<char> {
    if b {
        seq!['t', 'r', 'u', 'e']
    } else {
        seq!['f', 'a', 'l', 's', 'e']
    }
}

/// The lines after applying the first `n` scalar updates.
pub open spec fn apply_scalars(ls: Seq<Seq<char>>, updates: Seq<(Seq<char>, Option<Seq<char>>)>, n: int) -> Seq<
    Seq<char>,
>
    decreases n,
{
    if n <= 0 || n > updates.len() {
        ls
    } else {
        let before = apply_scalars(ls, updates, n - 1);
        match updates[n - 1].1 {
            Some(v) => set_scalar_spec(before, split_dots(updates[n - 1].0), v),
            None => before,
        }
    }
}

/// The file's text after applying the form's patch.
pub open spec fn visual_patch_spec(raw: Seq<char>, p: VisualConfigPatch) -> Seq<char> {
    let updates = scalar_updates(p);
    let l1 = apply_scalars(split_lines(raw), updates, updates.len() as int);
    let l2 = match p.commands_yaml {
        Some(y) => set_block_spec(l1, split_dots("execution.commands"@), y@),
        None => l1,
    };
    let l3 = match p.servers_yaml {
        Some(y) => set_block_spec(l2, split_dots("execution.servers"@), y@),
        None => l2,
    };
    concat_lines(l3)
}

/// Applies one scalar update given by path and value.
fn apply_one(lines: &mut Vec<Vec<char>>, path: &str, value: Option<Vec<char>>)
    ensures
        lines_view(final(lines)@) == match value {
            Some(v) => set_scalar_spec(lines_view(old(lines)@), split_dots(path@), v@),
            None => lines_view(old(lines)@),
        },
{
    if let Some(v) = value {
        let keys = path_keys(path);
        set_yaml_scalar(lines, &keys, v.as_slice());
    }
}

/// The decimal text of a number, as characters.
fn decimal_chars(n: u64) -> (s: Vec<char>)
    ensures
        s@ == decimal(n as nat),
{
    chars_of(crate::text::decimal_string(n).as_str())
}

/// `true` or `false`, as characters.
fn bool_chars(b: bool) -> (s: Vec<char>)
    ensures
        s@ == bool_text(b),
{
    let mut s: Vec<char> = Vec::new();
    if b {
        s.push('t');
        s.push('r');
        s.push('u');
        s.push('e');
    } else {
        s.push('f');
        s.push('a');
        s.push('l');
        s.push('s');
        s.push('e');
    }
    proof {
        if b {
            assert(s@ =~= seq!['t', 'r', 'u', 'e']);
        } else {
            assert(s@ =~= seq!['f', 'a', 'l', 's', 'e']);
        }
    }
    s
}

/// Applies the form's patch to the file's text, keeping its comments and layout.
pub fn apply_visual_patch(raw: &str, patch: &VisualConfigPatch) -> (updated: String)
    ensures
        updated@ == visual_patch_spec(raw@, *patch),
{
    let ghost updates = scalar_updates(*patch);
    let mut lines = split_lines_exec(raw);
    let ghost l0 = lines_view(lines@);
    assert(apply_scalars(l0, updates, 0) == l0);
    assert(updates.len() == 14);
    apply_one(&mut lines, "data-dir", match &patch.data_dir {
        Some(v) => Some(yaml_optional_string(v.as_str())),
        None => None,
    });
    assert(lines_view(lines@) == apply_scalars(l0, updates, 1));
    apply_one(&mut lines, "tui", match patch.tui {
        Some(b) => Some(bool_chars(b)),
        None => None,
    });
    assert(lines_view(lines@) == apply_scalars(l0, updates, 2));
    apply_one(&mut lines, "web", match patch.web {
        Some(b) => Some(bool_chars(b)),
        None => None,
    });
    assert(lines_view(lines@) == apply_scalars(l0, updates, 3));
    apply_one(&mut lines, "server.address", match &patch.server_address {
        Some(v) => Some(chars_of(json_string(v.as_str()).as_str())),
        None => None,
    });
    assert(lines_view(lines@) == apply_scalars(l0, updates, 4));
    apply_one(&mut lines, "server.access.api-key-env", match &patch.api_key_env {
        Some(v) => Some(yaml_optional_string(v.as_str())),
        None => None,
    });
    assert(lines_view(lines@) == apply_scalars(l0, updates, 5));
    apply_one(&mut lines, "logging.retention-days", match patch.log_retention_days {
        Some(n) => Some(decimal_chars(n)),
        None => None,
    });
    assert(lines_view(lines@) == apply_scalars(l0, updates, 6));
    apply_one(&mut lines, "execution.default-action", match &patch.default_action {
        Some(v) => Some(chars_of(json_string(v.as_str()).as_str())),
        None => None,
    });
    assert(lines_view(lines@) == apply_scalars(l0, updates, 7));
    apply_one(
        &mut lines,
        "execution.default-working-directory",
        match &patch.default_working_directory {
            Some(v) => Some(yaml_optional_string(v.as_str())),
            None => None,
        },
    );
    assert(lines_view(lines@) == apply_scalars(l0, updates, 8));
    apply_one(&mut lines, "execution.default-server", match &patch.default_server {
        Some(v) => Some(chars_of(json_string(v.as_str()).as_str())),
        None => None,
    });
    assert(lines_view(lines@) == apply_scalars(l0, updates, 9));
    apply_one(&mut lines, "execution.target-platform", match &patch.target_platform {
        Some(v) => Some(chars_of(json_string(v.as_str()).as_str())),
        None => None,
    });
    assert(lines_view(lines@) == apply_scalars(l0, updates, 10));
    apply_one(&mut lines, "execution.default-timeout-ms", match patch.default_timeout_ms {
        Some(n) => Some(decimal_chars(n)),
        None => None,
    });
    assert(lines_view(lines@) == apply_scalars(l0, updates, 11));
    apply_one(&mut lines, "execution.max-timeout-ms", match patch.max_timeout_ms {
        Some(n) => Some(decimal_chars(n)),
        None => None,
    });
    assert(lines_view(lines@) == apply_scalars(l0, updates, 12));
    apply_one(&mut lines, "history.retention-days", match patch.history_retention_days {
        Some(n) => Some(decimal_chars(n)),
        None => None,
    });
    assert(lines_view(lines@) == apply_scalars(l0, updates, 13));
    apply_one(&mut lines, "history.max-records", match patch.history_max_records {
        Some(n) => Some(decimal_chars(n as u64)),
        None => None,
    });
    assert(lines_view(lines@) == apply_scalars(l0, updates, 14));
    if let Some(y) = &patch.commands_yaml {
        let keys = path_keys("execution.commands");
        let v = chars_of(y.as_str());
        set_yaml_block(&mut lines, &keys, v.as_slice());
    }
    if let Some(y) = &patch.servers_yaml {
        let keys = path_keys("execution.servers");
        let v = chars_of(y.as_str());
        set_yaml_block(&mut lines, &keys, v.as_slice());
    }
    concat_exec(&lines)
}

/// A patch that changes nothing leaves the file's text as it was.
pub proof fn lemma_empty_patch_keeps_text(raw: Seq<char>, p: VisualConfigPatch)
    requires
        p.data_dir is None,
        p.tui is None,
        p.web is None,
        p.server_address is None,
        p.api_key_env is None,
        p.log_retention_days is None,
        p.default_action is None,
        p.default_working_directory is None,
        p.default_server is None,
        p.target_platform is None,
        p.default_timeout_ms is None,
        p.max_timeout_ms is None,
        p.history_retention_days is None,
        p.history_max_records is None,
        p.commands_yaml is None,
        p.servers_yaml is None,
    ensures
        visual_patch_spec(raw, p) == raw,
{
    let updates = scalar_updates(p);
    lemma_no_updates(split_lines(raw), updates, updates.len() as int);
    lemma_split_concat(raw);
}

proof fn lemma_no_updates(ls: Seq<Seq<char>>, updates: Seq<(Seq<char>, Option<Seq<char>>)>, n: int)
    requires
        forall|k: int| 0 <= k < updates.len() ==> (#[trigger] updates[k]).1 is None,
    ensures
        apply_scalars(ls, updates, n) == ls,
    decreases n,
{
    if n > 0 && n <= updates.len() {
        lemma_no_updates(ls, updates, n - 1);
    }
}

// ---------------------------------------------------------------------------
// The store
// ---------------------------------------------------------------------------

/// The configuration file's path, its text and the configuration it gives.
#[derive(Debug, Clone)]
pub struct ConfigSnapshot {
    pub path: String,
    pub raw: String,
    pub config: AppConfig,
}

/// Why the configuration file could not be read or saved.
#[derive(Debug)]
pub enum ConfigStoreError {
    /// Reading or writing the file failed; the error as displayed.
    Io(String),
    /// The text is not a valid configuration.
    Config(ConfigError),
    /// The built-in configuration could not be written as YAML.
    Serialize(String),
}

impl ConfigStoreError {
    /// The text of the error's message.
    pub open spec fn message_spec(&self) -> Seq<char> {
        match self {
            ConfigStoreError::Io(e) => e@,
            ConfigStoreError::Config(e) => e.message_spec(),
            ConfigStoreError::Serialize(e) => "failed to serialize default configuration: "@ + e@,
        }
    }

    /// The error's message.
    pub fn message(&self) -> (m: String)
        ensures
            m@ == self.message_spec(),
    {
        match self {
            ConfigStoreError::Io(e) => e.clone(),
            ConfigStoreError::Config(e) => e.message(),
            ConfigStoreError::Serialize(e) => {
                let mut m = string_from_str("failed to serialize default configuration: ");
                crate::text::push_str(&mut m, e.as_str());
                m
            },
        }
    }
}

/// The configuration file the web console edits.
#[derive(Debug, Clone)]
pub struct ConfigStore {
    path: String,
}

impl ConfigStore {
    /// The file's path.
    pub closed spec fn path_view(&self) -> Seq<char> {
        self.path@
    }

    /// A store for the resolved configuration file.
    pub fn new(path: ResolvedConfigPath) -> (s: Self)
        ensures
            s.path_view() == path.path@,
    {
        ConfigStore { path: path.path }
    }

    /// The file's path.
    pub fn path(&self) -> (p: &str)
        ensures
            p@ == self.path_view(),
    {
        self.path.as_str()
    }

    /// The snapshot to save for `raw`, given what parsing it gave; the text is
    /// written to the file only when it parses.
    pub fn save_raw(&self, raw: String, parsed: Result<AppConfig, ConfigError>) -> (r: Result<
        ConfigSnapshot,
        ConfigStoreError,
    >)
        ensures
            match parsed {
                Ok(c) => r matches Ok(snap) && snap.path@ == self.path_view() && snap.raw@ == raw@
                    && snap.config == c,
                Err(e) => r matches Err(ConfigStoreError::Config(e2)) && e2 == e,
            },
    {
        match parsed {
            Ok(config) => Ok(ConfigSnapshot { path: self.path.clone(), raw, config }),
            Err(e) => Err(ConfigStoreError::Config(e)),
        }
    }

    /// The text to save for the form's patch on top of the current snapshot.
    pub fn save_visual(&self, current: &ConfigSnapshot, patch: &VisualConfigPatch) -> (raw: String)
        ensures
            raw@ == visual_patch_spec(current.raw@, *patch),
    {
        apply_visual_patch(current.raw.as_str(), patch)
    }
}

} // verus!
