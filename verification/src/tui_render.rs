//! The texts the terminal console draws that are more than a fixed label:
//! the title of the log panel, short approval ids, the widest log line, and
//! the escape sequence that hands selected lines to the terminal clipboard.

use vstd::prelude::*;
use crate::console_log::{serialize_spec, ConsoleLogEntry, log_line_text};
use crate::text::{decimal, decimal_string, push_str, string_from_str};

verus! {

/// The shown range `a..b` of the log panel's title: from the first shown line,
/// counted from one, to the last; `0..start` when nothing is shown.
pub open spec fn shown_range(start: usize, shown: usize) -> (nat, nat) {
    if shown == 0 {
        (0, start as nat)
    } else {
        ((start + 1) as nat, (start + shown) as nat)
    }
}

/// The title of the log panel.
pub open spec fn logs_title_spec(start: usize, shown: usize, total: usize, offset: usize, path: Seq<char>) -> Seq<char> {
    let (a, b) = shown_range(start, shown);
    let head = "Logs "@ + decimal(a) + ".."@ + decimal(b) + " / "@ + decimal(total as nat);
    if offset == 0 {
        head + " ("@ + path + ")"@
    } else {
        head + " [x:"@ + decimal(offset as nat) + "] ("@ + path + ")"@
    }
}

/// The title of the log panel: which lines of how many are shown, the
/// horizontal scroll when there is one, and the log file.
pub fn logs_title(start: usize, shown: usize, total: usize, offset: usize, path: &str) -> (t: String)
    requires
        start + shown <= usize::MAX,
    ensures
        t@ == logs_title_spec(start, shown, total, offset, path@),
{
    let (a, b): (usize, usize) = if shown == 0 {
        (0, start)
    } else {
        (start + 1, start + shown)
    };
    let mut t = string_from_str("Logs ");
    push_str(&mut t, decimal_string(a as u64).as_str());
    push_str(&mut t, "..");
    push_str(&mut t, decimal_string(b as u64).as_str());
    push_str(&mut t, " / ");
    push_str(&mut t, decimal_string(total as u64).as_str());
    if offset == 0 {
        push_str(&mut t, " (");
    } else {
        push_str(&mut t, " [x:");
        push_str(&mut t, decimal_string(offset as u64).as_str());
        push_str(&mut t, "] (");
    }
    push_str(&mut t, path);
    push_str(&mut t, ")");
    t
}

/// The first eight characters of an id, as the approval list shows it.
pub fn short_id(id: &str) -> (s: String)
    ensures
        s@ == if id@.len() <= 8 {
            id@
        } else {
            id@.take(8)
        },
{
    let chars = crate::text::chars_of(id);
    let n: usize = if chars.len() <= 8 {
        chars.len()
    } else {
        8
    };
    let taken = crate::text::slice_range(chars.as_slice(), 0, n);
    proof {
        if id@.len() <= 8 {
            assert(id@.subrange(0, n as int) =~= id@);
        }
    }
    crate::text::string_from_chars(taken.as_slice())
}

/// The width of an entry's line, in characters.
pub open spec fn line_width(e: ConsoleLogEntry) -> nat {
    serialize_spec(e.timestamp@, e.level, e.message@).drop_last().len()
}

/// The widest line among the entries, 0 for none.
pub open spec fn max_line_width(s: Seq<ConsoleLogEntry>) -> nat
    decreases s.len(),
{
    if s.len() == 0 {
        0
    } else {
        let rest = max_line_width(s.drop_last());
        let w = line_width(s.last());
        if w > rest {
            w
        } else {
            rest
        }
    }
}

/// The width of the widest shown log line, in characters.
pub fn max_log_line_width(entries: &[ConsoleLogEntry]) -> (w: usize)
    ensures
        w == max_line_width(entries@),
{
    let mut w: usize = 0;
    let mut i: usize = 0;
    while i < entries.len()
        invariant
            i <= entries@.len(),
            w == max_line_width(entries@.take(i as int)),
        decreases entries@.len() - i,
    {
        let text = log_line_text(&entries[i]);
        let n = crate::text::chars_of(text.as_str()).len();
        proof {
            let t = entries@.take(i + 1);
            assert(t.drop_last() =~= entries@.take(i as int));
            assert(t.last() == entries@[i as int]);
        }
        if n > w {
            w = n;
        }
        i += 1;
    }
    assert(entries@.take(i as int) =~= entries@);
    w
}

/// The escape sequence that puts `text` on the terminal clipboard: OSC 52
/// with the Base64 of its UTF-8 bytes, ended by BEL.
pub open spec fn clipboard_sequence_spec(text: Seq<char>) -> Seq<char> {
    "\u{1b}]52;c;"@ + crate::base64::base64_spec(vstd::utf8::encode_utf8(text)) + "\u{7}"@
}

/// The escape sequence that puts `text` on the terminal clipboard.
pub fn clipboard_sequence(text: &str) -> (s: String)
    ensures
        s@ == clipboard_sequence_spec(text@),
{
    let encoded = crate::base64::base64_encode(text.as_bytes());
    let mut s = string_from_str("\u{1b}]52;c;");
    push_str(&mut s, encoded.as_str());
    push_str(&mut s, "\u{7}");
    s
}

/// How many log lines a selection from `start` to `end` holds.
pub fn selection_line_count(start: usize, end: usize) -> (n: usize)
    ensures
        n == if end > start {
            if end - start + 1 > usize::MAX {
                usize::MAX as int
            } else {
                end - start + 1
            }
        } else {
            1
        },
{
    end.saturating_sub(start).saturating_add(1)
}

} // verus!
