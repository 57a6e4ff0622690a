//! Standard Base64 (RFC 4648 alphabet, with `=` padding).
//!
//! Two encoders exist: one for the SSH transport's encoded PowerShell
//! commands, one for the terminal clipboard sequence. Both meet the same
//! specification.

use vstd::prelude::*;
use crate::text::push_char;

verus! {

/// The character for a six-bit value.
pub open spec fn sextet_char(v: nat) -> char {
    if v < 26 {
        (('A' as u32) + v) as char
    } else if v < 52 {
        (('a' as u32) + (v - 26)) as char
    } else if v < 62 {
        (('0' as u32) + (v - 52)) as char
    } else if v == 62 {
        '+'
    } else {
        '/'
    }
}

/// The Base64 text of `b`: each group of three bytes gives four characters,
/// and a final group of one or two bytes is padded with `=`.
pub open spec fn base64_spec(b: Seq<u8>) -> Seq<char>
    decreases b.len(),
{
    if b.len() == 0 {
        Seq::empty()
    } else if b.len() == 1 {
        seq![sextet_char((b[0] / 4) as nat), sextet_char(((b[0] % 4) * 16) as nat), '=', '=']
    } else if b.len() == 2 {
        seq![
            sextet_char((b[0] / 4) as nat),
            sextet_char(((b[0] % 4) * 16 + b[1] / 16) as nat),
            sextet_char(((b[1] % 16) * 4) as nat),
            '=',
        ]
    } else {
        seq![
            sextet_char((b[0] / 4) as nat),
            sextet_char(((b[0] % 4) * 16 + b[1] / 16) as nat),
            sextet_char(((b[1] % 16) * 4 + b[2] / 64) as nat),
            sextet_char((b[2] % 64) as nat),
        ] + base64_spec(b.skip(3))
    }
}

/// The Base64 character for a value below 64.
pub fn sextet(v: u32) -> (c: char)
    requires
        v < 64,
    ensures
        c == sextet_char(v as nat),
{
    let code: u32 = if v < 26 {
        65 + v
    } else if v < 52 {
        97 + (v - 26)
    } else if v < 62 {
        48 + (v - 52)
    } else if v == 62 {
        43
    } else {
        47
    };
    let byte = code as u8;
    byte as char
}

/// The encoding of `b[..i]` followed by that of `b[i..]` is that of `b`,
/// when `i` is a multiple of three.
proof fn lemma_base64_split(b: Seq<u8>, i: int)
    requires
        0 <= i <= b.len(),
        i % 3 == 0,
    ensures
        base64_spec(b) == base64_spec(b.take(i)) + base64_spec(b.skip(i)),
    decreases i,
{
    if i == 0 {
        assert(b.take(0) =~= Seq::<u8>::empty());
        assert(b.skip(0) =~= b);
        assert(Seq::<char>::empty() + base64_spec(b) =~= base64_spec(b));
    } else {
        let r = b.skip(3);
        lemma_base64_split(r, i - 3);
        assert(b.take(i).skip(3) =~= r.take(i - 3));
        assert(r.skip(i - 3) =~= b.skip(i));
        assert(b.take(i)[0] == b[0] && b.take(i)[1] == b[1] && b.take(i)[2] == b[2]);
        let head = base64_spec(b.take(i));
        assert(head == base64_spec(b.take(i)).take(4) + base64_spec(r.take(i - 3)));
        assert(base64_spec(b) =~= head + base64_spec(b.skip(i)));
    }
}

/// The four characters of the group that starts at `i`.
fn push_group(out: &mut String, b: &[u8], i: usize)
    requires
        i < b@.len(),
    ensures
        final(out)@ == old(out)@ + base64_spec(b@.skip(i as int)).take(4),
{
    let rest = b.len() - i;
    let b0 = b[i] as u32;
    if rest == 1 {
        push_char(out, sextet(b0 / 4));
        push_char(out, sextet((b0 % 4) * 16));
        push_char(out, '=');
        push_char(out, '=');
    } else if rest == 2 {
        let b1 = b[i + 1] as u32;
        push_char(out, sextet(b0 / 4));
        push_char(out, sextet((b0 % 4) * 16 + b1 / 16));
        push_char(out, sextet((b1 % 16) * 4));
        push_char(out, '=');
    } else {
        let b1 = b[i + 1] as u32;
        let b2 = b[i + 2] as u32;
        push_char(out, sextet(b0 / 4));
        push_char(out, sextet((b0 % 4) * 16 + b1 / 16));
        push_char(out, sextet((b1 % 16) * 4 + b2 / 64));
        push_char(out, sextet(b2 % 64));
    }
    proof {
        let s = b@.skip(i as int);
        assert(s[0] == b@[i as int]);
        if rest >= 2 {
            assert(s[1] == b@[i + 1]);
        }
        if rest >= 3 {
            assert(s[2] == b@[i + 2]);
        }
        assert(final(out)@ =~= old(out)@ + base64_spec(s).take(4));
    }
}

/// The encoding of the groups that follow position `i`, after `i` (a multiple of 3).
proof fn lemma_base64_step(b: Seq<u8>, i: int)
    requires
        0 <= i < b.len(),
        i % 3 == 0,
    ensures
        base64_spec(b.take(i)) + base64_spec(b.skip(i)).take(4) == base64_spec(
            b.take(if i + 3 <= b.len() { i + 3 } else { b.len() as int }),
        ),
{
    let j = if i + 3 <= b.len() {
        i + 3
    } else {
        b.len() as int
    };
    let t = b.take(j);
    if i + 3 <= b.len() {
        lemma_base64_split(t, i);
        assert(t.take(i) =~= b.take(i));
        assert(t.skip(i) =~= b.skip(i).take(3));
        let s = b.skip(i);
        assert(base64_spec(s.take(3)) =~= base64_spec(s).take(4)) by {
            let t3 = s.take(3);
            assert(t3.len() == 3);
            assert(t3.skip(3) =~= Seq::<u8>::empty());
            assert(base64_spec(t3.skip(3)) =~= Seq::<char>::empty());
            assert(t3[0] == s[0] && t3[1] == s[1] && t3[2] == s[2]);
            assert(s.len() >= 3);
        }
    } else {
        lemma_base64_split(t, i);
        assert(t.take(i) =~= b.take(i));
        assert(t.skip(i) =~= b.skip(i));
        assert(t =~= b);
        assert(base64_spec(b.skip(i)).take(4) =~= base64_spec(b.skip(i)));
    }
}

/// Encodes bytes as Base64, three bytes at a time.
pub fn encode_base64(bytes: &[u8]) -> (encoded: String)
    ensures
        encoded@ == base64_spec(bytes@),
{
    let mut encoded = String::new();
    let n = bytes.len();
    let mut i: usize = 0;
    assert(bytes@.take(0) =~= Seq::<u8>::empty());
    while i < n
        invariant
            n == bytes@.len(),
            i <= n,
            i % 3 == 0 || i == n,
            encoded@ == base64_spec(bytes@.take(i as int)),
        decreases n - i,
    {
        push_group(&mut encoded, bytes, i);
        proof {
            lemma_base64_step(bytes@, i as int);
        }
        i = if n - i >= 3 {
            i + 3
        } else {
            n
        };
    }
    assert(bytes@.take(n as int) =~= bytes@);
    encoded
}

/// Encodes bytes as Base64 with shifts and masks over each group.
pub fn base64_encode(bytes: &[u8]) -> (encoded: String)
    ensures
        encoded@ == base64_spec(bytes@),
{
    let mut encoded = String::new();
    let n = bytes.len();
    let mut index: usize = 0;
    assert(bytes@.take(0) =~= Seq::<u8>::empty());
    while index < n
        invariant
            n == bytes@.len(),
            index <= n,
            index % 3 == 0 || index == n,
            encoded@ == base64_spec(bytes@.take(index as int)),
        decreases n - index,
    {
        let ghost before = encoded@;
        let first = bytes[index];
        let second: Option<u8> = if n - index > 1 {
            Some(bytes[index + 1])
        } else {
            None
        };
        let third: Option<u8> = if n - index > 2 {
            Some(bytes[index + 2])
        } else {
            None
        };
        let s0: u8 = match second {
            Some(v) => v,
            None => 0,
        };
        let t0: u8 = match third {
            Some(v) => v,
            None => 0,
        };
        let c0: u8 = first >> 2;
        let c1: u8 = (first & 3) << 4 | s0 >> 4;
        proof {
            assert(first >> 2 == first / 4) by (bit_vector);
            assert((first & 3) << 4 | s0 >> 4 == (first % 4) * 16 + s0 / 16) by (bit_vector);
        }
        push_char(&mut encoded, sextet(c0 as u32));
        push_char(&mut encoded, sextet(c1 as u32));
        match second {
            Some(sv) => {
                let c2: u8 = (sv & 15) << 2 | t0 >> 6;
                proof {
                    assert((sv & 15) << 2 | t0 >> 6 == (sv % 16) * 4 + t0 / 64) by (bit_vector);
                }
                push_char(&mut encoded, sextet(c2 as u32));
            },
            None => push_char(&mut encoded, '='),
        }
        match third {
            Some(tv) => {
                let c3: u8 = tv & 63;
                proof {
                    assert(tv & 63 == tv % 64) by (bit_vector);
                }
                push_char(&mut encoded, sextet(c3 as u32));
            },
            None => push_char(&mut encoded, '='),
        }
        proof {
            let s = bytes@.skip(index as int);
            assert(s[0] == bytes@[index as int]);
            if n - index > 1 {
                assert(s[1] == bytes@[index + 1]);
            }
            if n - index > 2 {
                assert(s[2] == bytes@[index + 2]);
            }
            assert(encoded@ =~= before + base64_spec(s).take(4));
            lemma_base64_step(bytes@, index as int);
        }
        index = if n - index >= 3 {
            index + 3
        } else {
            n
        };
    }
    assert(bytes@.take(n as int) =~= bytes@);
    encoded
}

/// Base64 text is four characters for each started group of three bytes;
/// both encoders here produce exactly `base64_spec`.
pub proof fn lemma_base64_length(b: Seq<u8>)
    ensures
        base64_spec(b).len() == 4 * ((b.len() + 2) / 3),
    decreases b.len(),
{
    if b.len() >= 3 {
        lemma_base64_length(b.skip(3));
        assert(b.skip(3).len() == b.len() - 3);
        assert((b.len() - 3 + 2) / 3 + 1 == (b.len() + 2) / 3);
    }
}

} // verus!
