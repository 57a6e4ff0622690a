//! Remote execution over SSH: the command line sent to the remote shell, the
//! keep-alive and reuse rules of pooled connections, and the errors.
//!
//! A POSIX host runs `sh -lc '<script>'`; a Windows host runs PowerShell with
//! the script passed as Base64 of its UTF-16LE text.

use vstd::prelude::*;
use crate::base64::{base64_spec, encode_base64};
use crate::platform::RuntimePlatform;
use crate::sorting::{lex_less, lex_lt};
use crate::text::{
    chars_of, join_spec, join_strings, push_char, push_decimal, push_str, string_from_str,
    views_of, decimal,
};

verus! {

/// One command to run on a remote host.
#[derive(Debug, Clone)]
pub struct SshCommandRequest {
    pub executable: String,
    pub args: Vec<String>,
    /// Environment variables to set, as name and value.
    pub env: Vec<(String, String)>,
    pub working_directory: Option<String>,
    pub timeout_ms: u64,
}

/// How a remote command ended.
#[derive(Debug, Clone, Copy, PartialEq, Eq, Structural)]
pub struct SshCommandResult {
    pub code: i32,
    pub success: bool,
    pub timed_out: bool,
}

/// Why a remote command could not be run to its end.
#[derive(Debug, Clone, PartialEq, Eq)]
pub enum SshError {
    MissingAuthEnv(String),
    EmptyAuthEnv(String),
    AuthFileRead(String, String),
    EmptyAuthFile(String),
    Connect(String, u16, String),
    KnownHostsLoad(String, String),
    HostVerification(String, u16, String),
    Agent(String, String, u16, String),
    IdentityLoad(String, String),
    Authentication(String, String, u16, String),
    ChannelOpen(String, String, u16, String),
    CommandStart(String, String, u16, String),
    Timeout(u64),
}

/// `user@host:port`.
pub open spec fn user_at(user: Seq<char>, host: Seq<char>, port: u16) -> Seq<char> {
    user + "@"@ + host + ":"@ + decimal(port as nat)
}

impl SshError {
    /// The error's message.
    pub open spec fn message_spec(&self) -> Seq<char> {
        match self {
            SshError::MissingAuthEnv(r) => "SSH auth env '"@ + r@
                + "' is set but the environment variable is missing"@,
            SshError::EmptyAuthEnv(r) => "SSH auth env '"@ + r@ + "' resolved to an empty value"@,
            SshError::AuthFileRead(p, e) => "failed to read SSH auth file '"@ + p@ + "': "@ + e@,
            SshError::EmptyAuthFile(p) => "SSH auth file '"@ + p@ + "' resolved to an empty value"@,
            SshError::Connect(h, port, e) => "failed to connect to SSH server "@ + h@ + ":"@
                + decimal(*port as nat) + ": "@ + e@,
            SshError::KnownHostsLoad(p, e) => "failed to load known hosts from "@ + p@ + ": "@
                + e@,
            SshError::HostVerification(h, port, p) => "SSH host key for "@ + h@ + ":"@ + decimal(
                *port as nat,
            ) + " is not trusted by "@ + p@,
            SshError::Agent(u, h, port, e) => "failed to authenticate SSH agent for "@ + user_at(
                u@,
                h@,
                *port,
            ) + ": "@ + e@,
            SshError::IdentityLoad(p, e) => "failed to load SSH identity file '"@ + p@ + "': "@
                + e@,
            SshError::Authentication(u, h, port, e) => "SSH authentication failed for "@ + user_at(
                u@,
                h@,
                *port,
            ) + ": "@ + e@,
            SshError::ChannelOpen(u, h, port, e) => "failed to open SSH exec channel for "@
                + user_at(u@, h@, *port) + ": "@ + e@,
            SshError::CommandStart(u, h, port, e) => "failed to execute remote command on "@
                + user_at(u@, h@, *port) + ": "@ + e@,
            SshError::Timeout(ms) => "remote command timed out after "@ + decimal(*ms as nat)
                + " ms"@,
        }
    }

    /// The error's message.
    pub fn message(&self) -> (m: String)
        ensures
            m@ == self.message_spec(),
    {
        let mut m = String::new();
        match self {
            SshError::MissingAuthEnv(r) => {
                push_str(&mut m, "SSH auth env '");
                push_str(&mut m, r.as_str());
                push_str(&mut m, "' is set but the environment variable is missing");
            },
            SshError::EmptyAuthEnv(r) => {
                push_str(&mut m, "SSH auth env '");
                push_str(&mut m, r.as_str());
                push_str(&mut m, "' resolved to an empty value");
            },
            SshError::AuthFileRead(p, e) => {
                push_str(&mut m, "failed to read SSH auth file '");
                push_str(&mut m, p.as_str());
                push_str(&mut m, "': ");
                push_str(&mut m, e.as_str());
            },
            SshError::EmptyAuthFile(p) => {
                push_str(&mut m, "SSH auth file '");
                push_str(&mut m, p.as_str());
                push_str(&mut m, "' resolved to an empty value");
            },
            SshError::Connect(h, port, e) => {
                push_str(&mut m, "failed to connect to SSH server ");
                push_str(&mut m, h.as_str());
                push_str(&mut m, ":");
                push_decimal(&mut m, *port as u64);
                push_str(&mut m, ": ");
                push_str(&mut m, e.as_str());
            },
            SshError::KnownHostsLoad(p, e) => {
                push_str(&mut m, "failed to load known hosts from ");
                push_str(&mut m, p.as_str());
                push_str(&mut m, ": ");
                push_str(&mut m, e.as_str());
            },
            SshError::HostVerification(h, port, p) => {
                push_str(&mut m, "SSH host key for ");
                push_str(&mut m, h.as_str());
                push_str(&mut m, ":");
                push_decimal(&mut m, *port as u64);
                push_str(&mut m, " is not trusted by ");
                push_str(&mut m, p.as_str());
            },
            SshError::Agent(u, h, port, e) => {
                push_str(&mut m, "failed to authenticate SSH agent for ");
                push_user_at(&mut m, u, h, *port);
                push_str(&mut m, ": ");
                push_str(&mut m, e.as_str());
            },
            SshError::IdentityLoad(p, e) => {
                push_str(&mut m, "failed to load SSH identity file '");
                push_str(&mut m, p.as_str());
                push_str(&mut m, "': ");
                push_str(&mut m, e.as_str());
            },
            SshError::Authentication(u, h, port, e) => {
                push_str(&mut m, "SSH authentication failed for ");
                push_user_at(&mut m, u, h, *port);
                push_str(&mut m, ": ");
                push_str(&mut m, e.as_str());
            },
            SshError::ChannelOpen(u, h, port, e) => {
                push_str(&mut m, "failed to open SSH exec channel for ");
                push_user_at(&mut m, u, h, *port);
                push_str(&mut m, ": ");
                push_str(&mut m, e.as_str());
            },
            SshError::CommandStart(u, h, port, e) => {
                push_str(&mut m, "failed to execute remote command on ");
                push_user_at(&mut m, u, h, *port);
                push_str(&mut m, ": ");
                push_str(&mut m, e.as_str());
            },
            SshError::Timeout(ms) => {
                push_str(&mut m, "remote command timed out after ");
                push_decimal(&mut m, *ms);
                push_str(&mut m, " ms");
            },
        }
        proof {
            assert(m@ =~= self.message_spec());
        }
        m
    }
}

/// Appends `user@host:port`.
fn push_user_at(m: &mut String, user: &String, host: &String, port: u16)
    ensures
        final(m)@ == old(m)@ + user_at(user@, host@, port),
{
    push_str(m, user.as_str());
    push_str(m, "@");
    push_str(m, host.as_str());
    push_str(m, ":");
    push_decimal(m, port as u64);
    proof {
        assert(final(m)@ =~= old(m)@ + user_at(user@, host@, port));
    }
}

// ---------------------------------------------------------------------------
// Quoting
// ---------------------------------------------------------------------------

/// `s` with each `'` written as `'\''`.
pub open spec fn posix_escape(s: Seq<char>) -> Seq<char>
    decreases s.len(),
{
    if s.len() == 0 {
        Seq::empty()
    } else {
        posix_escape(s.drop_last()) + if s.last() == '\'' {
            "'\\''"@
        } else {
            seq![s.last()]
        }
    }
}

/// `s` as one POSIX shell word in single quotes.
pub open spec fn quote_posix_spec(s: Seq<char>) -> Seq<char> {
    if s.len() == 0 {
        "''"@
    } else {
        "'"@ + posix_escape(s) + "'"@
    }
}

/// `s` with each `'` doubled.
pub open spec fn powershell_escape(s: Seq<char>) -> Seq<char>
    decreases s.len(),
{
    if s.len() == 0 {
        Seq::empty()
    } else {
        powershell_escape(s.drop_last()) + if s.last() == '\'' {
            "''"@
        } else {
            seq![s.last()]
        }
    }
}

/// `s` as a PowerShell single-quoted string.
pub open spec fn quote_powershell_spec(s: Seq<char>) -> Seq<char> {
    "'"@ + powershell_escape(s) + "'"@
}

/// Quotes a value as one POSIX shell word.
pub fn quote_posix(value: &str) -> (q: String)
    ensures
        q@ == quote_posix_spec(value@),
{
    let v = chars_of(value);
    if v.len() == 0 {
        return string_from_str("''");
    }
    let mut q = string_from_str("'");
    let mut i: usize = 0;
    while i < v.len()
        invariant
            i <= v@.len(),
            q@ == "'"@ + posix_escape(v@.take(i as int)),
        decreases v@.len() - i,
    {
        if v[i] == '\'' {
            push_str(&mut q, "'\\''");
        } else {
            push_char(&mut q, v[i]);
        }
        proof {
            assert(v@.take(i + 1).drop_last() =~= v@.take(i as int));
        }
        i += 1;
    }
    push_str(&mut q, "'");
    assert(v@.take(i as int) =~= v@);
    q
}

/// Quotes a value as a PowerShell single-quoted string.
pub fn quote_powershell(value: &str) -> (q: String)
    ensures
        q@ == quote_powershell_spec(value@),
{
    let v = chars_of(value);
    let mut q = string_from_str("'");
    let mut i: usize = 0;
    while i < v.len()
        invariant
            i <= v@.len(),
            q@ == "'"@ + powershell_escape(v@.take(i as int)),
        decreases v@.len() - i,
    {
        if v[i] == '\'' {
            push_str(&mut q, "''");
        } else {
            push_char(&mut q, v[i]);
        }
        proof {
            assert(v@.take(i + 1).drop_last() =~= v@.take(i as int));
        }
        i += 1;
    }
    push_str(&mut q, "'");
    assert(v@.take(i as int) =~= v@);
    q
}

// ---------------------------------------------------------------------------
// Environment entries in name order
// ---------------------------------------------------------------------------

/// The environment entries by view.
pub open spec fn env_view(env: Seq<(String, String)>) -> Seq<(Seq<char>, Seq<char>)> {
    env.map_values(|e: (String, String)| (e.0@, e.1@))
}

/// Inserts `e` into `sorted` after every entry whose name is not greater.
pub open spec fn insert_by_name(sorted: Seq<(Seq<char>, Seq<char>)>, e: (Seq<char>, Seq<char>)) -> Seq<
    (Seq<char>, Seq<char>),
>
    decreases sorted.len(),
{
    if sorted.len() == 0 {
        seq![e]
    } else if lex_lt(e.0, sorted[0].0) {
        seq![e] + sorted
    } else {
        seq![sorted[0]] + insert_by_name(sorted.drop_first(), e)
    }
}

/// The entries ordered by name; entries of equal name keep their order.
pub open spec fn sort_by_name(s: Seq<(Seq<char>, Seq<char>)>) -> Seq<(Seq<char>, Seq<char>)>
    decreases s.len(),
{
    if s.len() == 0 {
        Seq::empty()
    } else {
        insert_by_name(sort_by_name(s.drop_last()), s.last())
    }
}

/// Whether no two entries have the same name.
pub open spec fn unique_names(s: Seq<(Seq<char>, Seq<char>)>) -> bool {
    forall|i: int, j: int| 0 <= i < j < s.len() ==> (#[trigger] s[i]).0 != (#[trigger] s[j]).0
}

/// Whether the entries are ordered by name (equal names allowed).
pub open spec fn sorted_by_name(s: Seq<(Seq<char>, Seq<char>)>) -> bool {
    forall|i: int, j: int| 0 <= i < j < s.len() ==> !lex_lt((#[trigger] s[j]).0, (#[trigger] s[i]).0)
}

proof fn lemma_insert_contains(sorted: Seq<(Seq<char>, Seq<char>)>, e: (Seq<char>, Seq<char>))
    ensures
        insert_by_name(sorted, e).len() == sorted.len() + 1,
        forall|p: (Seq<char>, Seq<char>)|
            #[trigger] insert_by_name(sorted, e).contains(p) <==> (sorted.contains(p) || p == e),
    decreases sorted.len(),
{
    if sorted.len() == 0 {
        assert forall|p: (Seq<char>, Seq<char>)| #[trigger] insert_by_name(sorted, e).contains(p) <==> (
        sorted.contains(p) || p == e) by {
            if insert_by_name(sorted, e).contains(p) {
                assert(seq![e][0] == e);
            }
            if p == e {
                assert(insert_by_name(sorted, e)[0] == e);
            }
        }
    } else if lex_lt(e.0, sorted[0].0) {
        let r = seq![e] + sorted;
        assert forall|p: (Seq<char>, Seq<char>)| #[trigger] r.contains(p) <==> (sorted.contains(p) || p == e) by {
            if r.contains(p) {
                let k = choose|k: int| 0 <= k < r.len() && r[k] == p;
                if k > 0 {
                    assert(sorted[k - 1] == p);
                }
            }
            if sorted.contains(p) {
                let k = choose|k: int| 0 <= k < sorted.len() && sorted[k] == p;
                assert(r[k + 1] == p);
            }
            if p == e {
                assert(r[0] == e);
            }
        }
    } else {
        let rest = sorted.drop_first();
        lemma_insert_contains(rest, e);
        let t = insert_by_name(rest, e);
        let r = seq![sorted[0]] + t;
        assert forall|p: (Seq<char>, Seq<char>)| #[trigger] r.contains(p) <==> (sorted.contains(p) || p == e) by {
            if r.contains(p) {
                let k = choose|k: int| 0 <= k < r.len() && r[k] == p;
                if k == 0 {
                    assert(sorted[0] == p);
                } else {
                    assert(t[k - 1] == p);
                    assert(t.contains(p));
                    if rest.contains(p) {
                        let m = choose|m: int| 0 <= m < rest.len() && rest[m] == p;
                        assert(sorted[m + 1] == p);
                    }
                }
            }
            if sorted.contains(p) {
                let k = choose|k: int| 0 <= k < sorted.len() && sorted[k] == p;
                if k == 0 {
                    assert(r[0] == p);
                } else {
                    assert(rest[k - 1] == p);
                    assert(rest.contains(p));
                    assert(t.contains(p));
                    let m = choose|m: int| 0 <= m < t.len() && t[m] == p;
                    assert(r[m + 1] == p);
                }
            }
            if p == e {
                assert(t.contains(e));
                let m = choose|m: int| 0 <= m < t.len() && t[m] == e;
                assert(r[m + 1] == e);
            }
        }
    }
}

proof fn lemma_sort_contains(s: Seq<(Seq<char>, Seq<char>)>)
    ensures
        sort_by_name(s).len() == s.len(),
        forall|p: (Seq<char>, Seq<char>)| #[trigger] sort_by_name(s).contains(p) <==> s.contains(p),
    decreases s.len(),
{
    if s.len() > 0 {
        let d = s.drop_last();
        lemma_sort_contains(d);
        lemma_insert_contains(sort_by_name(d), s.last());
        assert forall|p: (Seq<char>, Seq<char>)| #[trigger] sort_by_name(s).contains(p) <==> s.contains(p) by {
            if s.contains(p) {
                let k = choose|k: int| 0 <= k < s.len() && s[k] == p;
                if k < s.len() - 1 {
                    assert(d[k] == p);
                    assert(d.contains(p));
                }
            }
            if d.contains(p) {
                let k = choose|k: int| 0 <= k < d.len() && d[k] == p;
                assert(s[k] == p);
            }
        }
    }
}

proof fn lemma_insert_sorted(sorted: Seq<(Seq<char>, Seq<char>)>, e: (Seq<char>, Seq<char>))
    requires
        sorted_by_name(sorted),
    ensures
        sorted_by_name(insert_by_name(sorted, e)),
    decreases sorted.len(),
{
    if sorted.len() == 0 {
    } else if lex_lt(e.0, sorted[0].0) {
        let r = seq![e] + sorted;
        assert forall|i: int, j: int| 0 <= i < j < r.len() implies !lex_lt((#[trigger] r[j]).0, (#[trigger] r[i]).0) by {
            if i == 0 {
                assert(r[j] == sorted[j - 1]);
                if lex_lt(r[j].0, e.0) {
                    crate::sorting::lemma_lex_transitive(r[j].0, e.0, sorted[0].0);
                    if j - 1 == 0 {
                        crate::sorting::lemma_lex_irreflexive(sorted[0].0);
                    } else {
                        assert(!lex_lt(sorted[j - 1].0, sorted[0].0));
                    }
                }
            } else {
                assert(r[i] == sorted[i - 1] && r[j] == sorted[j - 1]);
            }
        }
    } else {
        let rest = sorted.drop_first();
        assert(sorted_by_name(rest)) by {
            assert forall|i: int, j: int| 0 <= i < j < rest.len() implies !lex_lt((#[trigger] rest[j]).0, (#[trigger] rest[i]).0) by {
                assert(rest[i] == sorted[i + 1] && rest[j] == sorted[j + 1]);
            }
        }
        lemma_insert_sorted(rest, e);
        lemma_insert_contains(rest, e);
        let t = insert_by_name(rest, e);
        let r = seq![sorted[0]] + t;
        assert forall|i: int, j: int| 0 <= i < j < r.len() implies !lex_lt((#[trigger] r[j]).0, (#[trigger] r[i]).0) by {
            if i == 0 {
                assert(r[j] == t[j - 1]);
                assert(t.contains(r[j]));
                if rest.contains(r[j]) {
                    let m = choose|m: int| 0 <= m < rest.len() && rest[m] == r[j];
                    assert(sorted[m + 1] == r[j]);
                }
            } else {
                assert(r[i] == t[i - 1] && r[j] == t[j - 1]);
            }
        }
    }
}

proof fn lemma_sort_sorted(s: Seq<(Seq<char>, Seq<char>)>)
    ensures
        sorted_by_name(sort_by_name(s)),
    decreases s.len(),
{
    if s.len() > 0 {
        lemma_sort_sorted(s.drop_last());
        lemma_insert_sorted(sort_by_name(s.drop_last()), s.last());
    }
}

proof fn lemma_sort_unique(s: Seq<(Seq<char>, Seq<char>)>)
    requires
        unique_names(s),
    ensures
        unique_names(sort_by_name(s)),
    decreases s.len(),
{
    if s.len() > 0 {
        let d = s.drop_last();
        assert(unique_names(d)) by {
            assert forall|i: int, j: int| 0 <= i < j < d.len() implies (#[trigger] d[i]).0 != (#[trigger] d[j]).0 by {
                assert(d[i] == s[i] && d[j] == s[j]);
            }
        }
        lemma_sort_unique(d);
        lemma_sort_contains(d);
        let sd = sort_by_name(d);
        let e = s.last();
        lemma_insert_contains(sd, e);
        assert forall|k: int| 0 <= k < sd.len() implies (#[trigger] sd[k]).0 != e.0 by {
            assert(sd.contains(sd[k]));
            assert(d.contains(sd[k]));
            let m = choose|m: int| 0 <= m < d.len() && d[m] == sd[k];
            assert(s[m] == d[m]);
            assert(s[m].0 != s[s.len() - 1].0);
        }
        lemma_insert_unique(sd, e);
    }
}

proof fn lemma_insert_unique(sorted: Seq<(Seq<char>, Seq<char>)>, e: (Seq<char>, Seq<char>))
    requires
        unique_names(sorted),
        forall|k: int| 0 <= k < sorted.len() ==> (#[trigger] sorted[k]).0 != e.0,
    ensures
        unique_names(insert_by_name(sorted, e)),
    decreases sorted.len(),
{
    if sorted.len() == 0 {
    } else if lex_lt(e.0, sorted[0].0) {
        let r = seq![e] + sorted;
        assert forall|i: int, j: int| 0 <= i < j < r.len() implies (#[trigger] r[i]).0 != (#[trigger] r[j]).0 by {
            if i == 0 {
                assert(r[j] == sorted[j - 1]);
            } else {
                assert(r[i] == sorted[i - 1] && r[j] == sorted[j - 1]);
            }
        }
    } else {
        let rest = sorted.drop_first();
        assert(unique_names(rest)) by {
            assert forall|i: int, j: int| 0 <= i < j < rest.len() implies (#[trigger] rest[i]).0 != (#[trigger] rest[j]).0 by {
                assert(rest[i] == sorted[i + 1] && rest[j] == sorted[j + 1]);
            }
        }
        assert forall|k: int| 0 <= k < rest.len() implies (#[trigger] rest[k]).0 != e.0 by {
            assert(rest[k] == sorted[k + 1]);
        }
        lemma_insert_unique(rest, e);
        lemma_insert_contains(rest, e);
        let t = insert_by_name(rest, e);
        let r = seq![sorted[0]] + t;
        assert forall|i: int, j: int| 0 <= i < j < r.len() implies (#[trigger] r[i]).0 != (#[trigger] r[j]).0 by {
            if i == 0 {
                assert(r[j] == t[j - 1]);
                assert(t.contains(r[j]));
                if rest.contains(r[j]) {
                    let m = choose|m: int| 0 <= m < rest.len() && rest[m] == r[j];
                    assert(sorted[m + 1] == r[j]);
                }
            } else {
                assert(r[i] == t[i - 1] && r[j] == t[j - 1]);
            }
        }
    }
}

proof fn lemma_sorted_sets_equal(a: Seq<(Seq<char>, Seq<char>)>, b: Seq<(Seq<char>, Seq<char>)>)
    requires
        sorted_by_name(a),
        sorted_by_name(b),
        unique_names(a),
        unique_names(b),
        forall|p: (Seq<char>, Seq<char>)| #[trigger] a.contains(p) <==> b.contains(p),
    ensures
        a == b,
    decreases a.len() + b.len(),
{
    if a.len() == 0 {
        if b.len() > 0 {
            assert(b.contains(b[0]));
            assert(a.contains(b[0]));
        }
        assert(a =~= b);
    } else if b.len() == 0 {
        assert(a.contains(a[0]));
        assert(b.contains(a[0]));
    } else {
        assert(a.contains(a[0]));
        assert(b.contains(a[0]));
        let k = choose|k: int| 0 <= k < b.len() && b[k] == a[0];
        assert(b.contains(b[0]));
        assert(a.contains(b[0]));
        let m = choose|m: int| 0 <= m < a.len() && a[m] == b[0];
        if k > 0 {
            if m == 0 {
                assert(b[0].0 == b[k].0);
            } else {
                assert(!lex_lt(a[m].0, a[0].0));
                assert(!lex_lt(b[k].0, b[0].0));
                assert(a[m].0 != a[0].0);
                crate::sorting::lemma_lex_total(a[m].0, a[0].0);
            }
        }
        assert(b[0] == a[0]);
        let a1 = a.drop_first();
        let b1 = b.drop_first();
        assert(sorted_by_name(a1)) by {
            assert forall|i: int, j: int| 0 <= i < j < a1.len() implies !lex_lt((#[trigger] a1[j]).0, (#[trigger] a1[i]).0) by {
                assert(a1[i] == a[i + 1] && a1[j] == a[j + 1]);
            }
        }
        assert(sorted_by_name(b1)) by {
            assert forall|i: int, j: int| 0 <= i < j < b1.len() implies !lex_lt((#[trigger] b1[j]).0, (#[trigger] b1[i]).0) by {
                assert(b1[i] == b[i + 1] && b1[j] == b[j + 1]);
            }
        }
        assert(unique_names(a1)) by {
            assert forall|i: int, j: int| 0 <= i < j < a1.len() implies (#[trigger] a1[i]).0 != (#[trigger] a1[j]).0 by {
                assert(a1[i] == a[i + 1] && a1[j] == a[j + 1]);
            }
        }
        assert(unique_names(b1)) by {
            assert forall|i: int, j: int| 0 <= i < j < b1.len() implies (#[trigger] b1[i]).0 != (#[trigger] b1[j]).0 by {
                assert(b1[i] == b[i + 1] && b1[j] == b[j + 1]);
            }
        }
        assert forall|p: (Seq<char>, Seq<char>)| #[trigger] a1.contains(p) <==> b1.contains(p) by {
            if a1.contains(p) {
                let i = choose|i: int| 0 <= i < a1.len() && a1[i] == p;
                assert(a[i + 1] == p);
                assert(a.contains(p));
                assert(b.contains(p));
                let j = choose|j: int| 0 <= j < b.len() && b[j] == p;
                if j == 0 {
                    assert(a[0].0 == a[i + 1].0);
                }
                assert(b1[j - 1] == p);
            }
            if b1.contains(p) {
                let i = choose|i: int| 0 <= i < b1.len() && b1[i] == p;
                assert(b[i + 1] == p);
                assert(b.contains(p));
                assert(a.contains(p));
                let j = choose|j: int| 0 <= j < a.len() && a[j] == p;
                if j == 0 {
                    assert(b[0].0 == b[i + 1].0);
                }
                assert(a1[j - 1] == p);
            }
        }
        lemma_sorted_sets_equal(a1, b1);
        assert(a =~= seq![a[0]] + a1);
        assert(b =~= seq![b[0]] + b1);
    }
}

/// Ordering entries by name forgets only their order: two lists of entries
/// with distinct names give the same ordered list exactly when they hold the
/// same entries (the same names with the same values).
pub proof fn lemma_sort_by_name_is_set_equality(a: Seq<(Seq<char>, Seq<char>)>, b: Seq<(Seq<char>, Seq<char>)>)
    requires
        unique_names(a),
        unique_names(b),
    ensures
        sort_by_name(a) == sort_by_name(b) <==> (forall|p: (Seq<char>, Seq<char>)|
            #[trigger] a.contains(p) <==> b.contains(p)),
{
    lemma_sort_contains(a);
    lemma_sort_contains(b);
    if sort_by_name(a) == sort_by_name(b) {
        assert forall|p: (Seq<char>, Seq<char>)| #[trigger] a.contains(p) <==> b.contains(p) by {
            assert(sort_by_name(a).contains(p) <==> a.contains(p));
            assert(sort_by_name(b).contains(p) <==> b.contains(p));
        }
    }
    if forall|p: (Seq<char>, Seq<char>)| #[trigger] a.contains(p) <==> b.contains(p) {
        lemma_sort_sorted(a);
        lemma_sort_sorted(b);
        lemma_sort_unique(a);
        lemma_sort_unique(b);
        assert forall|p: (Seq<char>, Seq<char>)| #[trigger] sort_by_name(a).contains(p) <==> sort_by_name(b).contains(p) by {
            assert(sort_by_name(a).contains(p) <==> a.contains(p));
            assert(sort_by_name(b).contains(p) <==> b.contains(p));
        }
        lemma_sorted_sets_equal(sort_by_name(a), sort_by_name(b));
    }
}

proof fn lemma_insert_at(sorted: Seq<(Seq<char>, Seq<char>)>, e: (Seq<char>, Seq<char>), p: int)
    requires
        0 <= p <= sorted.len(),
        forall|k: int| 0 <= k < p ==> !lex_lt(e.0, #[trigger] sorted[k].0),
        p < sorted.len() ==> lex_lt(e.0, sorted[p].0),
    ensures
        insert_by_name(sorted, e) == sorted.take(p) + seq![e] + sorted.skip(p),
    decreases p,
{
    if p == 0 {
        if sorted.len() == 0 {
            assert(sorted.take(0) + seq![e] + sorted.skip(0) =~= seq![e]);
        } else {
            assert(sorted.take(0) + seq![e] + sorted.skip(0) =~= seq![e] + sorted);
        }
    } else {
        let r = sorted.drop_first();
        assert forall|k: int| 0 <= k < p - 1 implies !lex_lt(e.0, #[trigger] r[k].0) by {
            assert(r[k] == sorted[k + 1]);
        }
        lemma_insert_at(r, e, p - 1);
        assert(sorted.take(p) + seq![e] + sorted.skip(p) =~= seq![sorted[0]] + (r.take(p - 1)
            + seq![e] + r.skip(p - 1)));
    }
}

/// Copies the entries ordered by name, entries of equal name in their order.
pub fn sorted_env(env: &[(String, String)]) -> (out: Vec<(String, String)>)
    ensures
        env_view(out@) == sort_by_name(env_view(env@)),
{
    let mut out: Vec<(String, String)> = Vec::new();
    let mut i: usize = 0;
    while i < env.len()
        invariant
            i <= env@.len(),
            env_view(out@) == sort_by_name(env_view(env@.take(i as int))),
        decreases env@.len() - i,
    {
        let key = chars_of(env[i].0.as_str());
        let mut p: usize = 0;
        while p < out.len() && !lex_less(key.as_slice(), chars_of(out[p].0.as_str()).as_slice())
            invariant
                p <= out@.len(),
                key@ == env@[i as int].0@,
                forall|k: int| 0 <= k < p ==> !lex_lt(key@, #[trigger] out@[k].0@),
            decreases out@.len() - p,
        {
            p += 1;
        }
        let ghost before = env_view(out@);
        let entry = (env[i].0.clone(), env[i].1.clone());
        out.insert(p, entry);
        proof {
            let e = (env@[i as int].0@, env@[i as int].1@);
            assert forall|k: int| 0 <= k < p implies !lex_lt(e.0, #[trigger] before[k].0) by {
                assert(before[k].0 == old_entry_name(before, k));
            }
            lemma_insert_at(before, e, p as int);
            assert(env_view(out@) =~= before.take(p as int) + seq![e] + before.skip(p as int));
            let t = env_view(env@.take(i + 1));
            assert(t.drop_last() =~= env_view(env@.take(i as int)));
            assert(t.last() == e);
        }
        i += 1;
    }
    assert(env@.take(i as int) =~= env@);
    out
}

/// The name of entry `k` (a named step for the solver).
spec fn old_entry_name(s: Seq<(Seq<char>, Seq<char>)>, k: int) -> Seq<char> {
    s[k].0
}

// ---------------------------------------------------------------------------
// POSIX remote command
// ---------------------------------------------------------------------------

/// One word quoted for the remote shell.
pub open spec fn quote_word(w: Seq<char>, windows: bool) -> Seq<char> {
    if windows {
        quote_powershell_spec(w)
    } else {
        quote_posix_spec(w)
    }
}

/// The quoted words of a command.
pub open spec fn quoted_words(exe: Seq<char>, args: Seq<Seq<char>>, windows: bool) -> Seq<Seq<char>> {
    seq![exe].add(args).map_values(|w: Seq<char>| quote_word(w, windows))
}

/// `NAME=value` words, quoted, in name order.
pub open spec fn posix_env_prefix(env: Seq<(Seq<char>, Seq<char>)>) -> Seq<char> {
    join_spec(
        sort_by_name(env).map_values(
            |e: (Seq<char>, Seq<char>)| quote_posix_spec(e.0 + "="@ + e.1),
        ),
        " "@,
    )
}

/// The command a POSIX host runs for a request.
pub open spec fn posix_remote_command(
    exe: Seq<char>,
    args: Seq<Seq<char>>,
    env: Seq<(Seq<char>, Seq<char>)>,
    wd: Option<Seq<char>>,
) -> Seq<char> {
    let prefix = posix_env_prefix(env);
    let command = join_spec(quoted_words(exe, args, false), " "@);
    let exec_command = if prefix.len() == 0 {
        "exec "@ + command
    } else {
        "exec env "@ + prefix + " "@ + command
    };
    let script = match wd {
        Some(w) => "cd -- "@ + quote_posix_spec(w) + " && "@ + exec_command,
        None => exec_command,
    };
    "sh -lc "@ + quote_posix_spec(script)
}

/// The quoted words of a command, as strings.
fn quote_words(exe: &str, args: &[String], windows: bool) -> (out: Vec<String>)
    ensures
        views_of(out@) == quoted_words(exe@, views_of(args@), windows),
{
    let mut out: Vec<String> = Vec::new();
    if windows {
        out.push(quote_powershell(exe));
    } else {
        out.push(quote_posix(exe));
    }
    assert(views_of(args@.take(0)) =~= Seq::<Seq<char>>::empty());
    assert(views_of(out@) =~= quoted_words(exe@, views_of(args@.take(0)), windows));
    let mut i: usize = 0;
    while i < args.len()
        invariant
            i <= args@.len(),
            views_of(out@) == quoted_words(exe@, views_of(args@.take(i as int)), windows),
        decreases args@.len() - i,
    {
        let ghost before = views_of(out@);
        let q = if windows {
            quote_powershell(args[i].as_str())
        } else {
            quote_posix(args[i].as_str())
        };
        out.push(q);
        proof {
            let a = args@[i as int]@;
            assert(views_of(out@) =~= before.push(quote_word(a, windows)));
            assert(views_of(args@.take(i + 1)) =~= views_of(args@.take(i as int)).push(a));
            let w = seq![exe@].add(views_of(args@.take(i as int)));
            assert(seq![exe@].add(views_of(args@.take(i + 1))) =~= w.push(a));
            assert(w.push(a).map_values(|x: Seq<char>| quote_word(x, windows)) =~= w.map_values(
                |x: Seq<char>| quote_word(x, windows),
            ).push(quote_word(a, windows)));
        }
        i += 1;
    }
    assert(args@.take(i as int) =~= args@);
    out
}

/// The quoted `NAME=value` words of the environment, in name order.
fn posix_env_words(env: &[(String, String)]) -> (out: Vec<String>)
    ensures
        views_of(out@) == sort_by_name(env_view(env@)).map_values(
            |e: (Seq<char>, Seq<char>)| quote_posix_spec(e.0 + "="@ + e.1),
        ),
{
    let sorted = sorted_env(env);
    let ghost s = env_view(sorted@);
    let mut out: Vec<String> = Vec::new();
    let mut i: usize = 0;
    while i < sorted.len()
        invariant
            i <= sorted@.len(),
            s == env_view(sorted@),
            views_of(out@) == s.take(i as int).map_values(
                |e: (Seq<char>, Seq<char>)| quote_posix_spec(e.0 + "="@ + e.1),
            ),
        decreases sorted@.len() - i,
    {
        let mut word = string_from_str(sorted[i].0.as_str());
        push_str(&mut word, "=");
        push_str(&mut word, sorted[i].1.as_str());
        out.push(quote_posix(word.as_str()));
        proof {
            assert(s.take(i + 1).map_values(
                |e: (Seq<char>, Seq<char>)| quote_posix_spec(e.0 + "="@ + e.1),
            ) =~= s.take(i as int).map_values(
                |e: (Seq<char>, Seq<char>)| quote_posix_spec(e.0 + "="@ + e.1),
            ).push(quote_posix_spec(s[i as int].0 + "="@ + s[i as int].1)));
        }
        i += 1;
    }
    assert(s.take(i as int) =~= s);
    out
}

/// The view of an optional string.
pub open spec fn opt_string_view(o: Option<String>) -> Option<Seq<char>> {
    match o {
        Some(s) => Some(s@),
        None => None,
    }
}

/// The command a POSIX host runs for the request.
pub fn build_posix_remote_command(request: &SshCommandRequest) -> (c: String)
    ensures
        c@ == posix_remote_command(
            request.executable@,
            views_of(request.args@),
            env_view(request.env@),
            opt_string_view(request.working_directory),
        ),
{
    let env_words = posix_env_words(request.env.as_slice());
    let env_prefix = join_strings(env_words.as_slice(), " ");
    let words = quote_words(request.executable.as_str(), request.args.as_slice(), false);
    let command = join_strings(words.as_slice(), " ");
    let prefix_chars = chars_of(env_prefix.as_str());
    let mut exec_command: String;
    if prefix_chars.len() == 0 {
        exec_command = string_from_str("exec ");
        push_str(&mut exec_command, command.as_str());
    } else {
        exec_command = string_from_str("exec env ");
        push_str(&mut exec_command, env_prefix.as_str());
        push_str(&mut exec_command, " ");
        push_str(&mut exec_command, command.as_str());
    }
    let script = match &request.working_directory {
        Some(wd) => {
            let mut s = string_from_str("cd -- ");
            let q = quote_posix(wd.as_str());
            push_str(&mut s, q.as_str());
            push_str(&mut s, " && ");
            push_str(&mut s, exec_command.as_str());
            s
        },
        None => exec_command,
    };
    let mut c = string_from_str("sh -lc ");
    let q = quote_posix(script.as_str());
    push_str(&mut c, q.as_str());
    c
}

// ---------------------------------------------------------------------------
// Windows remote command
// ---------------------------------------------------------------------------

/// The PowerShell script run for a request, one statement per line.
pub open spec fn windows_script_lines(
    exe: Seq<char>,
    args: Seq<Seq<char>>,
    env: Seq<(Seq<char>, Seq<char>)>,
    wd: Option<Seq<char>>,
) -> Seq<Seq<char>> {
    let head = seq!["$ErrorActionPreference = 'Stop'"@];
    let location = match wd {
        Some(w) => seq!["Set-Location -LiteralPath "@ + quote_powershell_spec(w)],
        None => Seq::empty(),
    };
    let vars = sort_by_name(env).map_values(
        |e: (Seq<char>, Seq<char>)|
            "[System.Environment]::SetEnvironmentVariable("@ + quote_powershell_spec(e.0) + ", "@
                + quote_powershell_spec(e.1) + ", 'Process')"@,
    );
    head + location + vars + seq![
        "& "@ + join_spec(quoted_words(exe, args, true), " "@),
        "exit $LASTEXITCODE"@,
    ]
}

/// The UTF-16 code units of one character.
pub open spec fn utf16_units(c: char) -> Seq<u32> {
    let v = c as u32;
    if v < 0x10000 {
        seq![v]
    } else {
        seq![
            (0xD800 + (v - 0x10000) / 1024) as u32,
            (0xDC00 + (v - 0x10000) % 1024) as u32,
        ]
    }
}

/// A code unit's two bytes, low byte first.
pub open spec fn unit_le_bytes(u: u32) -> Seq<u8> {
    seq![(u % 256) as u8, (u / 256) as u8]
}

/// The UTF-16LE bytes of a text.
pub open spec fn utf16le(s: Seq<char>) -> Seq<u8>
    decreases s.len(),
{
    if s.len() == 0 {
        Seq::empty()
    } else {
        let units = utf16_units(s.last());
        utf16le(s.drop_last()) + if units.len() == 1 {
            unit_le_bytes(units[0])
        } else {
            unit_le_bytes(units[0]) + unit_le_bytes(units[1])
        }
    }
}

/// The command a Windows host runs for a request.
pub open spec fn windows_remote_command(
    exe: Seq<char>,
    args: Seq<Seq<char>>,
    env: Seq<(Seq<char>, Seq<char>)>,
    wd: Option<Seq<char>>,
) -> Seq<char> {
    "powershell -NoLogo -NoProfile -NonInteractive -ExecutionPolicy Bypass -EncodedCommand "@
        + base64_spec(utf16le(join_spec(windows_script_lines(exe, args, env, wd), "\n"@)))
}

/// Appends one code unit's two bytes, low byte first.
fn push_unit(bytes: &mut Vec<u8>, u: u32)
    requires
        u < 0x10000,
    ensures
        final(bytes)@ == old(bytes)@ + unit_le_bytes(u),
{
    bytes.push((u % 256) as u8);
    bytes.push((u / 256) as u8);
    assert(final(bytes)@ =~= old(bytes)@ + unit_le_bytes(u));
}

/// The UTF-16LE bytes of a text.
pub fn encode_utf16le(script: &str) -> (bytes: Vec<u8>)
    ensures
        bytes@ == utf16le(script@),
{
    let chars = chars_of(script);
    let mut bytes: Vec<u8> = Vec::new();
    let mut i: usize = 0;
    while i < chars.len()
        invariant
            i <= chars@.len(),
            bytes@ == utf16le(chars@.take(i as int)),
        decreases chars@.len() - i,
    {
        let c = chars[i];
        let v = c as u32;
        proof {
            vstd::utf8::char_is_scalar(c);
        }
        if v < 0x10000 {
            push_unit(&mut bytes, v);
        } else {
            let w = v - 0x10000;
            push_unit(&mut bytes, 0xD800 + w / 1024);
            push_unit(&mut bytes, 0xDC00 + w % 1024);
        }
        proof {
            let t = chars@.take(i + 1);
            assert(t.drop_last() =~= chars@.take(i as int));
            assert(t.last() == c);
        }
        i += 1;
    }
    assert(chars@.take(i as int) =~= chars@);
    bytes
}

/// The `SetEnvironmentVariable` statements of the environment, in name order.
fn windows_env_lines(env: &[(String, String)]) -> (out: Vec<String>)
    ensures
        views_of(out@) == sort_by_name(env_view(env@)).map_values(
            |e: (Seq<char>, Seq<char>)|
                "[System.Environment]::SetEnvironmentVariable("@ + quote_powershell_spec(e.0)
                    + ", "@ + quote_powershell_spec(e.1) + ", 'Process')"@,
        ),
{
    let sorted = sorted_env(env);
    let ghost s = env_view(sorted@);
    let mut out: Vec<String> = Vec::new();
    let mut i: usize = 0;
    while i < sorted.len()
        invariant
            i <= sorted@.len(),
            s == env_view(sorted@),
            views_of(out@) == s.take(i as int).map_values(
                |e: (Seq<char>, Seq<char>)|
                    "[System.Environment]::SetEnvironmentVariable("@ + quote_powershell_spec(e.0)
                        + ", "@ + quote_powershell_spec(e.1) + ", 'Process')"@,
            ),
        decreases sorted@.len() - i,
    {
        let mut line = string_from_str("[System.Environment]::SetEnvironmentVariable(");
        let k = quote_powershell(sorted[i].0.as_str());
        let v = quote_powershell(sorted[i].1.as_str());
        push_str(&mut line, k.as_str());
        push_str(&mut line, ", ");
        push_str(&mut line, v.as_str());
        push_str(&mut line, ", 'Process')");
        out.push(line);
        proof {
            assert(s.take(i + 1).map_values(
                |e: (Seq<char>, Seq<char>)|
                    "[System.Environment]::SetEnvironmentVariable("@ + quote_powershell_spec(e.0)
                        + ", "@ + quote_powershell_spec(e.1) + ", 'Process')"@,
            ) =~= s.take(i as int).map_values(
                |e: (Seq<char>, Seq<char>)|
                    "[System.Environment]::SetEnvironmentVariable("@ + quote_powershell_spec(e.0)
                        + ", "@ + quote_powershell_spec(e.1) + ", 'Process')"@,
            ).push(
                "[System.Environment]::SetEnvironmentVariable("@ + quote_powershell_spec(
                    s[i as int].0,
                ) + ", "@ + quote_powershell_spec(s[i as int].1) + ", 'Process')"@,
            ));
        }
        i += 1;
    }
    assert(s.take(i as int) =~= s);
    out
}

/// The PowerShell script run for the request.
pub fn build_windows_script(request: &SshCommandRequest) -> (script: String)
    ensures
        script@ == join_spec(
            windows_script_lines(
                request.executable@,
                views_of(request.args@),
                env_view(request.env@),
                opt_string_view(request.working_directory),
            ),
            "\n"@,
        ),
{
    let mut lines: Vec<String> = Vec::new();
    lines.push(string_from_str("$ErrorActionPreference = 'Stop'"));
    if let Some(wd) = &request.working_directory {
        let mut line = string_from_str("Set-Location -LiteralPath ");
        let q = quote_powershell(wd.as_str());
        push_str(&mut line, q.as_str());
        lines.push(line);
    }
    let ghost head = views_of(lines@);
    let env_lines = windows_env_lines(request.env.as_slice());
    assert(views_of(env_lines@.take(0)) =~= Seq::<Seq<char>>::empty());
    assert(head + views_of(env_lines@.take(0)) =~= head);
    let mut i: usize = 0;
    while i < env_lines.len()
        invariant
            i <= env_lines@.len(),
            views_of(lines@) == head + views_of(env_lines@.take(i as int)),
        decreases env_lines@.len() - i,
    {
        let ghost before = views_of(lines@);
        let line = env_lines[i].clone();
        lines.push(line);
        proof {
            assert(views_of(lines@) =~= before.push(env_lines@[i as int]@));
            assert(views_of(env_lines@.take(i + 1)) =~= views_of(env_lines@.take(i as int)).push(
                env_lines@[i as int]@,
            ));
            assert(views_of(lines@) =~= head + views_of(env_lines@.take(i + 1)));
        }
        i += 1;
    }
    let words = quote_words(request.executable.as_str(), request.args.as_slice(), true);
    let joined = join_strings(words.as_slice(), " ");
    let mut call = string_from_str("& ");
    push_str(&mut call, joined.as_str());
    let ghost middle = views_of(lines@);
    lines.push(call);
    lines.push(string_from_str("exit $LASTEXITCODE"));
    proof {
        assert(env_lines@.take(i as int) =~= env_lines@);
        assert(views_of(lines@) =~= middle + seq![
            "& "@ + join_spec(
                quoted_words(request.executable@, views_of(request.args@), true),
                " "@,
            ),
            "exit $LASTEXITCODE"@,
        ]);
        let expected = windows_script_lines(
            request.executable@,
            views_of(request.args@),
            env_view(request.env@),
            opt_string_view(request.working_directory),
        );
        assert(views_of(lines@) =~= expected);
    }
    join_strings(lines.as_slice(), "\n")
}

/// The Base64 of the script's UTF-16LE text, as PowerShell's `-EncodedCommand` takes it.
pub fn encode_powershell_command(script: &str) -> (encoded: String)
    ensures
        encoded@ == base64_spec(utf16le(script@)),
{
    let bytes = encode_utf16le(script);
    encode_base64(bytes.as_slice())
}

/// The command a Windows host runs for the request.
pub fn build_windows_remote_command(request: &SshCommandRequest) -> (c: String)
    ensures
        c@ == windows_remote_command(
            request.executable@,
            views_of(request.args@),
            env_view(request.env@),
            opt_string_view(request.working_directory),
        ),
{
    let script = build_windows_script(request);
    let encoded = encode_powershell_command(script.as_str());
    let mut c = string_from_str(
        "powershell -NoLogo -NoProfile -NonInteractive -ExecutionPolicy Bypass -EncodedCommand ",
    );
    push_str(&mut c, encoded.as_str());
    c
}

/// The command sent to the remote host, by its platform.
pub fn build_remote_command(platform: RuntimePlatform, request: &SshCommandRequest) -> (c: String)
    ensures
        c@ == match platform {
            RuntimePlatform::Windows => windows_remote_command(
                request.executable@,
                views_of(request.args@),
                env_view(request.env@),
                opt_string_view(request.working_directory),
            ),
            _ => posix_remote_command(
                request.executable@,
                views_of(request.args@),
                env_view(request.env@),
                opt_string_view(request.working_directory),
            ),
        },
{
    match platform {
        RuntimePlatform::Windows => build_windows_remote_command(request),
        _ => build_posix_remote_command(request),
    }
}

// ---------------------------------------------------------------------------
// Pooled connections
// ---------------------------------------------------------------------------

/// The shortest keep-alive interval, in nanoseconds.
pub const MIN_KEEPALIVE_NANOS: u64 = 2_000_000_000;

/// The longest keep-alive interval, in nanoseconds.
pub const MAX_KEEPALIVE_NANOS: u64 = 30_000_000_000;

/// The keep-alive interval for an idle timeout: none below twice the shortest
/// interval, else a third of the timeout kept between the two bounds.
pub open spec fn keepalive_spec(idle_timeout_ms: u64) -> Option<u64> {
    let idle = idle_timeout_ms * 1_000_000;
    if idle < 2 * MIN_KEEPALIVE_NANOS {
        None
    } else if idle / 3 < MIN_KEEPALIVE_NANOS {
        Some(MIN_KEEPALIVE_NANOS)
    } else if idle / 3 > MAX_KEEPALIVE_NANOS {
        Some(MAX_KEEPALIVE_NANOS)
    } else {
        Some((idle / 3) as u64)
    }
}

/// The interval between keep-alive messages on a connection that is dropped
/// after `idle_timeout_ms` of silence, in nanoseconds.
pub fn keepalive_interval_for(idle_timeout_ms: u64) -> (r: Option<u64>)
    ensures
        r == keepalive_spec(idle_timeout_ms),
{
    let idle: u128 = (idle_timeout_ms as u128) * 1_000_000;
    if idle < 2 * (MIN_KEEPALIVE_NANOS as u128) {
        return None;
    }
    let candidate = idle / 3;
    if candidate < MIN_KEEPALIVE_NANOS as u128 {
        Some(MIN_KEEPALIVE_NANOS)
    } else if candidate > MAX_KEEPALIVE_NANOS as u128 {
        Some(MAX_KEEPALIVE_NANOS)
    } else {
        Some(candidate as u64)
    }
}

/// Whether a connection returned to the pool at `returned_at` has been idle
/// for its whole timeout at `now` (times in milliseconds; a clock that went
/// back counts as no time passed).
pub fn is_connection_expired(returned_at: u64, idle_timeout_ms: u64, now: u64) -> (b: bool)
    ensures
        b == (now.saturating_sub(returned_at) >= idle_timeout_ms),
{
    now.saturating_sub(returned_at) >= idle_timeout_ms
}

/// Where a command attempt failed.
#[derive(Debug, Clone, Copy, PartialEq, Eq, Structural)]
pub enum CommandAttemptStage {
    /// While opening the channel on the connection.
    ConnectionSetup,
    /// After the command had started.
    Runtime,
}

/// Whether a failed attempt is tried once more on a new connection: only
/// when a pooled connection failed before the command started, and only once.
pub fn should_retry_with_fresh_session(
    reused_connection: bool,
    allow_fresh_retry: bool,
    stage: CommandAttemptStage,
) -> (b: bool)
    ensures
        b == (reused_connection && allow_fresh_retry && stage == CommandAttemptStage::ConnectionSetup),
{
    reused_connection && allow_fresh_retry && match stage {
        CommandAttemptStage::ConnectionSetup => true,
        CommandAttemptStage::Runtime => false,
    }
}

// ---------------------------------------------------------------------------
// Password sources
// ---------------------------------------------------------------------------

/// `s` without its trailing carriage returns and line feeds.
pub open spec fn trim_line_ends(s: Seq<char>) -> Seq<char>
    decreases s.len(),
{
    if s.len() > 0 && (s.last() == '\r' || s.last() == '\n') {
        trim_line_ends(s.drop_last())
    } else {
        s
    }
}

/// The password held in the environment variable `reference`, given the
/// variable's value (`None` when it is not set).
pub fn resolve_auth_env(reference: &str, value: Option<&str>) -> (r: Result<String, SshError>)
    ensures
        match value {
            None => r is Err && r->Err_0 is MissingAuthEnv && r->Err_0->MissingAuthEnv_0@
                == reference@,
            Some(v) => if crate::text::trim_seq(v@).len() == 0 {
                r is Err && r->Err_0 is EmptyAuthEnv && r->Err_0->EmptyAuthEnv_0@ == reference@
            } else {
                r is Ok && r->Ok_0@ == v@
            },
        },
{
    match value {
        None => Err(SshError::MissingAuthEnv(string_from_str(reference))),
        Some(v) => {
            if crate::text::is_blank(v) {
                Err(SshError::EmptyAuthEnv(string_from_str(reference)))
            } else {
                Ok(string_from_str(v))
            }
        },
    }
}

/// The password held in the file `reference`, given what reading it gave:
/// its text without trailing line ends, unless that is empty.
pub fn resolve_auth_file(reference: &str, read: Result<String, String>) -> (r: Result<String, SshError>)
    ensures
        match read {
            Err(e) => r is Err && r->Err_0 is AuthFileRead && r->Err_0->AuthFileRead_0@ == reference@
                && r->Err_0->AuthFileRead_1@ == e@,
            Ok(text) => if trim_line_ends(text@).len() == 0 {
                r is Err && r->Err_0 is EmptyAuthFile && r->Err_0->EmptyAuthFile_0@ == reference@
            } else {
                r is Ok && r->Ok_0@ == trim_line_ends(text@)
            },
        },
{
    match read {
        Err(e) => Err(SshError::AuthFileRead(string_from_str(reference), e)),
        Ok(text) => {
            let chars = chars_of(text.as_str());
            let mut n: usize = chars.len();
            assert(chars@.take(n as int) =~= chars@);
            while n > 0 && (chars[n - 1] == '\r' || chars[n - 1] == '\n')
                invariant
                    n <= chars@.len(),
                    trim_line_ends(chars@) == trim_line_ends(chars@.take(n as int)),
                decreases n,
            {
                proof {
                    assert(chars@.take(n as int).drop_last() =~= chars@.take(n - 1));
                }
                n -= 1;
            }
            if n == 0 {
                return Err(SshError::EmptyAuthFile(string_from_str(reference)));
            }
            Ok(crate::text::string_from_chars(crate::text::slice_range(chars.as_slice(), 0, n).as_slice()))
        },
    }
}

} // verus!
