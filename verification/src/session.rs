//! Browser sessions of the web console.
//!
//! The server prints a one-time bootstrap URL; the browser trades the token in
//! its fragment for a session cookie, which then authenticates its requests.
//! Times are milliseconds on a clock the caller reads; fresh tokens are drawn
//! by the caller (the server uses random UUIDs).

use vstd::prelude::*;
use crate::auth::constant_time_equals;
use crate::text::{
    chars_equal, chars_of, contains_char, find_char, first_index, last_index, lemma_first_index,
    lemma_last_index, push_chars, push_decimal, push_str, slice_range, string_from_chars,
    string_from_str, trim_seq, trimmed_chars, decimal,
};
use vstd::utf8::encode_utf8_decode_utf8;

verus! {

/// The name of the session cookie.
pub const SESSION_COOKIE_NAME: &'static str = "hb_ui_session";

/// How long a bootstrap token can be exchanged, in milliseconds.
pub const BOOTSTRAP_TTL_MS: u64 = 60_000;

/// How long a session lasts, in seconds.
pub const SESSION_TTL_SECS: u64 = 604_800;

/// How long a session lasts, in milliseconds.
pub const SESSION_TTL_MS: u64 = SESSION_TTL_SECS * 1000;

/// Whether `c` is a lower-case hexadecimal digit.
pub open spec fn is_lower_hex(c: char) -> bool {
    ('0' <= c && c <= '9') || ('a' <= c && c <= 'f')
}

/// One open session: its token and when it expires.
#[derive(Debug)]
pub struct SessionEntry {
    pub token: String,
    pub expires_at: u64,
}

/// The pending bootstrap token and when it stops being accepted.
#[derive(Debug)]
pub struct BootstrapToken {
    pub value: String,
    pub expires_at: u64,
}

/// The sessions by token, each with its expiry.
pub open spec fn session_map(s: Seq<SessionEntry>) -> Map<Seq<char>, u64>
    decreases s.len(),
{
    if s.len() == 0 {
        Map::empty()
    } else {
        session_map(s.drop_last()).insert(s.last().token@, s.last().expires_at)
    }
}

/// No token occurs twice.
pub open spec fn unique_tokens(s: Seq<SessionEntry>) -> bool {
    forall|i: int, j: int| 0 <= i < j < s.len() ==> s[i].token@ != s[j].token@
}

/// The map of a list without repeated tokens holds exactly its entries.
proof fn lemma_session_map(s: Seq<SessionEntry>)
    requires
        unique_tokens(s),
    ensures
        forall|j: int| #![auto] 0 <= j < s.len() ==> session_map(s).dom().contains(s[j].token@)
            && session_map(s)[s[j].token@] == s[j].expires_at,
        forall|k: Seq<char>| #![auto] session_map(s).dom().contains(k) ==> exists|j: int|
            0 <= j < s.len() && s[j].token@ == k,
    decreases s.len(),
{
    if s.len() > 0 {
        let p = s.drop_last();
        assert(unique_tokens(p));
        lemma_session_map(p);
        assert forall|j: int| #![auto] 0 <= j < s.len() implies session_map(s).dom().contains(
            s[j].token@,
        ) && session_map(s)[s[j].token@] == s[j].expires_at by {
            if j < s.len() - 1 {
                assert(p[j] == s[j]);
                assert(s[j].token@ != s.last().token@);
            }
        }
        assert forall|k: Seq<char>| #![auto] session_map(s).dom().contains(k) implies exists|j: int|
            0 <= j < s.len() && s[j].token@ == k by {
            if k != s.last().token@ {
                assert(session_map(p).dom().contains(k));
                let j = choose|j: int| 0 <= j < p.len() && p[j].token@ == k;
                assert(s[j] == p[j]);
            } else {
                assert(s[s.len() - 1].token@ == k);
            }
        }
    }
}

/// The sessions still open at `now`.
pub open spec fn open_at(m: Map<Seq<char>, u64>, now: u64) -> Map<Seq<char>, u64> {
    Map::new(|k: Seq<char>| m.dom().contains(k) && m[k] > now, |k: Seq<char>| m[k])
}

/// The controller's state by view: the pending bootstrap token with its
/// expiry, and the open sessions with theirs.
pub struct SessionsView {
    pub bootstrap: Option<(Seq<char>, u64)>,
    pub sessions: Map<Seq<char>, u64>,
}

/// Drops what has expired at `now`.
pub open spec fn prune_view(v: SessionsView, now: u64) -> SessionsView {
    SessionsView {
        bootstrap: match v.bootstrap {
            Some((t, e)) => if e <= now {
                None
            } else {
                Some((t, e))
            },
            None => None,
        },
        sessions: open_at(v.sessions, now),
    }
}

/// Opens a session with token `fresh` at `now`.
pub open spec fn issue_view(v: SessionsView, now: u64, fresh: Seq<char>) -> SessionsView {
    let p = prune_view(v, now);
    SessionsView {
        bootstrap: p.bootstrap,
        sessions: p.sessions.insert(fresh, now.saturating_add(SESSION_TTL_MS)),
    }
}

/// Trades a bootstrap token for a session with token `fresh`: the result is
/// the session token, or `None` when `token` is not the pending bootstrap token.
pub open spec fn exchange_view(v: SessionsView, token: Seq<char>, now: u64, fresh: Seq<char>) -> (
    Option<Seq<char>>,
    SessionsView,
) {
    let p = prune_view(v, now);
    match p.bootstrap {
        Some((t, e)) => if e > now && t == token {
            (
                Some(fresh),
                SessionsView {
                    bootstrap: None,
                    sessions: p.sessions.insert(fresh, now.saturating_add(SESSION_TTL_MS)),
                },
            )
        } else {
            (None, p)
        },
        None => (None, p),
    }
}

/// Installs a new bootstrap token at `now`.
pub open spec fn bootstrap_view(v: SessionsView, now: u64, token: Seq<char>) -> SessionsView {
    SessionsView {
        bootstrap: Some((token, now.saturating_add(BOOTSTRAP_TTL_MS))),
        sessions: prune_view(v, now).sessions,
    }
}

/// Whether a request whose `Cookie` header is `cookie_header` holds an open
/// session at `now`, and the state after the check.
pub open spec fn authenticate_view(
    v: SessionsView,
    cookie_header: Option<Seq<char>>,
    now: u64,
) -> (bool, SessionsView) {
    match cookie_header {
        None => (false, v),
        Some(h) => match cookie_scan(h) {
            None => (false, v),
            Some(token) => {
                let p = prune_view(v, now);
                (p.sessions.dom().contains(token) && p.sessions[token] > now, p)
            },
        },
    }
}

/// Closes the session a `Cookie` header names, if it names one.
pub open spec fn revoke_view(v: SessionsView, cookie_header: Option<Seq<char>>) -> SessionsView {
    match cookie_header {
        None => v,
        Some(h) => match cookie_scan(h) {
            None => v,
            Some(token) => SessionsView { bootstrap: v.bootstrap, sessions: v.sessions.remove(token) },
        },
    }
}

/// The session token one `name=value` part of a `Cookie` header carries.
pub open spec fn cookie_part_value(part: Seq<char>) -> Option<Seq<char>> {
    let t = trim_seq(part);
    match first_index(t, '=', 0) {
        None => None,
        Some(j) => if t.subrange(0, j) == "hb_ui_session"@ && j + 1 < t.len() {
            Some(t.subrange(j + 1, t.len() as int))
        } else {
            None
        },
    }
}

/// The session token of the first `;`-separated part of a `Cookie` header
/// that carries one.
pub open spec fn cookie_scan(s: Seq<char>) -> Option<Seq<char>>
    decreases s.len(),
{
    match first_index(s, ';', 0) {
        None => cookie_part_value(s),
        Some(i) => {
            proof {
                lemma_first_index(s, ';', 0);
            }
            match cookie_part_value(s.subrange(0, i)) {
                Some(v) => Some(v),
                None => cookie_scan(s.subrange(i + 1, s.len() as int)),
            }
        },
    }
}

/// The view of an optional string slice.
pub open spec fn opt_str(o: Option<&str>) -> Option<Seq<char>> {
    match o {
        Some(s) => Some(s@),
        None => None,
    }
}

/// The view of an optional string.
pub open spec fn opt_string(o: Option<String>) -> Option<Seq<char>> {
    match o {
        Some(s) => Some(s@),
        None => None,
    }
}

/// The bootstrap token and the sessions of the web console.
pub struct WebSessionController {
    bootstrap: Option<BootstrapToken>,
    sessions: Vec<SessionEntry>,
}

impl WebSessionController {
    #[verifier::type_invariant]
    spec fn wf(self) -> bool {
        unique_tokens(self.sessions@)
    }

    /// The state by view.
    pub closed spec fn view_state(&self) -> SessionsView {
        SessionsView {
            bootstrap: match self.bootstrap {
                Some(b) => Some((b.value@, b.expires_at)),
                None => None,
            },
            sessions: session_map(self.sessions@),
        }
    }

    /// A controller with no bootstrap token and no session.
    pub fn new() -> (c: Self)
        ensures
            c.view_state().bootstrap is None,
            c.view_state().sessions == Map::<Seq<char>, u64>::empty(),
    {
        WebSessionController { bootstrap: None, sessions: Vec::new() }
    }

    /// Drops the sessions and the bootstrap token that have expired at `now`.
    fn prune(&mut self, now: u64)
        ensures
            final(self).view_state() == prune_view(old(self).view_state(), now),
    {
        proof {
            use_type_invariant(&*self);
        }
        let expired = match &self.bootstrap {
            Some(b) => b.expires_at <= now,
            None => false,
        };
        if expired {
            self.bootstrap = None;
        }
        let ghost s = self.sessions@;
        let mut kept: Vec<SessionEntry> = Vec::new();
        let mut i: usize = 0;
        while i < self.sessions.len()
            invariant
                s == self.sessions@,
                unique_tokens(s),
                i <= s.len(),
                unique_tokens(kept@),
                session_map(kept@) =~= open_at(session_map(s.take(i as int)), now),
            decreases s.len() - i,
        {
            let e = &self.sessions[i];
            proof {
                let t = s.take(i as int);
                let t1 = s.take(i + 1);
                assert(t1.drop_last() =~= t);
                assert(t1.last() == s[i as int]);
                assert(unique_tokens(t));
                lemma_session_map(t);
                lemma_session_map(kept@);
                if session_map(t).dom().contains(s[i as int].token@) {
                    let j = choose|j: int| 0 <= j < t.len() && t[j].token@ == s[i as int].token@;
                    assert(s[j] == t[j]);
                    assert(false);
                }
            }
            if e.expires_at > now {
                let ghost before = kept@;
                kept.push(SessionEntry { token: e.token.clone(), expires_at: e.expires_at });
                proof {
                    assert(kept@.drop_last() =~= before);
                    assert forall|a: int, b: int| 0 <= a < b < kept@.len() implies kept@[a].token@
                        != kept@[b].token@ by {
                        if b == kept@.len() - 1 {
                            assert(session_map(before).dom().contains(before[a].token@));
                        }
                    }
                }
            }
            proof {
                let t = s.take(i as int);
                let t1 = s.take(i + 1);
                assert(t1.drop_last() =~= t);
            }
            i += 1;
        }
        proof {
            assert(s.take(i as int) =~= s);
        }
        self.sessions = kept;
    }

    /// Adds (or replaces) a session with token `token` expiring at `expires_at`.
    fn insert_session(&mut self, token: String, expires_at: u64)
        ensures
            final(self).view_state().bootstrap == old(self).view_state().bootstrap,
            final(self).view_state().sessions == old(self).view_state().sessions.insert(
                token@,
                expires_at,
            ),
    {
        self.remove_session(token.as_str());
        proof {
            use_type_invariant(&*self);
            lemma_session_map(self.sessions@);
        }
        let ghost before = self.sessions@;
        let mut sessions = Vec::new();
        std::mem::swap(&mut sessions, &mut self.sessions);
        sessions.push(SessionEntry { token, expires_at });
        proof {
            assert(sessions@.drop_last() =~= before);
            assert forall|a: int, b: int| 0 <= a < b < sessions@.len() implies sessions@[a].token@
                != sessions@[b].token@ by {
                if b == sessions@.len() - 1 {
                    assert(session_map(before).dom().contains(before[a].token@));
                }
            }
        }
        self.sessions = sessions;
    }

    /// Removes the session with token `token`, if there is one.
    fn remove_session(&mut self, token: &str)
        ensures
            final(self).view_state().bootstrap == old(self).view_state().bootstrap,
            final(self).view_state().sessions == old(self).view_state().sessions.remove(token@),
    {
        proof {
            use_type_invariant(&*self);
        }
        let target = chars_of(token);
        let ghost s = self.sessions@;
        let mut kept: Vec<SessionEntry> = Vec::new();
        let mut i: usize = 0;
        while i < self.sessions.len()
            invariant
                s == self.sessions@,
                unique_tokens(s),
                i <= s.len(),
                target@ == token@,
                unique_tokens(kept@),
                session_map(kept@) =~= session_map(s.take(i as int)).remove(token@),
            decreases s.len() - i,
        {
            let e = &self.sessions[i];
            proof {
                let t = s.take(i as int);
                let t1 = s.take(i + 1);
                assert(t1.drop_last() =~= t);
                assert(t1.last() == s[i as int]);
                assert(unique_tokens(t));
                lemma_session_map(t);
                lemma_session_map(kept@);
                if session_map(t).dom().contains(s[i as int].token@) {
                    let j = choose|j: int| 0 <= j < t.len() && t[j].token@ == s[i as int].token@;
                    assert(s[j] == t[j]);
                    assert(false);
                }
            }
            let here = chars_of(e.token.as_str());
            if !chars_equal(here.as_slice(), target.as_slice()) {
                let ghost before = kept@;
                kept.push(SessionEntry { token: e.token.clone(), expires_at: e.expires_at });
                proof {
                    assert(kept@.drop_last() =~= before);
                    assert forall|a: int, b: int| 0 <= a < b < kept@.len() implies kept@[a].token@
                        != kept@[b].token@ by {
                        if b == kept@.len() - 1 {
                            assert(session_map(before).dom().contains(before[a].token@));
                        }
                    }
                }
            }
            proof {
                let t = s.take(i as int);
                let t1 = s.take(i + 1);
                assert(t1.drop_last() =~= t);
            }
            i += 1;
        }
        proof {
            assert(s.take(i as int) =~= s);
        }
        self.sessions = kept;
    }

    /// Adds a session with token `fresh` that lasts from `now`.
    fn start_session(&mut self, now: u64, fresh: String) -> (session: String)
        ensures
            session@ == fresh@,
            final(self).view_state() == (SessionsView {
                bootstrap: old(self).view_state().bootstrap,
                sessions: old(self).view_state().sessions.insert(
                    fresh@,
                    now.saturating_add(SESSION_TTL_MS),
                ),
            }),
    {
        let session = fresh.clone();
        self.insert_session(fresh, now.saturating_add(SESSION_TTL_MS));
        session
    }

    /// Opens a session with the given token at `now`.
    pub fn issue_session_with(&mut self, now: u64, fresh: String) -> (session: String)
        ensures
            session@ == fresh@,
            final(self).view_state() == issue_view(old(self).view_state(), now, fresh@),
    {
        self.prune(now);
        self.start_session(now, fresh)
    }

    /// Trades the bootstrap token for a session whose token is `fresh`.
    pub fn exchange_bootstrap_with(&mut self, token: &str, now: u64, fresh: String) -> (r: Option<
        String,
    >)
        ensures
            (opt_string(r), final(self).view_state()) == exchange_view(
                old(self).view_state(),
                token@,
                now,
                fresh@,
            ),
    {
        self.prune(now);
        let valid = match &self.bootstrap {
            Some(b) => {
                let same = constant_time_equals(b.value.as_str().as_bytes(), token.as_bytes());
                proof {
                    if same {
                        encode_utf8_decode_utf8(b.value@);
                        encode_utf8_decode_utf8(token@);
                    }
                }
                b.expires_at > now && same
            },
            None => false,
        };
        if !valid {
            return None;
        }
        proof {
            use_type_invariant(&*self);
        }
        self.bootstrap = None;
        Some(self.start_session(now, fresh))
    }

    /// Installs `token` as the bootstrap token at `now` and returns the URL
    /// that opens the console with it.
    pub fn create_bootstrap_url_with(&mut self, bind_address: &str, now: u64, token: String) -> (url:
        String)
        ensures
            url@ == browser_endpoint_spec(bind_address@) + "/#bootstrap="@ + token@,
            final(self).view_state() == bootstrap_view(old(self).view_state(), now, token@),
    {
        self.prune(now);
        let mut url = browser_endpoint(bind_address);
        push_str(&mut url, "/#bootstrap=");
        push_str(&mut url, token.as_str());
        proof {
            use_type_invariant(&*self);
        }
        self.bootstrap = Some(BootstrapToken { value: token, expires_at: now.saturating_add(BOOTSTRAP_TTL_MS) });
        url
    }

    /// Whether the session a request's `Cookie` header names is open at `now`.
    pub fn authenticate_headers(&mut self, cookie_header: Option<&str>, now: u64) -> (b: bool)
        ensures
            (b, final(self).view_state()) == authenticate_view(
                old(self).view_state(),
                opt_str(cookie_header),
                now,
            ),
    {
        let header = match cookie_header {
            None => {
                return false;
            },
            Some(h) => h,
        };
        let session = match cookie_session(header) {
            None => {
                return false;
            },
            Some(s) => s,
        };
        self.prune(now);
        proof {
            use_type_invariant(&*self);
            lemma_session_map(self.sessions@);
        }
        let target = chars_of(session.as_str());
        let mut i: usize = 0;
        while i < self.sessions.len()
            invariant
                i <= self.sessions@.len(),
                target@ == session@,
                unique_tokens(self.sessions@),
                self.view_state() == prune_view(old(self).view_state(), now),
                cookie_header == Some(header),
                cookie_scan(header@) == Some(session@),
                forall|k: int| 0 <= k < i ==> self.sessions@[k].token@ != session@,
            decreases self.sessions@.len() - i,
        {
            let here = chars_of(self.sessions[i].token.as_str());
            if chars_equal(here.as_slice(), target.as_slice()) {
                proof {
                    lemma_session_map(self.sessions@);
                    let e = self.sessions@[i as int];
                    assert(e.token@ == session@);
                    assert(session_map(self.sessions@).dom().contains(e.token@));
                    assert(session_map(self.sessions@)[e.token@] == e.expires_at);
                    assert(self.view_state().sessions == session_map(self.sessions@));
                }
                return self.sessions[i].expires_at > now;
            }
            i += 1;
        }
        proof {
            lemma_session_map(self.sessions@);
        }
        false
    }

    /// Closes the session a request's `Cookie` header names.
    pub fn revoke_headers(&mut self, cookie_header: Option<&str>)
        ensures
            final(self).view_state() == revoke_view(old(self).view_state(), opt_str(cookie_header)),
    {
        if let Some(header) = cookie_header {
            if let Some(session) = cookie_session(header) {
                self.remove_session(session.as_str());
            }
        }
    }

    /// The `Set-Cookie` value that stores a session in the browser.
    pub fn session_cookie(session: &str) -> (c: String)
        ensures
            c@ == "hb_ui_session="@ + session@ + "; Path=/; HttpOnly; SameSite=Strict; Max-Age="@
                + decimal(SESSION_TTL_SECS as nat),
    {
        let mut c = string_from_str("hb_ui_session=");
        push_str(&mut c, session);
        push_str(&mut c, "; Path=/; HttpOnly; SameSite=Strict; Max-Age=");
        push_decimal(&mut c, SESSION_TTL_SECS);
        c
    }

    /// The `Set-Cookie` value that deletes the session cookie.
    pub fn clear_session_cookie() -> (c: String)
        ensures
            c@ == "hb_ui_session=; Path=/; HttpOnly; SameSite=Strict; Max-Age=0"@,
    {
        string_from_str("hb_ui_session=; Path=/; HttpOnly; SameSite=Strict; Max-Age=0")
    }
}

/// The session token in the value of a `Cookie` header.
pub fn cookie_session(header: &str) -> (r: Option<String>)
    ensures
        opt_string(r) == cookie_scan(header@),
{
    let c = chars_of(header);
    let n = c.len();
    let mut start: usize = 0;
    assert(c@.subrange(0, n as int) =~= c@);
    while start <= n
        invariant
            n == c@.len(),
            c@ == header@,
            start <= n,
            cookie_scan(c@) == cookie_scan(c@.subrange(start as int, n as int)),
        decreases n - start,
    {
        let rest = slice_range(c.as_slice(), start, n);
        match find_char(rest.as_slice(), ';') {
            None => {
                return cookie_part(rest.as_slice());
            },
            Some(i) => {
                let part = slice_range(rest.as_slice(), 0, i);
                let found = cookie_part(part.as_slice());
                if found.is_some() {
                    return found;
                }
                proof {
                    assert(rest@.subrange(i + 1, rest@.len() as int) =~= c@.subrange(
                        start + i + 1,
                        n as int,
                    ));
                }
                start = start + i + 1;
            },
        }
    }
    None
}

/// The session token one part of a `Cookie` header carries.
fn cookie_part(part: &[char]) -> (r: Option<String>)
    ensures
        opt_string(r) == cookie_part_value(part@),
{
    let whole = string_from_chars(part);
    let t = trimmed_chars(whole.as_str());
    let j = match find_char(t.as_slice(), '=') {
        None => {
            return None;
        },
        Some(j) => j,
    };
    assert(j < t@.len());
    let name = slice_range(t.as_slice(), 0, j);
    let expected = chars_of(SESSION_COOKIE_NAME);
    proof {
        reveal_strlit("hb_ui_session");
    }
    if chars_equal(name.as_slice(), expected.as_slice()) && j + 1 < t.len() {
        Some(string_from_chars(slice_range(t.as_slice(), j + 1, t.len()).as_slice()))
    } else {
        None
    }
}

/// A bind address split into host and port text, as the browser URL needs it.
pub open spec fn split_address_spec(a: Seq<char>) -> Option<(Seq<char>, Seq<char>)> {
    if a.len() > 0 && a[0] == '[' {
        match first_index(a, ']', 1) {
            None => None,
            Some(e) => {
                let after = a.subrange(e + 1, a.len() as int);
                if after.len() > 1 && after[0] == ':' {
                    Some((a.subrange(1, e), after.drop_first()))
                } else {
                    None
                }
            },
        }
    } else {
        match last_index(a, ':', a.len() as int) {
            None => None,
            Some(i) => if i > 0 && i + 1 < a.len() {
                Some((a.subrange(0, i), a.subrange(i + 1, a.len() as int)))
            } else {
                None
            },
        }
    }
}

/// The address a browser on this machine opens for a bind address: wildcard
/// hosts become the loopback address, IPv6 hosts go in brackets.
pub open spec fn browser_endpoint_spec(a: Seq<char>) -> Seq<char> {
    match split_address_spec(a) {
        None => "http://127.0.0.1:8810"@,
        Some((h, p)) => {
            let host = if h == "0.0.0.0"@ || h == "::"@ || h.len() == 0 {
                "127.0.0.1"@
            } else {
                h
            };
            let formatted = if host.contains(':') {
                "["@ + host + "]"@
            } else {
                host
            };
            "http://"@ + formatted + ":"@ + p
        },
    }
}

/// The URL prefix a browser on this machine uses to reach the server bound
/// at `bind_address`.
pub fn browser_endpoint(bind_address: &str) -> (url: String)
    ensures
        url@ == browser_endpoint_spec(bind_address@),
{
    let a = chars_of(bind_address);
    let n = a.len();
    let mut host: Vec<char>;
    let port: Vec<char>;
    if n > 0 && a[0] == '[' {
        match find_char_from_one(a.as_slice()) {
            None => {
                return string_from_str("http://127.0.0.1:8810");
            },
            Some(e) => {
                if n - e > 2 && a[e + 1] == ':' {
                    host = slice_range(a.as_slice(), 1, e);
                    port = slice_range(a.as_slice(), e + 2, n);
                    proof {
                        assert(port@ =~= a@.subrange(e + 1, n as int).drop_first());
                    }
                } else {
                    return string_from_str("http://127.0.0.1:8810");
                }
            },
        }
    } else {
        proof {
            lemma_last_index(a@, ':', n as int);
        }
        let mut i: usize = n;
        while i > 0
            invariant
                i <= n == a@.len(),
                last_index(a@, ':', n as int) == last_index(a@, ':', i as int),
            ensures
                i <= n,
                last_index(a@, ':', n as int) == last_index(a@, ':', i as int),
                i == 0 || a@[i - 1] == ':',
            decreases i,
        {
            if a[i - 1] == ':' {
                break;
            }
            i -= 1;
        }
        if i == 0 {
            return string_from_str("http://127.0.0.1:8810");
        }
        let colon = i - 1;
        if colon == 0 || colon + 1 >= n {
            return string_from_str("http://127.0.0.1:8810");
        }
        host = slice_range(a.as_slice(), 0, colon);
        port = slice_range(a.as_slice(), colon + 1, n);
    }
    let wildcard = chars_equal(host.as_slice(), chars_of("0.0.0.0").as_slice()) || chars_equal(
        host.as_slice(),
        chars_of("::").as_slice(),
    ) || host.len() == 0;
    if wildcard {
        host = chars_of("127.0.0.1");
    }
    let mut url = string_from_str("http://");
    if contains_char(host.as_slice(), ':') {
        push_str(&mut url, "[");
        push_chars(&mut url, host.as_slice());
        push_str(&mut url, "]");
        proof {
            assert("http://"@ + "["@ + host@ + "]"@ =~= "http://"@ + ("["@ + host@ + "]"@));
        }
    } else {
        push_chars(&mut url, host.as_slice());
    }
    push_str(&mut url, ":");
    push_chars(&mut url, port.as_slice());
    url
}

/// The index of the first `]` after the leading character.
fn find_char_from_one(a: &[char]) -> (r: Option<usize>)
    ensures
        r matches Some(e) ==> 1 <= e < a@.len() && first_index(a@, ']', 1) == Some(e as int),
        r is None ==> first_index(a@, ']', 1) is None,
{
    crate::text::find_char_from(a, ']', 1)
}

/// A bootstrap token works once: after it has been traded for a session, the
/// same token is refused, at any later time.
pub proof fn lemma_bootstrap_single_use(
    v: SessionsView,
    token: Seq<char>,
    now: u64,
    fresh: Seq<char>,
    later: u64,
    fresh2: Seq<char>,
)
    requires
        exchange_view(v, token, now, fresh).0 is Some,
    ensures
        exchange_view(exchange_view(v, token, now, fresh).1, token, later, fresh2).0 is None,
{
}

/// A session opened at `now` lets in a request whose cookie names it, at any
/// time before it expires.
pub proof fn lemma_issued_session_authenticates(
    v: SessionsView,
    now: u64,
    fresh: Seq<char>,
    header: Seq<char>,
    later: u64,
)
    requires
        now <= later < now + SESSION_TTL_MS <= u64::MAX,
        cookie_scan(header) == Some(fresh),
    ensures
        authenticate_view(issue_view(v, now, fresh), Some(header), later).0,
{
    let issued = issue_view(v, now, fresh);
    assert(issued.sessions.dom().contains(fresh));
    assert(issued.sessions[fresh] == now + SESSION_TTL_MS);
    assert(prune_view(issued, later).sessions.dom().contains(fresh));
}

/// Refusing a used bootstrap token leaves the session it opened alone: after
/// the token was traded for session `fresh` at `now`, a second trade of it is
/// refused, and a request whose cookie names `fresh` still gets in, at any
/// time before the session expires.
pub proof fn lemma_refused_exchange_keeps_session(
    v: SessionsView,
    token: Seq<char>,
    now: u64,
    fresh: Seq<char>,
    later: u64,
    fresh2: Seq<char>,
    header: Seq<char>,
    check_at: u64,
)
    requires
        exchange_view(v, token, now, fresh).0 is Some,
        later < now + SESSION_TTL_MS <= u64::MAX,
        check_at < now + SESSION_TTL_MS,
        cookie_scan(header) == Some(fresh),
    ensures
        ({
            let (second, after) = exchange_view(exchange_view(v, token, now, fresh).1, token, later, fresh2);
            second is None && authenticate_view(after, Some(header), check_at).0
        }),
{
    let first = exchange_view(v, token, now, fresh).1;
    assert(first.sessions.dom().contains(fresh));
    assert(first.sessions[fresh] == now + SESSION_TTL_MS);
    let after = exchange_view(first, token, later, fresh2).1;
    assert(after.sessions.dom().contains(fresh));
    assert(after.sessions[fresh] == now + SESSION_TTL_MS);
    assert(prune_view(after, check_at).sessions.dom().contains(fresh));
}

} // verus!
