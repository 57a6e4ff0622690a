//! The bookkeeping of reused SSH connections: at most one idle connection
//! per target, each stamped with a generation so that a late idle-timeout
//! cleanup cannot close a connection returned after it was scheduled; and
//! the reading of a command channel's messages.

use vstd::prelude::*;
use crate::config::{opt_view, SshAuthType};
use crate::execution_target::SshTarget;
use crate::ssh::{is_connection_expired, CommandAttemptStage, SshCommandResult};
use crate::text::str_equal;

verus! {

/// What identifies a target: all of its settings, by view.
pub type TargetKey = (
    Seq<char>,
    u16,
    Option<Seq<char>>,
    Option<Seq<char>>,
    Option<Seq<char>>,
    SshAuthType,
    Option<Seq<char>>,
    bool,
    u64,
);

/// The key of a target.
pub open spec fn target_key(t: SshTarget) -> TargetKey {
    (
        t.host@,
        t.port,
        opt_view(t.user),
        opt_view(t.identity_file),
        opt_view(t.known_hosts_file),
        t.auth.kind,
        opt_view(t.auth.reference),
        t.verify_host_key,
        t.connection_idle_timeout_ms,
    )
}

fn same_text(a: &Option<String>, b: &Option<String>) -> (r: bool)
    ensures
        r == (opt_view(*a) == opt_view(*b)),
{
    match (a, b) {
        (Some(x), Some(y)) => str_equal(x.as_str(), y.as_str()),
        (None, None) => true,
        _ => false,
    }
}

/// Whether two targets are the same target.
pub fn same_target(a: &SshTarget, b: &SshTarget) -> (r: bool)
    ensures
        r == (target_key(*a) == target_key(*b)),
{
    str_equal(a.host.as_str(), b.host.as_str()) && a.port == b.port && same_text(&a.user, &b.user)
        && same_text(&a.identity_file, &b.identity_file) && same_text(
        &a.known_hosts_file,
        &b.known_hosts_file,
    ) && a.auth.kind == b.auth.kind && same_text(&a.auth.reference, &b.auth.reference)
        && a.verify_host_key == b.verify_host_key && a.connection_idle_timeout_ms
        == b.connection_idle_timeout_ms
}

/// A connection waiting in the pool.
pub struct IdleConnection<H> {
    pub target: SshTarget,
    /// The stamp it was given when it was returned.
    pub generation: u64,
    /// When it was returned, in milliseconds.
    pub returned_at: u64,
    pub handle: H,
}

/// Whether no two idle connections are for the same target.
pub open spec fn unique_targets<H>(s: Seq<IdleConnection<H>>) -> bool {
    forall|i: int, j: int|
        0 <= i < j < s.len() ==> target_key(#[trigger] s[i].target) != target_key(#[trigger] s[j].target)
}

/// Whether the pool holds a connection for `key`.
pub open spec fn holds<H>(s: Seq<IdleConnection<H>>, key: TargetKey) -> bool {
    exists|i: int| 0 <= i < s.len() && target_key(#[trigger] s[i].target) == key
}

/// The position of the connection for `key`, when the pool holds one.
pub open spec fn position<H>(s: Seq<IdleConnection<H>>, key: TargetKey) -> int {
    choose|i: int| 0 <= i < s.len() && target_key(#[trigger] s[i].target) == key
}

/// The pool after taking out the connection for `key`, and what was taken.
pub open spec fn take_spec<H>(s: Seq<IdleConnection<H>>, key: TargetKey) -> (Option<IdleConnection<H>>, Seq<
    IdleConnection<H>,
>) {
    if holds(s, key) {
        (Some(s[position(s, key)]), s.remove(position(s, key)))
    } else {
        (None, s)
    }
}

/// The pool after `c` is returned to it: the connection it held for the same
/// target, if any, leaves, and `c` is added last.
pub open spec fn put_spec<H>(s: Seq<IdleConnection<H>>, c: IdleConnection<H>) -> Seq<IdleConnection<H>> {
    take_spec(s, target_key(c.target)).1.push(c)
}

/// The pool after the idle-timeout cleanup of `generation` for `key`, and
/// the handle it closes: only when the connection there still has that
/// generation.
pub open spec fn expire_spec<H>(s: Seq<IdleConnection<H>>, key: TargetKey, generation: u64) -> (Option<H>, Seq<
    IdleConnection<H>,
>) {
    if holds(s, key) && s[position(s, key)].generation == generation {
        (Some(s[position(s, key)].handle), s.remove(position(s, key)))
    } else {
        (None, s)
    }
}

/// The idle connections, one per target, and the next generation stamp.
pub struct ConnectionPool<H> {
    idle: Vec<IdleConnection<H>>,
    next_generation: u64,
}

impl<H> View for ConnectionPool<H> {
    type V = Seq<IdleConnection<H>>;

    closed spec fn view(&self) -> Seq<IdleConnection<H>> {
        self.idle@
    }
}

proof fn lemma_position<H>(s: Seq<IdleConnection<H>>, key: TargetKey, i: int)
    requires
        unique_targets(s),
        0 <= i < s.len(),
        target_key(s[i].target) == key,
    ensures
        holds(s, key),
        position(s, key) == i,
{
    assert(holds(s, key));
    let p = position(s, key);
    if p != i {
        if p < i {
            assert(target_key(s[p].target) != target_key(s[i].target));
        } else {
            assert(target_key(s[i].target) != target_key(s[p].target));
        }
    }
}

proof fn lemma_remove_unique<H>(s: Seq<IdleConnection<H>>, i: int)
    requires
        unique_targets(s),
        0 <= i < s.len(),
    ensures
        unique_targets(s.remove(i)),
        forall|k: TargetKey| holds(s.remove(i), k) ==> holds(s, k),
{
    let r = s.remove(i);
    assert forall|a: int, b: int| 0 <= a < b < r.len() implies target_key(#[trigger] r[a].target)
        != target_key(#[trigger] r[b].target) by {
        let a2 = if a < i { a } else { a + 1 };
        let b2 = if b < i { b } else { b + 1 };
        assert(r[a] == s[a2]);
        assert(r[b] == s[b2]);
    }
    assert forall|k: TargetKey| holds(r, k) implies holds(s, k) by {
        let j = choose|j: int| 0 <= j < r.len() && target_key(#[trigger] r[j].target) == k;
        let j2 = if j < i { j } else { j + 1 };
        assert(r[j] == s[j2]);
    }
}

proof fn lemma_put_unique<H>(s: Seq<IdleConnection<H>>, c: IdleConnection<H>)
    requires
        unique_targets(s),
    ensures
        unique_targets(put_spec(s, c)),
        holds(put_spec(s, c), target_key(c.target)),
        position(put_spec(s, c), target_key(c.target)) == put_spec(s, c).len() - 1,
{
    let key = target_key(c.target);
    let rest = take_spec(s, key).1;
    if holds(s, key) {
        lemma_remove_unique(s, position(s, key));
        assert forall|j: int| 0 <= j < rest.len() implies target_key(#[trigger] rest[j].target) != key by {
            let p = position(s, key);
            let j2 = if j < p { j } else { j + 1 };
            assert(rest[j] == s[j2]);
            if target_key(rest[j].target) == key {
                if j2 < p {
                    assert(target_key(s[j2].target) != target_key(s[p].target));
                } else {
                    assert(target_key(s[p].target) != target_key(s[j2].target));
                }
            }
        }
    } else {
        assert forall|j: int| 0 <= j < rest.len() implies target_key(#[trigger] rest[j].target) != key by {
            if target_key(rest[j].target) == key {
                assert(holds(s, key));
            }
        }
    }
    let p = rest.push(c);
    assert(unique_targets(rest));
    assert forall|a: int, b: int| 0 <= a < b < p.len() implies target_key(#[trigger] p[a].target)
        != target_key(#[trigger] p[b].target) by {
        if b == p.len() - 1 {
            assert(p[a] == rest[a]);
        } else {
            assert(p[a] == rest[a]);
            assert(p[b] == rest[b]);
        }
    }
    lemma_position(p, key, p.len() - 1);
}

impl<H> ConnectionPool<H> {
    /// No two idle connections are for the same target.
    #[verifier::type_invariant]
    spec fn one_per_target(self) -> bool {
        unique_targets(self.idle@)
    }

    /// The stamp the next returned connection gets.
    pub closed spec fn next_generation_spec(&self) -> u64 {
        self.next_generation
    }

    /// An empty pool whose first stamp is 1.
    pub fn new() -> (p: Self)
        ensures
            p@ == Seq::<IdleConnection<H>>::empty(),
            p.next_generation_spec() == 1,
    {
        ConnectionPool { idle: Vec::new(), next_generation: 1 }
    }

    /// Takes out the idle connection for `target`, if the pool holds one.
    pub fn take(&mut self, target: &SshTarget) -> (r: Option<IdleConnection<H>>)
        ensures
            unique_targets(old(self)@),
            unique_targets(final(self)@),
            (r, final(self)@) == take_spec(old(self)@, target_key(*target)),
            final(self).next_generation_spec() == old(self).next_generation_spec(),
    {
        proof {
            use_type_invariant(&*self);
        }
        let ghost key = target_key(*target);
        let mut idle: Vec<IdleConnection<H>> = Vec::new();
        std::mem::swap(&mut idle, &mut self.idle);
        let mut i: usize = 0;
        while i < idle.len()
            invariant
                i <= idle@.len(),
                idle@ == old(self).idle@,
                self.next_generation == old(self).next_generation,
                unique_targets(idle@),
                key == target_key(*target),
                forall|j: int| 0 <= j < i ==> target_key(#[trigger] idle@[j].target) != key,
            decreases idle@.len() - i,
        {
            if same_target(&idle[i].target, target) {
                proof {
                    lemma_position(idle@, key, i as int);
                    lemma_remove_unique(idle@, i as int);
                }
                let c = idle.remove(i);
                self.idle = idle;
                return Some(c);
            }
            i += 1;
        }
        self.idle = idle;
        None
    }

    /// Returns a connection to the pool at `now`, stamped with the next
    /// generation; gives back the stamp and the handle of the connection it
    /// replaces for the same target, if any.
    pub fn put(&mut self, target: SshTarget, handle: H, now: u64) -> (r: (u64, Option<H>))
        ensures
            unique_targets(final(self)@),
            r.0 == old(self).next_generation_spec(),
            final(self).next_generation_spec() == old(self).next_generation_spec().wrapping_add(1),
            final(self)@ == put_spec(
                old(self)@,
                IdleConnection { target, generation: r.0, returned_at: now, handle },
            ),
            r.1 == match take_spec(old(self)@, target_key(target)).0 {
                Some(c) => Some(c.handle),
                None => None::<H>,
            },
    {
        let generation = self.next_generation;
        let replaced = self.take(&target);
        self.next_generation = generation.wrapping_add(1);
        let c = IdleConnection { target, generation, returned_at: now, handle };
        proof {
            lemma_put_unique(old(self)@, c);
        }
        let mut idle: Vec<IdleConnection<H>> = Vec::new();
        std::mem::swap(&mut idle, &mut self.idle);
        idle.push(c);
        self.idle = idle;
        match replaced {
            Some(old_connection) => (generation, Some(old_connection.handle)),
            None => (generation, None),
        }
    }

    /// The idle-timeout cleanup of the connection stamped `generation` for
    /// `target`: takes it out and gives its handle to close, unless the
    /// connection there now has another stamp.
    pub fn remove_if_generation(&mut self, target: &SshTarget, generation: u64) -> (r: Option<H>)
        ensures
            unique_targets(old(self)@),
            unique_targets(final(self)@),
            (r, final(self)@) == expire_spec(old(self)@, target_key(*target), generation),
            final(self).next_generation_spec() == old(self).next_generation_spec(),
    {
        proof {
            use_type_invariant(&*self);
        }
        let ghost key = target_key(*target);
        let mut idle: Vec<IdleConnection<H>> = Vec::new();
        std::mem::swap(&mut idle, &mut self.idle);
        let mut i: usize = 0;
        while i < idle.len()
            invariant
                i <= idle@.len(),
                idle@ == old(self).idle@,
                self.next_generation == old(self).next_generation,
                unique_targets(idle@),
                key == target_key(*target),
                forall|j: int| 0 <= j < i ==> target_key(#[trigger] idle@[j].target) != key,
            decreases idle@.len() - i,
        {
            if same_target(&idle[i].target, target) {
                proof {
                    lemma_position(idle@, key, i as int);
                }
                if idle[i].generation != generation {
                    self.idle = idle;
                    return None;
                }
                proof {
                    lemma_remove_unique(idle@, i as int);
                }
                let c = idle.remove(i);
                self.idle = idle;
                return Some(c.handle);
            }
            i += 1;
        }
        self.idle = idle;
        None
    }

    /// How many connections wait.
    pub fn len(&self) -> (n: usize)
        ensures
            n == self@.len(),
    {
        self.idle.len()
    }
}

/// A connection returned and then taken out again for the same target is
/// the one returned, and the pool is left as it was without the connection
/// it held for that target.
pub proof fn lemma_take_after_put<H>(s: Seq<IdleConnection<H>>, c: IdleConnection<H>)
    requires
        unique_targets(s),
    ensures
        take_spec(put_spec(s, c), target_key(c.target)) == (
            Some(c),
            take_spec(s, target_key(c.target)).1,
        ),
{
    lemma_put_unique(s, c);
    let p = put_spec(s, c);
    assert(p.remove(p.len() - 1) =~= take_spec(s, target_key(c.target)).1);
}

/// The cleanup scheduled when a connection was returned closes it while it
/// still waits; the pool then holds nothing for its target.
pub proof fn lemma_expire_after_put<H>(s: Seq<IdleConnection<H>>, c: IdleConnection<H>)
    requires
        unique_targets(s),
    ensures
        expire_spec(put_spec(s, c), target_key(c.target), c.generation) == (
            Some(c.handle),
            take_spec(s, target_key(c.target)).1,
        ),
        !holds(expire_spec(put_spec(s, c), target_key(c.target), c.generation).1, target_key(c.target)),
{
    lemma_put_unique(s, c);
    let p = put_spec(s, c);
    let rest = take_spec(s, target_key(c.target)).1;
    assert(p.remove(p.len() - 1) =~= rest);
    assert forall|j: int| 0 <= j < rest.len() implies target_key(#[trigger] rest[j].target)
        != target_key(c.target) by {
        assert(rest[j] == p[j]);
        assert(target_key(p[j].target) != target_key(p[p.len() - 1].target));
    }
}

/// A cleanup whose stamp is not that of the waiting connection changes
/// nothing: a connection returned again after the cleanup was scheduled
/// stays.
pub proof fn lemma_stale_cleanup_keeps_pool<H>(s: Seq<IdleConnection<H>>, key: TargetKey, generation: u64)
    requires
        unique_targets(s),
        holds(s, key) ==> s[position(s, key)].generation != generation,
    ensures
        expire_spec(s, key, generation) == (None::<H>, s),
{
}

/// What to do with the connection taken from the pool for a new command.
#[derive(Debug, Clone, Copy, PartialEq, Eq, Structural)]
pub enum CheckoutAction {
    /// Run the command on it.
    Reuse,
    /// It is still open but has been idle too long: disconnect it and open a
    /// new one.
    DisconnectAndConnect,
    /// It is closed already: open a new one.
    Connect,
}

/// The action for a connection taken from the pool: reused when it is open
/// and has not been idle for its whole timeout at `now`.
pub fn checkout_action(closed: bool, returned_at: u64, idle_timeout_ms: u64, now: u64) -> (a: CheckoutAction)
    ensures
        a == if !closed && now.saturating_sub(returned_at) < idle_timeout_ms {
            CheckoutAction::Reuse
        } else if !closed {
            CheckoutAction::DisconnectAndConnect
        } else {
            CheckoutAction::Connect
        },
{
    if closed {
        CheckoutAction::Connect
    } else if is_connection_expired(returned_at, idle_timeout_ms, now) {
        CheckoutAction::DisconnectAndConnect
    } else {
        CheckoutAction::Reuse
    }
}

/// A message on the channel of a running command, as far as the outcome
/// depends on it.
#[derive(Debug, Clone, Copy, PartialEq, Eq, Structural)]
pub enum ChannelEvent {
    /// Output on standard output or standard error.
    Output,
    /// The server accepted a request.
    Success,
    /// The server refused a request.
    Failure,
    /// The command exited with this status.
    ExitStatus(u32),
    /// The command was ended by a signal.
    ExitSignal,
    /// Anything else (end of data, close, window changes).
    Other,
}

/// What the messages seen so far tell: whether the server has confirmed the
/// command, and its exit code if it has one.
#[derive(Debug, Clone, Copy, PartialEq, Eq, Structural)]
pub struct ChannelProgress {
    pub request_confirmed: bool,
    pub code: Option<i32>,
}

impl ChannelProgress {
    /// The progress after `event`.
    pub open spec fn after(self, event: ChannelEvent) -> ChannelProgress {
        match event {
            ChannelEvent::Output | ChannelEvent::Success => ChannelProgress { request_confirmed: true, ..self },
            ChannelEvent::ExitStatus(status) => ChannelProgress {
                request_confirmed: true,
                code: Some(status as i32),
            },
            ChannelEvent::ExitSignal => ChannelProgress {
                request_confirmed: true,
                code: match self.code {
                    Some(c) => Some(c),
                    None => Some(-1i32),
                },
            },
            ChannelEvent::Failure | ChannelEvent::Other => self,
        }
    }

    /// Nothing seen yet.
    pub fn new() -> (p: Self)
        ensures
            !p.request_confirmed,
            p.code is None,
    {
        ChannelProgress { request_confirmed: false, code: None }
    }

    /// Takes in one message. A refusal ends the attempt: it failed while
    /// setting up when the server had confirmed nothing yet, else while
    /// running.
    pub fn observe(&mut self, event: ChannelEvent) -> (failure: Option<CommandAttemptStage>)
        ensures
            *final(self) == old(self).after(event),
            failure == match event {
                ChannelEvent::Failure => Some(
                    if old(self).request_confirmed {
                        CommandAttemptStage::Runtime
                    } else {
                        CommandAttemptStage::ConnectionSetup
                    },
                ),
                _ => None,
            },
    {
        match event {
            ChannelEvent::Output | ChannelEvent::Success => {
                self.request_confirmed = true;
                None
            },
            ChannelEvent::ExitStatus(status) => {
                self.request_confirmed = true;
                self.code = Some(status as i32);
                None
            },
            ChannelEvent::ExitSignal => {
                self.request_confirmed = true;
                if self.code.is_none() {
                    self.code = Some(-1);
                }
                None
            },
            ChannelEvent::Failure => {
                if self.request_confirmed {
                    Some(CommandAttemptStage::Runtime)
                } else {
                    Some(CommandAttemptStage::ConnectionSetup)
                }
            },
            ChannelEvent::Other => None,
        }
    }

    /// How the command ended once its channel closed: its exit code, or -1
    /// when none came; successful only with code 0.
    pub fn result(&self) -> (r: SshCommandResult)
        ensures
            r.code == match self.code {
                Some(c) => c,
                None => -1i32,
            },
            r.success == (self.code == Some(0i32)),
            !r.timed_out,
    {
        let code = match self.code {
            Some(c) => c,
            None => -1,
        };
        let success = match self.code {
            Some(c) => c == 0,
            None => false,
        };
        SshCommandResult { code, success, timed_out: false }
    }
}

} // verus!
