//! The operator's approvals of commands that the policy holds for
//! confirmation.
//!
//! A request waits until the operator approves it once, approves it for the
//! rest of the client's session, or rejects it. An approval for a session
//! covers later requests of that session for the same command on the same
//! target with the same working directory and environment.

use vstd::prelude::*;
use crate::execution_service::ConfirmationRequest;
use crate::ssh::{env_view, lemma_sort_by_name_is_set_equality, sort_by_name, sorted_env, unique_names};
use crate::text::{chars_equal, chars_of, push_str, str_equal, string_from_str, views_of};
use crate::config::opt_view;

verus! {

/// The operator's answer to a pending approval.
#[derive(Debug, Clone, Copy, PartialEq, Eq, Structural)]
pub enum ApprovalDecision {
    ApproveOnce,
    ApproveForSession,
    Reject,
}

/// Why a command could not be put to the operator.
#[derive(Debug, Clone, Copy, PartialEq, Eq, Structural)]
pub enum ConsoleApprovalError {
    /// No interactive console is running.
    Unavailable,
    /// The request was withdrawn before the operator answered.
    Cancelled,
    /// No operator answered within the request's timeout.
    TimedOut,
}

impl ConsoleApprovalError {
    /// The error's message.
    pub fn message(&self) -> (m: String)
        ensures
            m@ == match self {
                ConsoleApprovalError::Unavailable => "interactive TUI is unavailable"@,
                ConsoleApprovalError::Cancelled => "approval request was cancelled"@,
                ConsoleApprovalError::TimedOut => "command confirmation timed out"@,
            },
    {
        match self {
            ConsoleApprovalError::Unavailable => string_from_str("interactive TUI is unavailable"),
            ConsoleApprovalError::Cancelled => string_from_str("approval request was cancelled"),
            ConsoleApprovalError::TimedOut => string_from_str("command confirmation timed out"),
        }
    }
}

/// What an approval for a session covers, by view.
pub struct ScopeView {
    pub session_id: Seq<char>,
    pub server: Seq<char>,
    pub platform: Seq<char>,
    pub command_line: Seq<char>,
    pub executable: Seq<char>,
    pub args: Seq<Seq<char>>,
    pub working_directory: Option<Seq<char>>,
    pub env: Seq<(Seq<char>, Seq<char>)>,
    pub contains_shell_operator: bool,
}

/// The scope of a request made in a session: everything that decides what
/// runs, but not its time limit.
pub open spec fn scope_of(session_id: Seq<char>, r: ConfirmationRequest) -> ScopeView {
    ScopeView {
        session_id,
        server: r.server@,
        platform: r.platform@,
        command_line: r.command_line@,
        executable: r.executable@,
        args: views_of(r.args@),
        working_directory: opt_view(r.working_directory),
        env: sort_by_name(env_view(r.env@)),
        contains_shell_operator: r.contains_shell_operator,
    }
}

/// Two requests made in sessions have the same scope, so that an approval
/// of one for its session covers the other, exactly when they come from the
/// same session and agree on everything but their time limit, the
/// environment variables compared as sets of names with values (each list
/// naming a variable at most once).
pub proof fn lemma_scope_equality(s1: Seq<char>, r1: ConfirmationRequest, s2: Seq<char>, r2: ConfirmationRequest)
    requires
        unique_names(env_view(r1.env@)),
        unique_names(env_view(r2.env@)),
    ensures
        scope_of(s1, r1) == scope_of(s2, r2) <==> {
            &&& s1 == s2
            &&& r1.server@ == r2.server@
            &&& r1.platform@ == r2.platform@
            &&& r1.command_line@ == r2.command_line@
            &&& r1.executable@ == r2.executable@
            &&& views_of(r1.args@) == views_of(r2.args@)
            &&& opt_view(r1.working_directory) == opt_view(r2.working_directory)
            &&& r1.contains_shell_operator == r2.contains_shell_operator
            &&& forall|p: (Seq<char>, Seq<char>)|
                #[trigger] env_view(r1.env@).contains(p) <==> env_view(r2.env@).contains(p)
        },
{
    lemma_sort_by_name_is_set_equality(env_view(r1.env@), env_view(r2.env@));
}

/// What an approval for a session covers.
#[derive(Debug, Clone)]
pub struct ApprovalScope {
    session_id: String,
    server: String,
    platform: String,
    command_line: String,
    executable: String,
    args: Vec<String>,
    working_directory: Option<String>,
    env: Vec<(String, String)>,
    contains_shell_operator: bool,
}

impl ApprovalScope {
    /// The scope by view.
    pub closed spec fn view_scope(&self) -> ScopeView {
        ScopeView {
            session_id: self.session_id@,
            server: self.server@,
            platform: self.platform@,
            command_line: self.command_line@,
            executable: self.executable@,
            args: views_of(self.args@),
            working_directory: opt_view(self.working_directory),
            env: env_view(self.env@),
            contains_shell_operator: self.contains_shell_operator,
        }
    }

    /// The scope of `request` made in session `session_id`.
    pub fn new(session_id: &str, request: &ConfirmationRequest) -> (s: Self)
        ensures
            s.view_scope() == scope_of(session_id@, *request),
    {
        ApprovalScope {
            session_id: string_from_str(session_id),
            server: request.server.clone(),
            platform: request.platform.clone(),
            command_line: request.command_line.clone(),
            executable: request.executable.clone(),
            args: copy_strings(&request.args),
            working_directory: match &request.working_directory {
                Some(w) => Some(w.clone()),
                None => None,
            },
            env: sorted_env(request.env.as_slice()),
            contains_shell_operator: request.contains_shell_operator,
        }
    }

    /// Whether two scopes are the same.
    pub fn same_as(&self, other: &ApprovalScope) -> (b: bool)
        ensures
            b == (self.view_scope() == other.view_scope()),
    {
        let b = str_equal(self.session_id.as_str(), other.session_id.as_str()) && str_equal(
            self.server.as_str(),
            other.server.as_str(),
        ) && str_equal(self.platform.as_str(), other.platform.as_str()) && str_equal(
            self.command_line.as_str(),
            other.command_line.as_str(),
        ) && str_equal(self.executable.as_str(), other.executable.as_str()) && strings_equal(
            &self.args,
            &other.args,
        ) && opt_equal(&self.working_directory, &other.working_directory) && env_equal(
            &self.env,
            &other.env,
        ) && self.contains_shell_operator == other.contains_shell_operator;
        proof {
            if b {
                assert(self.view_scope() =~= other.view_scope());
            }
        }
        b
    }
}

/// Copies a list of strings.
fn copy_strings(v: &Vec<String>) -> (out: Vec<String>)
    ensures
        views_of(out@) == views_of(v@),
{
    let mut out: Vec<String> = Vec::new();
    let mut i: usize = 0;
    while i < v.len()
        invariant
            i <= v@.len(),
            views_of(out@) == views_of(v@.take(i as int)),
        decreases v@.len() - i,
    {
        out.push(v[i].clone());
        proof {
            assert(views_of(v@.take(i + 1)) =~= views_of(v@.take(i as int)).push(v@[i as int]@));
            assert(views_of(out@) =~= views_of(v@.take(i + 1)));
        }
        i += 1;
    }
    assert(v@.take(i as int) =~= v@);
    out
}

/// Whether two lists of strings are equal.
fn strings_equal(a: &Vec<String>, b: &Vec<String>) -> (r: bool)
    ensures
        r == (views_of(a@) == views_of(b@)),
{
    if a.len() != b.len() {
        proof {
            assert(views_of(a@).len() != views_of(b@).len());
        }
        return false;
    }
    let mut i: usize = 0;
    while i < a.len()
        invariant
            i <= a@.len() == b@.len(),
            forall|k: int| 0 <= k < i ==> a@[k]@ == b@[k]@,
        decreases a@.len() - i,
    {
        if !str_equal(a[i].as_str(), b[i].as_str()) {
            proof {
                assert(views_of(a@)[i as int] != views_of(b@)[i as int]);
            }
            return false;
        }
        i += 1;
    }
    assert(views_of(a@) =~= views_of(b@));
    true
}

/// Whether two optional strings are equal.
fn opt_equal(a: &Option<String>, b: &Option<String>) -> (r: bool)
    ensures
        r == (opt_view(*a) == opt_view(*b)),
{
    match (a, b) {
        (Some(x), Some(y)) => str_equal(x.as_str(), y.as_str()),
        (None, None) => true,
        _ => false,
    }
}

/// Whether two lists of environment entries are equal.
fn env_equal(a: &Vec<(String, String)>, b: &Vec<(String, String)>) -> (r: bool)
    ensures
        r == (env_view(a@) == env_view(b@)),
{
    if a.len() != b.len() {
        proof {
            assert(env_view(a@).len() != env_view(b@).len());
        }
        return false;
    }
    let mut i: usize = 0;
    while i < a.len()
        invariant
            i <= a@.len() == b@.len(),
            forall|k: int| 0 <= k < i ==> a@[k].0@ == b@[k].0@ && a@[k].1@ == b@[k].1@,
        decreases a@.len() - i,
    {
        if !str_equal(a[i].0.as_str(), b[i].0.as_str()) || !str_equal(a[i].1.as_str(), b[i].1.as_str()) {
            proof {
                assert(env_view(a@)[i as int] != env_view(b@)[i as int]);
            }
            return false;
        }
        i += 1;
    }
    assert(env_view(a@) =~= env_view(b@));
    true
}

/// A command waiting for the operator.
#[derive(Debug, Clone)]
pub struct PendingApproval {
    pub id: String,
    pub execution_id: String,
    pub request: ConfirmationRequest,
    pub created_at: String,
    session_scope: Option<ApprovalScope>,
}

impl PendingApproval {
    /// The scope an approval for the session would cover, when the request
    /// came from a session.
    pub closed spec fn scope_view(&self) -> Option<ScopeView> {
        match self.session_scope {
            Some(s) => Some(s.view_scope()),
            None => None,
        }
    }
}

/// A pending approval by view.
pub struct PendingView {
    pub id: Seq<char>,
    pub execution_id: Seq<char>,
    pub command_line: Seq<char>,
    pub scope: Option<ScopeView>,
    /// When it was put to the operator, as shown.
    pub created_at: Seq<char>,
    /// The request as put to the operator.
    pub request: ConfirmationRequest,
}

/// The approvals by view: the pending ones in order, and the scopes granted
/// for sessions.
pub struct BookView {
    pub pending: Seq<PendingView>,
    pub grants: Seq<ScopeView>,
}

/// What asking the operator gave.
#[derive(Debug, Clone)]
pub enum RequestOutcome {
    /// An approval for the session already covers the request.
    Granted,
    /// No interactive console can answer.
    Unavailable,
    /// The request waits; the line to log.
    Pending { log_message: String },
}

/// What answering a pending approval gave.
#[derive(Debug, Clone)]
pub struct Resolution {
    pub approved: bool,
    pub log_message: String,
}

/// How a decision is reported.
pub open spec fn decision_label(d: ApprovalDecision) -> Seq<char> {
    match d {
        ApprovalDecision::ApproveOnce => "approved"@,
        ApprovalDecision::ApproveForSession => "approved for session"@,
        ApprovalDecision::Reject => "rejected"@,
    }
}

/// The decision that takes effect: approving for the session acts as
/// approving once when the request came from no session.
pub open spec fn effective_decision(decision: ApprovalDecision, p: PendingView) -> ApprovalDecision {
    if decision == ApprovalDecision::ApproveForSession && p.scope is None {
        ApprovalDecision::ApproveOnce
    } else {
        decision
    }
}

/// The grants after answering `p` with the effective decision `d`.
pub open spec fn grants_after(grants: Seq<ScopeView>, p: PendingView, d: ApprovalDecision) -> Seq<
    ScopeView,
> {
    if d == ApprovalDecision::ApproveForSession && p.scope is Some && !grants.contains(p.scope->0) {
        grants.push(p.scope->0)
    } else {
        grants
    }
}

/// The index of the first pending approval with id `id`.
pub open spec fn pending_index(pending: Seq<PendingView>, id: Seq<char>) -> Option<int> {
    if exists|k: int| 0 <= k < pending.len() && (#[trigger] pending[k]).id == id {
        Some(
            choose|k: int|
                0 <= k < pending.len() && (#[trigger] pending[k]).id == id && forall|m: int|
                    0 <= m < k ==> pending[m].id != id,
        )
    } else {
        None
    }
}

/// The pending approvals and session grants of the operator console.
#[derive(Debug, Clone)]
pub struct ApprovalBook {
    pending: Vec<PendingApproval>,
    grants: Vec<ApprovalScope>,
}

/// A pending approval by view.
pub closed spec fn pending_view(p: PendingApproval) -> PendingView {
    PendingView {
        id: p.id@,
        execution_id: p.execution_id@,
        command_line: p.request.command_line@,
        scope: p.scope_view(),
        created_at: p.created_at@,
        request: p.request,
    }
}

impl ApprovalBook {
    /// The approvals by view.
    pub closed spec fn view_book(&self) -> BookView {
        BookView {
            pending: self.pending@.map_values(|p: PendingApproval| pending_view(p)),
            grants: self.grants@.map_values(|g: ApprovalScope| g.view_scope()),
        }
    }

    /// No pending approval and no grant.
    pub fn new() -> (b: Self)
        ensures
            b.view_book().pending.len() == 0,
            b.view_book().grants.len() == 0,
    {
        let b = ApprovalBook { pending: Vec::new(), grants: Vec::new() };
        proof {
            assert(b.view_book().pending =~= Seq::<PendingView>::empty());
            assert(b.view_book().grants =~= Seq::<ScopeView>::empty());
        }
        b
    }

    /// Whether a grant covers `scope`.
    fn is_granted(&self, scope: &ApprovalScope) -> (b: bool)
        ensures
            b == self.view_book().grants.contains(scope.view_scope()),
    {
        let ghost g = self.view_book().grants;
        let mut i: usize = 0;
        while i < self.grants.len()
            invariant
                i <= self.grants@.len(),
                g == self.view_book().grants,
                forall|k: int| 0 <= k < i ==> g[k] != scope.view_scope(),
            decreases self.grants@.len() - i,
        {
            if self.grants[i].same_as(scope) {
                proof {
                    assert(g[i as int] == scope.view_scope());
                }
                return true;
            }
            i += 1;
        }
        false
    }

    /// Puts a command to the operator: granted at once when an approval for
    /// its session covers it, refused when no console is interactive, else
    /// held as pending under `approval_id`.
    pub fn request_confirmation(
        &mut self,
        approval_id: String,
        execution_id: String,
        request: ConfirmationRequest,
        session_id: Option<String>,
        interactive: bool,
        created_at: String,
    ) -> (r: RequestOutcome)
        ensures
            ({
                let scope = match session_id {
                    Some(s) => Some(scope_of(s@, request)),
                    None => None,
                };
                if scope matches Some(k) && old(self).view_book().grants.contains(k) {
                    r is Granted && final(self).view_book() == old(self).view_book()
                } else if !interactive {
                    r is Unavailable && final(self).view_book() == old(self).view_book()
                } else {
                    &&& r matches RequestOutcome::Pending { log_message } && log_message@
                        == "Approval pending ["@ + approval_id@ + "]: "@ + request.command_line@
                    &&& final(self).view_book().grants == old(self).view_book().grants
                    &&& final(self).view_book().pending == old(self).view_book().pending.push(
                        PendingView {
                            id: approval_id@,
                            execution_id: execution_id@,
                            command_line: request.command_line@,
                            scope,
                            created_at: created_at@,
                            request,
                        },
                    )
                }
            }),
    {
        let scope = match &session_id {
            Some(s) => Some(ApprovalScope::new(s.as_str(), &request)),
            None => None,
        };
        if let Some(k) = &scope {
            if self.is_granted(k) {
                return RequestOutcome::Granted;
            }
        }
        if !interactive {
            return RequestOutcome::Unavailable;
        }
        let mut log_message = string_from_str("Approval pending [");
        push_str(&mut log_message, approval_id.as_str());
        push_str(&mut log_message, "]: ");
        push_str(&mut log_message, request.command_line.as_str());
        let ghost before = self.view_book();
        self.pending.push(
            PendingApproval { id: approval_id, execution_id, request, created_at, session_scope: scope },
        );
        proof {
            assert(self.view_book().pending =~= before.pending.push(
                pending_view(self.pending@.last()),
            ));
            assert(self.view_book().grants =~= before.grants);
        }
        RequestOutcome::Pending { log_message }
    }

    /// The index of the first pending approval with id `id`.
    fn find_pending(&self, id: &str) -> (r: Option<usize>)
        ensures
            match r {
                Some(k) => pending_index(self.view_book().pending, id@) == Some(k as int) && k
                    < self.pending@.len(),
                None => pending_index(self.view_book().pending, id@) is None,
            },
    {
        let ghost p = self.view_book().pending;
        let mut i: usize = 0;
        while i < self.pending.len()
            invariant
                i <= self.pending@.len(),
                p == self.view_book().pending,
                p.len() == self.pending@.len(),
                forall|k: int| 0 <= k < i ==> p[k].id != id@,
            decreases self.pending@.len() - i,
        {
            if str_equal(self.pending[i].id.as_str(), id) {
                proof {
                    assert(p[i as int].id == id@);
                    let k = choose|k: int|
                        0 <= k < p.len() && (#[trigger] p[k]).id == id@ && forall|m: int|
                            0 <= m < k ==> p[m].id != id@;
                    if k < i {
                        assert(false);
                    } else if k > i {
                        assert(p[i as int].id != id@);
                    }
                }
                return Some(i);
            }
            proof {
                assert(p[i as int].id != id@);
            }
            i += 1;
        }
        proof {
            false_none(p, id@);
        }
        None
    }

    /// Answers the pending approval `approval_id`; `None` when there is none.
    /// Approving for the session grants its scope, or acts as approving once
    /// when the request came from no session.
    pub fn resolve_confirmation(&mut self, approval_id: &str, decision: ApprovalDecision) -> (r: Option<
        Resolution,
    >)
        ensures
            match pending_index(old(self).view_book().pending, approval_id@) {
                None => r is None && final(self).view_book() == old(self).view_book(),
                Some(k) => {
                    let p = old(self).view_book().pending[k];
                    let effective = effective_decision(decision, p);
                    &&& r matches Some(res) && res.approved == (decision != ApprovalDecision::Reject)
                        && res.log_message@ == "Approval "@ + decision_label(effective) + " ["@ + p.id
                        + "]: "@ + p.command_line
                    &&& final(self).view_book().pending == old(self).view_book().pending.remove(k)
                    &&& final(self).view_book().grants == grants_after(
                        old(self).view_book().grants,
                        p,
                        effective,
                    )
                },
            },
    {
        let k = match self.find_pending(approval_id) {
            None => {
                return None;
            },
            Some(k) => k,
        };
        let ghost before = self.view_book();
        let approval = self.pending.remove(k);
        proof {
            assert(self.view_book().pending =~= before.pending.remove(k as int));
            assert(pending_view(approval) == before.pending[k as int]);
        }
        let effective = match decision {
            ApprovalDecision::ApproveForSession => if approval.session_scope.is_none() {
                ApprovalDecision::ApproveOnce
            } else {
                ApprovalDecision::ApproveForSession
            },
            d => d,
        };
        if effective == ApprovalDecision::ApproveForSession {
            if let Some(key) = &approval.session_scope {
                if !self.is_granted(key) {
                    let ghost g = self.view_book();
                    self.grants.push(key.clone_scope());
                    proof {
                        assert(self.view_book().grants =~= g.grants.push(key.view_scope()));
                        assert(self.view_book().pending =~= g.pending);
                    }
                }
            }
        }
        let label = match effective {
            ApprovalDecision::ApproveOnce => "approved",
            ApprovalDecision::ApproveForSession => "approved for session",
            ApprovalDecision::Reject => "rejected",
        };
        let mut log_message = string_from_str("Approval ");
        push_str(&mut log_message, label);
        push_str(&mut log_message, " [");
        push_str(&mut log_message, approval.id.as_str());
        push_str(&mut log_message, "]: ");
        push_str(&mut log_message, approval.request.command_line.as_str());
        let approved = match decision {
            ApprovalDecision::Reject => false,
            _ => true,
        };
        Some(Resolution { approved, log_message })
    }

    /// Withdraws the pending approval `approval_id`; the line to log, or
    /// `None` when there is none.
    #[verifier::rlimit(40)]
    pub fn cancel_pending_confirmation(&mut self, approval_id: &str) -> (r: Option<String>)
        ensures
            match pending_index(old(self).view_book().pending, approval_id@) {
                None => r is None && final(self).view_book() == old(self).view_book(),
                Some(k) => {
                    let p = old(self).view_book().pending[k];
                    &&& r matches Some(m) && m@ == "Approval cancelled ["@ + p.id + "]: "@
                        + p.command_line
                    &&& final(self).view_book().pending == old(self).view_book().pending.remove(k)
                    &&& final(self).view_book().grants == old(self).view_book().grants
                },
            },
    {
        let k = match self.find_pending(approval_id) {
            None => {
                return None;
            },
            Some(k) => k,
        };
        let ghost before = self.view_book();
        let approval = self.pending.remove(k);
        proof {
            assert(self.view_book().pending =~= before.pending.remove(k as int));
            assert(self.view_book().grants =~= before.grants);
            assert(pending_view(approval) == before.pending[k as int]);
        }
        let mut m = string_from_str("Approval cancelled [");
        push_str(&mut m, approval.id.as_str());
        push_str(&mut m, "]: ");
        push_str(&mut m, approval.request.command_line.as_str());
        Some(m)
    }

    /// Forgets every approval granted for a session; pending ones stay.
    pub fn clear_session_grants(&mut self)
        ensures
            final(self).view_book().pending == old(self).view_book().pending,
            final(self).view_book().grants.len() == 0,
    {
        self.grants = Vec::new();
        assert(self.view_book().grants =~= Seq::<ScopeView>::empty());
    }

    /// Closes the book: forgets the session grants and hands out every
    /// pending approval, oldest first, leaving none.
    pub fn close(&mut self) -> (r: Vec<PendingApproval>)
        ensures
            r@.map_values(|p: PendingApproval| pending_view(p)) == old(self).view_book().pending,
            final(self).view_book().pending.len() == 0,
            final(self).view_book().grants.len() == 0,
    {
        let mut pending: Vec<PendingApproval> = Vec::new();
        std::mem::swap(&mut pending, &mut self.pending);
        self.grants = Vec::new();
        assert(self.view_book().pending =~= Seq::<PendingView>::empty());
        assert(self.view_book().grants =~= Seq::<ScopeView>::empty());
        pending
    }

    /// The pending approvals, oldest first.
    pub fn pending(&self) -> (p: &Vec<PendingApproval>)
        ensures
            p@.map_values(|a: PendingApproval| pending_view(a)) == self.view_book().pending,
    {
        &self.pending
    }
}

impl ApprovalScope {
    /// Copies the scope.
    pub fn clone_scope(&self) -> (c: Self)
        ensures
            c.view_scope() == self.view_scope(),
    {
        ApprovalScope {
            session_id: self.session_id.clone(),
            server: self.server.clone(),
            platform: self.platform.clone(),
            command_line: self.command_line.clone(),
            executable: self.executable.clone(),
            args: copy_strings(&self.args),
            working_directory: match &self.working_directory {
                Some(w) => Some(w.clone()),
                None => None,
            },
            env: crate::execution_service::clone_env(&self.env),
            contains_shell_operator: self.contains_shell_operator,
        }
    }
}

/// When no pending approval has the id, `pending_index` finds none.
proof fn false_none(p: Seq<PendingView>, id: Seq<char>)
    requires
        forall|k: int| 0 <= k < p.len() ==> p[k].id != id,
    ensures
        pending_index(p, id) is None,
{
}

/// Approving a request for its session grants its scope: a later request of
/// the same session with the same scope finds the grant (and is approved
/// without asking).
pub proof fn lemma_session_grant_covers_same_scope(
    book: BookView,
    k: int,
    session_id: Seq<char>,
    request: ConfirmationRequest,
)
    requires
        0 <= k < book.pending.len(),
        book.pending[k].scope == Some(scope_of(session_id, request)),
    ensures
        grants_after(
            book.grants,
            book.pending[k],
            effective_decision(ApprovalDecision::ApproveForSession, book.pending[k]),
        ).contains(scope_of(session_id, request)),
{
    let s = scope_of(session_id, request);
    if !book.grants.contains(s) {
        assert(book.grants.push(s)[book.grants.len() as int] == s);
    }
}

/// Approving for the session a request that came from no session grants
/// nothing: it counts as approving once.
pub proof fn lemma_no_session_no_grant(book: BookView, k: int)
    requires
        0 <= k < book.pending.len(),
        book.pending[k].scope is None,
    ensures
        effective_decision(ApprovalDecision::ApproveForSession, book.pending[k])
            == ApprovalDecision::ApproveOnce,
        grants_after(
            book.grants,
            book.pending[k],
            effective_decision(ApprovalDecision::ApproveForSession, book.pending[k]),
        ) == book.grants,
{
}

/// A grant for one session does not cover another session's requests.
pub proof fn lemma_grant_is_per_session(
    a: Seq<char>,
    b: Seq<char>,
    request: ConfirmationRequest,
)
    requires
        a != b,
    ensures
        scope_of(a, request) != scope_of(b, request),
{
}

} // verus!
