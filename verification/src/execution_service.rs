//! Turning an `execute_command` request into something that can run.
//!
//! Preparing a command happens in two steps. `plan_command` parses the command
//! line, applies the policy, picks the target, settles the timeout and maps
//! paths. For a local target the program then looks at the working directory
//! on disk and reports what it found; `prepare_command` finishes the
//! preparation from the plan and that report. The runner's decisions (which
//! events a finished process produces) are here too; the program awaits the
//! processes themselves.

use vstd::prelude::*;
use crate::command_parser::{parse_command_line, parse_command_spec, string_views, CommandParseError};
use crate::config::{opt_view, AppConfig, SshAuthConfig, SshAuthType};
use crate::execution_target::{ExecutionTarget, ExecutionTargetRegistry, ExecutionTransport, SshTarget};
use crate::path_mapping::{looks_like_path_spec, PathMapper};
use crate::platform::{platform_name, HostPlatform, RuntimePlatform};
use crate::policy::{PolicyDecision, PolicyEngine};
use crate::ssh::{env_view, SshCommandRequest, SshCommandResult, SshError};
use crate::text::{
    chars_of, decimal, push_decimal, push_str, string_from_chars, string_from_str, trim_seq,
    trimmed_chars, views_of,
};

verus! {

/// A request to run a command.
#[derive(Debug, Clone)]
pub struct ExecuteCommandInput {
    pub command: String,
    pub server: Option<String>,
    pub working_directory: Option<String>,
    /// Environment variables to set, as name and value.
    pub env: Vec<(String, String)>,
    pub timeout_ms: Option<u64>,
}

/// What the operator is asked to approve.
#[derive(Debug, Clone)]
pub struct ConfirmationRequest {
    pub server: String,
    pub platform: String,
    pub command_line: String,
    pub executable: String,
    pub args: Vec<String>,
    pub working_directory: Option<String>,
    pub timeout_ms: u64,
    pub env: Vec<(String, String)>,
    pub contains_shell_operator: bool,
}

/// The state a launched execution starts in.
#[derive(Debug, Clone, Copy, PartialEq, Eq, Structural)]
pub enum LaunchState {
    Running,
}

/// The state of an execution.
#[derive(Debug, Clone, Copy, PartialEq, Eq, Structural)]
pub enum ExecutionState {
    Running,
    Completed,
    Failed,
}

/// An event of a running execution.
#[derive(Debug, Clone)]
pub enum ExecutionEvent {
    Status { state: ExecutionState, message: Option<String> },
    Output { text: String },
    Exit { code: i32, success: bool, timed_out: bool },
    Error { message: String },
}

/// Why a command could not be prepared or looked up.
#[derive(Debug, Clone, PartialEq, Eq)]
pub enum ExecutionError {
    Parse(CommandParseError),
    Denied,
    UnknownServer(String),
    InvalidTimeout,
    OutputStore(String),
    NotFound(String),
    InvalidWorkingDirectory(String),
}

/// An execution error with its texts taken by view.
pub enum ExecErrorView {
    Parse(CommandParseError),
    Denied,
    UnknownServer(Seq<char>),
    InvalidTimeout,
    OutputStore(Seq<char>),
    NotFound(Seq<char>),
    InvalidWorkingDirectory(Seq<char>),
}

impl ExecutionError {
    /// The error with its texts taken by view.
    pub open spec fn view_error(&self) -> ExecErrorView {
        match self {
            ExecutionError::Parse(e) => ExecErrorView::Parse(*e),
            ExecutionError::Denied => ExecErrorView::Denied,
            ExecutionError::UnknownServer(s) => ExecErrorView::UnknownServer(s@),
            ExecutionError::InvalidTimeout => ExecErrorView::InvalidTimeout,
            ExecutionError::OutputStore(s) => ExecErrorView::OutputStore(s@),
            ExecutionError::NotFound(s) => ExecErrorView::NotFound(s@),
            ExecutionError::InvalidWorkingDirectory(s) => ExecErrorView::InvalidWorkingDirectory(s@),
        }
    }

    /// The text of the error's message.
    pub open spec fn message_spec(&self) -> Seq<char> {
        match self {
            ExecutionError::Parse(e) => crate::command_parser::parse_error_message(*e),
            ExecutionError::Denied => "command execution is denied by policy"@,
            ExecutionError::UnknownServer(s) => "unknown execution server '"@ + s@ + "'"@,
            ExecutionError::InvalidTimeout => "timeoutMs must be greater than zero"@,
            ExecutionError::OutputStore(s) => "failed to initialize execution output store: "@ + s@,
            ExecutionError::NotFound(s) => "execution '"@ + s@ + "' not found"@,
            ExecutionError::InvalidWorkingDirectory(s) => "invalid working directory: "@ + s@,
        }
    }

    /// The error's message.
    pub fn message(&self) -> (m: String)
        ensures
            m@ == self.message_spec(),
    {
        match self {
            ExecutionError::Parse(e) => e.message(),
            ExecutionError::Denied => string_from_str("command execution is denied by policy"),
            ExecutionError::UnknownServer(s) => {
                let mut m = string_from_str("unknown execution server '");
                push_str(&mut m, s.as_str());
                push_str(&mut m, "'");
                m
            },
            ExecutionError::InvalidTimeout => string_from_str("timeoutMs must be greater than zero"),
            ExecutionError::OutputStore(s) => {
                let mut m = string_from_str("failed to initialize execution output store: ");
                push_str(&mut m, s.as_str());
                m
            },
            ExecutionError::NotFound(s) => {
                let mut m = string_from_str("execution '");
                push_str(&mut m, s.as_str());
                push_str(&mut m, "' not found");
                m
            },
            ExecutionError::InvalidWorkingDirectory(s) => {
                let mut m = string_from_str("invalid working directory: ");
                push_str(&mut m, s.as_str());
                m
            },
        }
    }
}

/// What runs on the local host.
#[derive(Debug, Clone)]
pub struct HostRunExecution {
    pub program: String,
    pub args: Vec<String>,
    pub working_directory: String,
    pub env: Vec<(String, String)>,
    pub timeout_ms: u64,
}

/// What runs on a remote host.
#[derive(Debug, Clone)]
pub struct SshRunExecution {
    pub target: SshTarget,
    pub platform: RuntimePlatform,
    pub request: SshCommandRequest,
}

/// Where a prepared command runs.
#[derive(Debug, Clone)]
pub enum RunExecutionBackend {
    Host(HostRunExecution),
    Ssh(SshRunExecution),
}

/// A command ready to launch.
#[derive(Debug, Clone)]
pub struct RunExecution {
    pub command_line: String,
    pub server_name: String,
    pub backend: RunExecutionBackend,
}

/// A prepared command and, when the policy asks for it, the confirmation
/// request to show the operator first.
#[derive(Debug, Clone)]
pub struct PreparedExecution {
    run: RunExecution,
    confirmation_request: Option<ConfirmationRequest>,
}

impl PreparedExecution {
    /// The confirmation request, when the command needs the operator's approval.
    pub fn confirmation_request(&self) -> (r: Option<&ConfirmationRequest>)
        ensures
            r == match self.confirmation() {
                Some(c) => Some(&c),
                None => None::<&ConfirmationRequest>,
            },
    {
        match &self.confirmation_request {
            Some(c) => Some(c),
            None => None,
        }
    }

    /// What will run.
    pub fn run(&self) -> (r: &RunExecution)
        ensures
            *r == self.run_of(),
    {
        &self.run
    }

    /// What will run, by value, for contracts.
    pub closed spec fn run_of(&self) -> RunExecution {
        self.run
    }

    /// The confirmation request, by value, for contracts.
    pub closed spec fn confirmation(&self) -> Option<ConfirmationRequest> {
        self.confirmation_request
    }
}

// ---------------------------------------------------------------------------
// Views
// ---------------------------------------------------------------------------

/// An SSH target by view.
pub struct SshTargetView {
    pub host: Seq<char>,
    pub port: u16,
    pub user: Option<Seq<char>>,
    pub identity_file: Option<Seq<char>>,
    pub known_hosts_file: Option<Seq<char>>,
    pub auth_kind: SshAuthType,
    pub auth_reference: Option<Seq<char>>,
    pub verify_host_key: bool,
    pub connection_idle_timeout_ms: u64,
}

/// An SSH target by view.
pub open spec fn ssh_target_view(t: SshTarget) -> SshTargetView {
    SshTargetView {
        host: t.host@,
        port: t.port,
        user: opt_view(t.user),
        identity_file: opt_view(t.identity_file),
        known_hosts_file: opt_view(t.known_hosts_file),
        auth_kind: t.auth.kind,
        auth_reference: opt_view(t.auth.reference),
        verify_host_key: t.verify_host_key,
        connection_idle_timeout_ms: t.connection_idle_timeout_ms,
    }
}

/// Where a planned command runs, by view.
pub enum DestinationView {
    /// The local host; the working directory to look for, when one is asked for.
    Host { directory: Option<Seq<char>> },
    /// A remote host and the working directory there.
    Ssh { target: SshTargetView, working_directory: Option<Seq<char>> },
}

/// A planned command by view.
pub struct PlanView {
    pub command_line: Seq<char>,
    pub server_name: Seq<char>,
    pub platform: RuntimePlatform,
    pub executable: Seq<char>,
    pub args: Seq<Seq<char>>,
    pub env: Seq<(Seq<char>, Seq<char>)>,
    pub timeout_ms: u64,
    pub decision: PolicyDecision,
    pub contains_shell_operator: bool,
    pub destination: DestinationView,
}

/// The decision a command gets: the policy's, except that a command the
/// policy allows needs approval when it holds a shell operator.
pub open spec fn escalated_decision(policy: PolicyDecision, shell_operator: bool) -> PolicyDecision {
    if shell_operator && policy == PolicyDecision::Allow {
        PolicyDecision::RequireConfirmation
    } else {
        policy
    }
}

/// The timeout a command gets: the requested one or the default, no more than
/// the maximum; `None` when it is zero.
pub open spec fn resolve_timeout_spec(requested: Option<u64>, default_ms: u64, max_ms: u64) -> Option<u64> {
    let t = match requested {
        Some(r) => r,
        None => default_ms,
    };
    if t == 0 {
        None
    } else if t < max_ms {
        Some(t)
    } else {
        Some(max_ms)
    }
}

/// The working directory asked for: the request's, else the policy's, each
/// trimmed and ignored when blank.
pub open spec fn selected_wd_spec(requested: Option<Seq<char>>, from_policy: Option<Seq<char>>) -> Option<
    Seq<char>,
> {
    match requested {
        Some(r) if trim_seq(r).len() > 0 => Some(trim_seq(r)),
        _ => match from_policy {
            Some(d) if trim_seq(d).len() > 0 => Some(trim_seq(d)),
            _ => None,
        },
    }
}

/// A command token mapped when it holds a path separator.
pub open spec fn mapped_command(mapper: PathMapper, token: Seq<char>) -> Seq<char> {
    if token.contains('/') || token.contains('\\') {
        mapper.mapped(token)
    } else {
        token
    }
}

/// An argument mapped when it looks like an absolute path.
pub open spec fn mapped_argument(mapper: PathMapper, a: Seq<char>) -> Seq<char> {
    if looks_like_path_spec(a) {
        mapper.mapped(a)
    } else {
        a
    }
}

/// The service that prepares commands.
pub struct ExecutionService {
    policy_engine: PolicyEngine,
    targets: ExecutionTargetRegistry,
    host: HostPlatform,
    default_timeout_ms: u64,
    max_timeout_ms: u64,
}

impl ExecutionService {
    /// The policy in force.
    pub closed spec fn engine(&self) -> PolicyEngine {
        self.policy_engine
    }

    /// The targets.
    pub closed spec fn registry(&self) -> ExecutionTargetRegistry {
        self.targets
    }

    /// The platform the service runs on.
    pub closed spec fn host_platform(&self) -> HostPlatform {
        self.host
    }

    /// The configured default and maximum timeouts.
    pub closed spec fn timeouts(&self) -> (u64, u64) {
        (self.default_timeout_ms, self.max_timeout_ms)
    }

    /// The target a request names: the server asked for, else the default.
    pub open spec fn target_name(&self, server: Option<Seq<char>>) -> Seq<char> {
        match server {
            Some(s) => s,
            None => self.registry().default_name(),
        }
    }

    /// What planning a command gives: the parsed command decided by the
    /// policy for its target, the target, the timeout and the mapped paths,
    /// or why there is no plan.
    pub open spec fn plan_spec(
        &self,
        command: Seq<char>,
        server: Option<Seq<char>>,
        working_directory: Option<Seq<char>>,
        env: Seq<(Seq<char>, Seq<char>)>,
        timeout_ms: Option<u64>,
    ) -> Result<PlanView, ExecErrorView> {
        match parse_command_spec(command, self.host_platform().platform == RuntimePlatform::Windows) {
            Err(e) => Err(ExecErrorView::Parse(e)),
            Ok((program, args, shell_operator)) => {
                let name = self.target_name(server);
                let decision = self.engine().decision_for_views(program, args, name);
                if decision == PolicyDecision::Deny {
                    Err(ExecErrorView::Denied)
                } else {
                    match self.registry().lookup(name) {
                        None => Err(
                            ExecErrorView::UnknownServer(
                                match server {
                                    Some(s) => s,
                                    None => Seq::empty(),
                                },
                            ),
                        ),
                        Some(target) => match resolve_timeout_spec(
                            timeout_ms,
                            self.timeouts().0,
                            self.timeouts().1,
                        ) {
                            None => Err(ExecErrorView::InvalidTimeout),
                            Some(t) => {
                                let mapper = target.path_mapper;
                                let wd = match selected_wd_spec(
                                    working_directory,
                                    self.engine().working_directory_for_views(program, args, name),
                                ) {
                                    Some(w) => Some(mapper.mapped(w)),
                                    None => None,
                                };
                                Ok(
                                    PlanView {
                                        command_line: command,
                                        server_name: target.name@,
                                        platform: target.target_platform,
                                        executable: mapped_command(mapper, program),
                                        args: args.map_values(|a: Seq<char>| mapped_argument(mapper, a)),
                                        env,
                                        timeout_ms: t,
                                        decision: escalated_decision(decision, shell_operator),
                                        contains_shell_operator: shell_operator,
                                        destination: match target.transport {
                                            ExecutionTransport::Host => DestinationView::Host {
                                                directory: wd,
                                            },
                                            ExecutionTransport::Ssh(s) => DestinationView::Ssh {
                                                target: ssh_target_view(s),
                                                working_directory: wd,
                                            },
                                        },
                                    },
                                )
                            },
                        },
                    }
                }
            },
        }
    }
}

/// A planned command, waiting for the working directory check.
#[derive(Debug, Clone)]
pub struct CommandPlan {
    pub command_line: String,
    pub server_name: String,
    pub platform: RuntimePlatform,
    pub executable: String,
    pub args: Vec<String>,
    pub env: Vec<(String, String)>,
    pub timeout_ms: u64,
    pub decision: PolicyDecision,
    pub contains_shell_operator: bool,
    pub destination: PlanDestination,
}

/// Where a planned command runs.
#[derive(Debug, Clone)]
pub enum PlanDestination {
    /// The local host; the mapped working directory asked for, if any.
    Host { directory: Option<String> },
    /// A remote host and the mapped working directory there.
    Ssh { target: SshTarget, working_directory: Option<String> },
}

impl CommandPlan {
    /// The plan by view.
    pub open spec fn view_plan(&self) -> PlanView {
        PlanView {
            command_line: self.command_line@,
            server_name: self.server_name@,
            platform: self.platform,
            executable: self.executable@,
            args: views_of(self.args@),
            env: env_view(self.env@),
            timeout_ms: self.timeout_ms,
            decision: self.decision,
            contains_shell_operator: self.contains_shell_operator,
            destination: match self.destination {
                PlanDestination::Host { directory } => DestinationView::Host {
                    directory: opt_view(directory),
                },
                PlanDestination::Ssh { target, working_directory } => DestinationView::Ssh {
                    target: ssh_target_view(target),
                    working_directory: opt_view(working_directory),
                },
            },
        }
    }

    /// What the program has to find out on disk before the command can run.
    pub fn local_directory_request(&self) -> (r: LocalDirectoryRequest)
        ensures
            match self.destination {
                PlanDestination::Host { directory: Some(d) } => r matches LocalDirectoryRequest::Path(
                    p,
                ) && p@ == d@,
                PlanDestination::Host { directory: None } => r is Current,
                PlanDestination::Ssh { .. } => r is NotNeeded,
            },
    {
        match &self.destination {
            PlanDestination::Host { directory: Some(d) } => LocalDirectoryRequest::Path(d.clone()),
            PlanDestination::Host { directory: None } => LocalDirectoryRequest::Current,
            PlanDestination::Ssh { .. } => LocalDirectoryRequest::NotNeeded,
        }
    }
}

/// The local working directory a plan needs.
#[derive(Debug, Clone)]
pub enum LocalDirectoryRequest {
    /// The command runs remotely.
    NotNeeded,
    /// The server's current directory.
    Current,
    /// This path, resolved against the current directory when relative.
    Path(String),
}

/// What the program found on disk for a local working directory.
#[derive(Debug, Clone)]
pub enum LocalDirectory {
    /// The directory to run in, as displayed.
    Resolved(String),
    /// The resolved path does not exist; the path as displayed.
    Missing(String),
    /// The resolved path is not a directory; the path as displayed.
    NotDirectory(String),
    /// The current directory could not be read; the error as displayed.
    Unavailable(String),
}

/// Copies an SSH target field by field.
fn clone_ssh_target(t: &SshTarget) -> (out: SshTarget)
    ensures
        ssh_target_view(out) == ssh_target_view(*t),
{
    SshTarget {
        host: t.host.clone(),
        port: t.port,
        user: clone_opt(&t.user),
        identity_file: clone_opt(&t.identity_file),
        known_hosts_file: clone_opt(&t.known_hosts_file),
        auth: SshAuthConfig { kind: t.auth.kind, reference: clone_opt(&t.auth.reference) },
        verify_host_key: t.verify_host_key,
        connection_idle_timeout_ms: t.connection_idle_timeout_ms,
    }
}

/// Copies an optional string.
fn clone_opt(o: &Option<String>) -> (out: Option<String>)
    ensures
        opt_view(out) == opt_view(*o),
{
    match o {
        Some(s) => Some(s.clone()),
        None => None,
    }
}

/// Copies a list of strings.
fn clone_strings(v: &Vec<String>) -> (out: Vec<String>)
    ensures
        views_of(out@) == views_of(v@),
{
    let mut out: Vec<String> = Vec::new();
    let mut i: usize = 0;
    while i < v.len()
        invariant
            i <= v@.len(),
            views_of(out@) == views_of(v@.take(i as int)),
        decreases v@.len() - i,
    {
        out.push(v[i].clone());
        proof {
            assert(views_of(v@.take(i + 1)) =~= views_of(v@.take(i as int)).push(v@[i as int]@));
            assert(views_of(out@) =~= views_of(v@.take(i + 1)));
        }
        i += 1;
    }
    assert(v@.take(i as int) =~= v@);
    out
}

/// Copies environment entries.
pub fn clone_env(env: &Vec<(String, String)>) -> (out: Vec<(String, String)>)
    ensures
        env_view(out@) == env_view(env@),
{
    let mut out: Vec<(String, String)> = Vec::new();
    let mut i: usize = 0;
    while i < env.len()
        invariant
            i <= env@.len(),
            env_view(out@) == env_view(env@.take(i as int)),
        decreases env@.len() - i,
    {
        out.push((env[i].0.clone(), env[i].1.clone()));
        proof {
            assert(env_view(env@.take(i + 1)) =~= env_view(env@.take(i as int)).push(
                (env@[i as int].0@, env@[i as int].1@),
            ));
            assert(env_view(out@) =~= env_view(env@.take(i + 1)));
        }
        i += 1;
    }
    assert(env@.take(i as int) =~= env@);
    out
}

/// The timeout a command gets: the requested one or the default, no more
/// than the maximum; an error when it is zero.
pub fn resolve_timeout(requested: Option<u64>, default_ms: u64, max_ms: u64) -> (r: Result<
    u64,
    ExecutionError,
>)
    ensures
        match resolve_timeout_spec(requested, default_ms, max_ms) {
            Some(t) => r == Ok::<u64, ExecutionError>(t),
            None => r == Err::<u64, ExecutionError>(ExecutionError::InvalidTimeout),
        },
{
    let t = match requested {
        Some(r) => r,
        None => default_ms,
    };
    if t == 0 {
        return Err(ExecutionError::InvalidTimeout);
    }
    if t < max_ms {
        Ok(t)
    } else {
        Ok(max_ms)
    }
}

/// The working directory asked for: the request's, else the policy's, each
/// trimmed and ignored when blank.
pub fn selected_working_directory(requested: Option<&str>, from_policy: Option<&str>) -> (r: Option<
    String,
>)
    ensures
        opt_view(r) == selected_wd_spec(
            match requested {
                Some(s) => Some(s@),
                None => None,
            },
            match from_policy {
                Some(s) => Some(s@),
                None => None,
            },
        ),
{
    if let Some(r) = requested {
        let t = trimmed_chars(r);
        if t.len() > 0 {
            return Some(string_from_chars(t.as_slice()));
        }
    }
    if let Some(d) = from_policy {
        let t = trimmed_chars(d);
        if t.len() > 0 {
            return Some(string_from_chars(t.as_slice()));
        }
    }
    None
}

/// Maps each argument that looks like an absolute path.
fn map_arguments(mapper: &PathMapper, args: &Vec<String>) -> (out: Vec<String>)
    ensures
        views_of(out@) == views_of(args@).map_values(|a: Seq<char>| mapped_argument(*mapper, a)),
{
    let mut out: Vec<String> = Vec::new();
    let mut i: usize = 0;
    while i < args.len()
        invariant
            i <= args@.len(),
            views_of(out@) == views_of(args@.take(i as int)).map_values(
                |a: Seq<char>| mapped_argument(*mapper, a),
            ),
        decreases args@.len() - i,
    {
        let ghost before = views_of(out@);
        let m = mapper.map_argument_if_path(args[i].as_str());
        out.push(m);
        proof {
            let a = args@[i as int]@;
            assert(views_of(out@) =~= before.push(mapped_argument(*mapper, a)));
            let w = views_of(args@.take(i as int));
            assert(views_of(args@.take(i + 1)) =~= w.push(a));
            assert(w.push(a).map_values(|x: Seq<char>| mapped_argument(*mapper, x)) =~= w.map_values(
                |x: Seq<char>| mapped_argument(*mapper, x),
            ).push(mapped_argument(*mapper, a)));
            assert(views_of(out@) =~= views_of(args@.take(i + 1)).map_values(
                |a: Seq<char>| mapped_argument(*mapper, a),
            ));
        }
        i += 1;
    }
    assert(args@.take(i as int) =~= args@);
    out
}

impl ExecutionService {
    /// A service for the configuration, on the given host.
    pub fn new(config: AppConfig, host: HostPlatform) -> (s: Self)
        ensures
            s.engine().rule_views() == crate::policy::compiled_rules(config.execution.commands@),
            s.engine().fallback_action() == config.execution.default_action,
            s.engine().fallback_working_directory() == opt_view(
                config.execution.default_working_directory,
            ),
            s.registry().default_name() == config.execution.default_server@,
            forall|name: Seq<char>|
                crate::execution_target::expected_target(
                    config.execution,
                    host,
                    name,
                    config.execution.servers@.len() as int,
                    #[trigger] s.registry().lookup(name),
                ),
            s.host_platform() == host,
            s.timeouts() == (config.execution.default_timeout_ms, config.execution.max_timeout_ms),
    {
        let targets = ExecutionTargetRegistry::from_config(&config.execution, host);
        let default_timeout_ms = config.execution.default_timeout_ms;
        let max_timeout_ms = config.execution.max_timeout_ms;
        let policy_engine = PolicyEngine::new(config);
        ExecutionService { policy_engine, targets, host, default_timeout_ms, max_timeout_ms }
    }

    /// The name of the default target.
    pub fn default_server_name(&self) -> (name: String)
        ensures
            name@ == self.registry().default_name(),
    {
        self.targets.default_server_name()
    }

    /// The configured targets by name, in name order, with their platforms.
    pub fn available_environments(&self) -> (envs: Vec<crate::execution_target::EnvironmentSummary>)
        ensures
            crate::sorting::strictly_sorted(
                envs@.map_values(|e: crate::execution_target::EnvironmentSummary| e.name@),
            ),
            forall|n: Seq<char>|
                envs@.map_values(|e: crate::execution_target::EnvironmentSummary| e.name@).contains(n)
                    <==> (#[trigger] self.registry().lookup(n)) is Some,
            forall|i: int|
                0 <= i < envs@.len() ==> (#[trigger] self.registry().lookup(envs@[i].name@) matches Some(t)
                    && t.target_platform == envs@[i].platform),
    {
        self.targets.environments()
    }

    /// Plans a command: parses it, applies the policy, picks the target,
    /// settles the timeout and maps paths for the target.
    pub fn plan_command(&self, input: &ExecuteCommandInput) -> (r: Result<CommandPlan, ExecutionError>)
        ensures
            match r {
                Ok(plan) => Ok(plan.view_plan()),
                Err(e) => Err(e.view_error()),
            } == self.plan_spec(
                input.command@,
                opt_view(input.server),
                opt_view(input.working_directory),
                env_view(input.env@),
                input.timeout_ms,
            ),
    {
        let parsed = match parse_command_line(input.command.as_str(), self.host.platform) {
            Ok(p) => p,
            Err(e) => {
                return Err(ExecutionError::Parse(e));
            },
        };
        let target_name = match &input.server {
            Some(s) => s.clone(),
            None => self.default_server_name(),
        };
        let policy = self.policy_engine.evaluate_for_target(
            parsed.program.as_str(),
            parsed.args.as_slice(),
            target_name.as_str(),
        );
        proof {
            self.policy_engine.lemma_decision_by_views(parsed.program@, parsed.args@, target_name@);
        }
        if policy.decision == PolicyDecision::Deny {
            return Err(ExecutionError::Denied);
        }
        let target = match &input.server {
            Some(s) => self.targets.resolve(Some(s.as_str())),
            None => self.targets.resolve(None),
        };
        let target = match target {
            Some(t) => t,
            None => {
                let name = match &input.server {
                    Some(s) => s.clone(),
                    None => String::new(),
                };
                return Err(ExecutionError::UnknownServer(name));
            },
        };
        let timeout_ms = match resolve_timeout(
            input.timeout_ms,
            self.default_timeout_ms,
            self.max_timeout_ms,
        ) {
            Ok(t) => t,
            Err(e) => {
                return Err(e);
            },
        };
        let executable = target.path_mapper.map_command_if_path(parsed.program.as_str());
        let args = map_arguments(&target.path_mapper, &parsed.args);
        let requested = match &input.working_directory {
            Some(w) => Some(w.as_str()),
            None => None,
        };
        let from_policy = match &policy.default_working_directory {
            Some(w) => Some(w.as_str()),
            None => None,
        };
        let selected = selected_working_directory(requested, from_policy);
        let mapped_wd = match &selected {
            Some(w) => Some(target.path_mapper.map_path(w.as_str())),
            None => None,
        };
        let destination = match &target.transport {
            ExecutionTransport::Host => PlanDestination::Host { directory: mapped_wd },
            ExecutionTransport::Ssh(s) => PlanDestination::Ssh {
                target: clone_ssh_target(s),
                working_directory: mapped_wd,
            },
        };
        Ok(
            CommandPlan {
                command_line: input.command.clone(),
                server_name: target.name.clone(),
                platform: target.target_platform,
                executable,
                args,
                env: clone_env(&input.env),
                timeout_ms,
                decision: if parsed.contains_shell_operator && policy.decision == PolicyDecision::Allow {
                    PolicyDecision::RequireConfirmation
                } else {
                    policy.decision
                },
                contains_shell_operator: parsed.contains_shell_operator,
                destination,
            },
        )
    }

    /// Finishes preparing a planned command, given what the program found
    /// for its local working directory (ignored for remote targets).
    pub fn prepare_command(&self, plan: CommandPlan, local: LocalDirectory) -> (r: Result<
        PreparedExecution,
        ExecutionError,
    >)
        ensures
            prepared_spec(plan.view_plan(), local, r),
    {
        prepare_from_plan(plan, local)
    }
}

/// Whether `r` is what finishing `plan` with `local` gives.
pub open spec fn prepared_spec(
    plan: PlanView,
    local: LocalDirectory,
    r: Result<PreparedExecution, ExecutionError>,
) -> bool {
    match plan.destination {
        DestinationView::Host { .. } => match local {
            LocalDirectory::Missing(p) => r matches Err(e) && e.view_error()
                == ExecErrorView::InvalidWorkingDirectory("path does not exist: "@ + p@),
            LocalDirectory::NotDirectory(p) => r matches Err(e) && e.view_error()
                == ExecErrorView::InvalidWorkingDirectory("path is not a directory: "@ + p@),
            LocalDirectory::Unavailable(m) => r matches Err(e) && e.view_error()
                == ExecErrorView::InvalidWorkingDirectory(m@),
            LocalDirectory::Resolved(d) => r matches Ok(p) && run_matches(plan, Some(d@), p),
        },
        DestinationView::Ssh { working_directory, .. } => r matches Ok(p) && run_matches(
            plan,
            working_directory,
            p,
        ),
    }
}

/// Whether a prepared execution carries the plan, with `wd` as the working
/// directory shown to the operator.
pub open spec fn run_matches(plan: PlanView, wd: Option<Seq<char>>, p: PreparedExecution) -> bool {
    &&& p.run_of().command_line@ == plan.command_line
    &&& p.run_of().server_name@ == plan.server_name
    &&& match (plan.destination, p.run_of().backend) {
        (DestinationView::Host { .. }, RunExecutionBackend::Host(h)) => {
            &&& h.program@ == plan.executable
            &&& views_of(h.args@) == plan.args
            &&& Some(h.working_directory@) == wd
            &&& env_view(h.env@) == plan.env
            &&& h.timeout_ms == plan.timeout_ms
        },
        (DestinationView::Ssh { target, working_directory }, RunExecutionBackend::Ssh(s)) => {
            &&& ssh_target_view(s.target) == target
            &&& s.platform == plan.platform
            &&& s.request.executable@ == plan.executable
            &&& views_of(s.request.args@) == plan.args
            &&& env_view(s.request.env@) == plan.env
            &&& opt_view(s.request.working_directory) == working_directory
            &&& s.request.timeout_ms == plan.timeout_ms
        },
        _ => false,
    }
    &&& if plan.decision == PolicyDecision::RequireConfirmation {
        p.confirmation() matches Some(c) && c.server@ == plan.server_name && c.platform@
            == platform_name(plan.platform) && c.command_line@ == plan.command_line
            && c.executable@ == plan.executable && views_of(c.args@) == plan.args && opt_view(
            c.working_directory,
        ) == wd && c.timeout_ms == plan.timeout_ms && env_view(c.env@) == plan.env
            && c.contains_shell_operator == plan.contains_shell_operator
    } else {
        p.confirmation() is None
    }
}

/// Finishes a plan with the local directory report.
fn prepare_from_plan(plan: CommandPlan, local: LocalDirectory) -> (r: Result<PreparedExecution, ExecutionError>)
    ensures
        prepared_spec(plan.view_plan(), local, r),
{
    let ghost pv = plan.view_plan();
    let CommandPlan {
        command_line,
        server_name,
        platform,
        executable,
        args,
        env,
        timeout_ms,
        decision,
        contains_shell_operator,
        destination,
    } = plan;
    let (backend, preview): (RunExecutionBackend, Option<String>) = match destination {
        PlanDestination::Host { .. } => {
            let wd = match local {
                LocalDirectory::Resolved(d) => d,
                LocalDirectory::Missing(p) => {
                    let mut m = string_from_str("path does not exist: ");
                    push_str(&mut m, p.as_str());
                    return Err(ExecutionError::InvalidWorkingDirectory(m));
                },
                LocalDirectory::NotDirectory(p) => {
                    let mut m = string_from_str("path is not a directory: ");
                    push_str(&mut m, p.as_str());
                    return Err(ExecutionError::InvalidWorkingDirectory(m));
                },
                LocalDirectory::Unavailable(m) => {
                    return Err(ExecutionError::InvalidWorkingDirectory(m));
                },
            };
            let preview = Some(wd.clone());
            (
                RunExecutionBackend::Host(
                    HostRunExecution {
                        program: executable.clone(),
                        args: clone_strings(&args),
                        working_directory: wd,
                        env: clone_env(&env),
                        timeout_ms,
                    },
                ),
                preview,
            )
        },
        PlanDestination::Ssh { target, working_directory } => {
            let preview = clone_opt(&working_directory);
            (
                RunExecutionBackend::Ssh(
                    SshRunExecution {
                        target,
                        platform,
                        request: SshCommandRequest {
                            executable: executable.clone(),
                            args: clone_strings(&args),
                            env: clone_env(&env),
                            working_directory,
                            timeout_ms,
                        },
                    },
                ),
                preview,
            )
        },
    };
    let confirmation_request = if decision == PolicyDecision::RequireConfirmation {
        Some(
            ConfirmationRequest {
                server: server_name.clone(),
                platform: string_from_str(platform.as_name()),
                command_line: command_line.clone(),
                executable,
                args,
                working_directory: preview,
                timeout_ms,
                env,
                contains_shell_operator,
            },
        )
    } else {
        None
    };
    Ok(
        PreparedExecution {
            run: RunExecution { command_line, server_name, backend },
            confirmation_request,
        },
    )
}

// ---------------------------------------------------------------------------
// Runner decisions
// ---------------------------------------------------------------------------

/// How long a killed process is given to exit, in milliseconds.
pub const TERMINATION_GRACE_PERIOD_MS: u64 = 5_000;

/// The first event of every execution.
pub fn start_event(server_name: &str, command_line: &str) -> (e: ExecutionEvent)
    ensures
        e matches ExecutionEvent::Status { state, message: Some(m) } && state
            == ExecutionState::Running && m@ == "Executing on "@ + server_name@ + ": "@
            + command_line@,
{
    let mut m = string_from_str("Executing on ");
    push_str(&mut m, server_name);
    push_str(&mut m, ": ");
    push_str(&mut m, command_line);
    ExecutionEvent::Status { state: ExecutionState::Running, message: Some(m) }
}

/// What the runner reports when the process could not be started.
pub fn spawn_failed(program: &str, error: &str) -> (r: (ExecutionState, Vec<ExecutionEvent>))
    ensures
        r.0 == ExecutionState::Failed,
        r.1@.len() == 2,
        r.1@[0] matches ExecutionEvent::Error { message } && message@ == "Failed to spawn '"@
            + program@ + "': "@ + error@,
        r.1@[1] matches ExecutionEvent::Status { state, message: Some(m) } && state
            == ExecutionState::Failed && m@ == "Execution failed before process start"@,
{
    let mut m = string_from_str("Failed to spawn '");
    push_str(&mut m, program);
    push_str(&mut m, "': ");
    push_str(&mut m, error);
    let mut events: Vec<ExecutionEvent> = Vec::new();
    events.push(ExecutionEvent::Error { message: m });
    events.push(
        ExecutionEvent::Status {
            state: ExecutionState::Failed,
            message: Some(string_from_str("Execution failed before process start")),
        },
    );
    (ExecutionState::Failed, events)
}

/// The event reported when the process outlives its timeout.
pub fn timeout_event(timeout_ms: u64) -> (e: ExecutionEvent)
    ensures
        e matches ExecutionEvent::Error { message } && message@ == "Process timed out after "@
            + decimal(timeout_ms as nat) + " ms"@,
{
    let mut m = string_from_str("Process timed out after ");
    push_decimal(&mut m, timeout_ms);
    push_str(&mut m, " ms");
    ExecutionEvent::Error { message: m }
}

/// The event reported when a killed process does not exit within the grace period.
pub fn grace_expired_event() -> (e: ExecutionEvent)
    ensures
        e matches ExecutionEvent::Error { message } && message@ == "Process did not exit within "@
            + decimal(TERMINATION_GRACE_PERIOD_MS as nat) + " ms after timeout"@,
{
    let mut m = string_from_str("Process did not exit within ");
    push_decimal(&mut m, TERMINATION_GRACE_PERIOD_MS);
    push_str(&mut m, " ms after timeout");
    ExecutionEvent::Error { message: m }
}

/// The event reported when reading a process's output fails; the error as
/// displayed.
pub fn output_read_failed_event(error: &str) -> (e: ExecutionEvent)
    ensures
        e matches ExecutionEvent::Error { message } && message@ == "Failed to read process output: "@
            + error@,
{
    let mut m = string_from_str("Failed to read process output: ");
    push_str(&mut m, error);
    ExecutionEvent::Error { message: m }
}

/// How waiting for a local process ended.
#[derive(Debug, Clone)]
pub enum WaitOutcome {
    /// It exited; whether its status was success, and its exit code if it has one.
    Exited { success: bool, code: Option<i32> },
    /// Waiting failed; the error as displayed.
    Failed(String),
    /// It was killed after its timeout and did not exit within the grace period.
    GraceExpired,
}

/// The final state and the closing events of a local execution.
pub fn host_finished(outcome: &WaitOutcome, timed_out: bool) -> (r: (ExecutionState, Vec<ExecutionEvent>))
    ensures
        match outcome {
            WaitOutcome::Exited { success, code } => {
                let ok = *success && !timed_out;
                let c: i32 = match code {
                    Some(c) => *c,
                    None => -1i32,
                };
                &&& r.0 == (if ok {
                    ExecutionState::Completed
                } else {
                    ExecutionState::Failed
                })
                &&& r.1@.len() == 2
                &&& r.1@[0] matches ExecutionEvent::Exit { code: ec, success: es, timed_out: et }
                    && ec == c && es == ok && et == timed_out
                &&& r.1@[1] matches ExecutionEvent::Status { state, message: Some(m) } && state
                    == r.0 && m@ == "Process finished with code "@ + signed_decimal(c as int)
            },
            WaitOutcome::Failed(err) => {
                &&& r.0 == ExecutionState::Failed
                &&& r.1@.len() == 2
                &&& r.1@[0] matches ExecutionEvent::Error { message } && message@
                    == "Failed while waiting for process: "@ + err@
                &&& r.1@[1] matches ExecutionEvent::Status { state, message: Some(m) } && state
                    == ExecutionState::Failed && m@ == "Execution failed while waiting for process"@
            },
            WaitOutcome::GraceExpired => {
                &&& r.0 == ExecutionState::Failed
                &&& r.1@.len() == 2
                &&& r.1@[0] matches ExecutionEvent::Error { message } && message@
                    == "Failed while waiting for process: process did not exit within "@ + decimal(
                    TERMINATION_GRACE_PERIOD_MS as nat,
                ) + " ms after kill"@
                &&& r.1@[1] matches ExecutionEvent::Status { state, message: Some(m) } && state
                    == ExecutionState::Failed && m@ == "Execution failed while waiting for process"@
            },
        },
{
    let mut events: Vec<ExecutionEvent> = Vec::new();
    match outcome {
        WaitOutcome::Exited { success, code } => {
            let ok = *success && !timed_out;
            let c: i32 = match code {
                Some(c) => *c,
                None => -1,
            };
            let state = if ok {
                ExecutionState::Completed
            } else {
                ExecutionState::Failed
            };
            events.push(ExecutionEvent::Exit { code: c, success: ok, timed_out });
            let mut m = string_from_str("Process finished with code ");
            push_signed(&mut m, c);
            events.push(ExecutionEvent::Status { state, message: Some(m) });
            (state, events)
        },
        WaitOutcome::Failed(err) => {
            let mut m = string_from_str("Failed while waiting for process: ");
            push_str(&mut m, err.as_str());
            events.push(ExecutionEvent::Error { message: m });
            events.push(
                ExecutionEvent::Status {
                    state: ExecutionState::Failed,
                    message: Some(string_from_str("Execution failed while waiting for process")),
                },
            );
            (ExecutionState::Failed, events)
        },
        WaitOutcome::GraceExpired => {
            let mut m = string_from_str(
                "Failed while waiting for process: process did not exit within ",
            );
            push_decimal(&mut m, TERMINATION_GRACE_PERIOD_MS);
            push_str(&mut m, " ms after kill");
            events.push(ExecutionEvent::Error { message: m });
            events.push(
                ExecutionEvent::Status {
                    state: ExecutionState::Failed,
                    message: Some(string_from_str("Execution failed while waiting for process")),
                },
            );
            (ExecutionState::Failed, events)
        },
    }
}

/// The decimal text of a signed number.
pub open spec fn signed_decimal(n: int) -> Seq<char> {
    if n < 0 {
        seq!['-'] + decimal((-n) as nat)
    } else {
        decimal(n as nat)
    }
}

/// Appends the decimal text of a signed number.
pub fn push_signed(out: &mut String, n: i32)
    ensures
        final(out)@ == old(out)@ + signed_decimal(n as int),
{
    if n < 0 {
        crate::text::push_char(out, '-');
        let magnitude: u64 = (0i64 - (n as i64)) as u64;
        push_decimal(out, magnitude);
        assert(final(out)@ =~= old(out)@ + signed_decimal(n as int));
    } else {
        push_decimal(out, n as u64);
    }
}

/// The final state and the closing events of a remote execution.
pub fn ssh_finished(result: &Result<SshCommandResult, SshError>) -> (r: (ExecutionState, Vec<
    ExecutionEvent,
>))
    ensures
        match result {
            Ok(res) => {
                &&& r.0 == (if res.success {
                    ExecutionState::Completed
                } else {
                    ExecutionState::Failed
                })
                &&& r.1@.len() == 2
                &&& r.1@[0] matches ExecutionEvent::Exit { code, success, timed_out } && code
                    == res.code && success == res.success && timed_out == res.timed_out
                &&& r.1@[1] matches ExecutionEvent::Status { state, message: Some(m) } && state
                    == r.0 && m@ == "Process finished with code "@ + signed_decimal(res.code as int)
            },
            Err(err) => {
                let timed_out = err is Timeout;
                &&& r.0 == ExecutionState::Failed
                &&& r.1@.len() == 3
                &&& r.1@[0] matches ExecutionEvent::Error { message } && message@
                    == err.message_spec()
                &&& r.1@[1] matches ExecutionEvent::Exit { code, success, timed_out: t } && code
                    == -1 && !success && t == timed_out
                &&& r.1@[2] matches ExecutionEvent::Status { state, message: Some(m) } && state
                    == ExecutionState::Failed && m@ == (if timed_out {
                    "Execution timed out while waiting for remote process"@
                } else {
                    "Execution failed while waiting for remote process"@
                })
            },
        },
{
    let mut events: Vec<ExecutionEvent> = Vec::new();
    match result {
        Ok(res) => {
            let state = if res.success {
                ExecutionState::Completed
            } else {
                ExecutionState::Failed
            };
            events.push(
                ExecutionEvent::Exit { code: res.code, success: res.success, timed_out: res.timed_out },
            );
            let mut m = string_from_str("Process finished with code ");
            push_signed(&mut m, res.code);
            events.push(ExecutionEvent::Status { state, message: Some(m) });
            (state, events)
        },
        Err(err) => {
            let timed_out = match err {
                SshError::Timeout(_) => true,
                _ => false,
            };
            events.push(ExecutionEvent::Error { message: err.message() });
            events.push(ExecutionEvent::Exit { code: -1, success: false, timed_out });
            let m = if timed_out {
                string_from_str("Execution timed out while waiting for remote process")
            } else {
                string_from_str("Execution failed while waiting for remote process")
            };
            events.push(ExecutionEvent::Status { state: ExecutionState::Failed, message: Some(m) });
            (ExecutionState::Failed, events)
        },
    }
}


/// `text` without its trailing line feeds and carriage returns.
pub open spec fn trim_line_breaks(text: Seq<char>) -> Seq<char>
    decreases text.len(),
{
    if text.len() > 0 && (text.last() == '\n' || text.last() == '\r') {
        trim_line_breaks(text.drop_last())
    } else {
        text
    }
}

/// The text of a boolean as Rust writes it.
pub open spec fn bool_text(b: bool) -> Seq<char> {
    if b {
        "true"@
    } else {
        "false"@
    }
}

/// The console log line for an event of the execution whose short id is
/// `short_id`, with its level; `None` for a status without a message.
pub open spec fn event_log_spec(short_id: Seq<char>, event: ExecutionEvent) -> Option<(crate::console_log::ConsoleLogLevel, Seq<char>)> {
    let tag = "["@ + short_id + "] "@;
    match event {
        ExecutionEvent::Status { message, .. } => match message {
            Some(m) => Some((crate::console_log::ConsoleLogLevel::Info, tag + m@)),
            None => None,
        },
        ExecutionEvent::Output { text } => Some(
            (crate::console_log::ConsoleLogLevel::Info, tag + "output | "@ + trim_line_breaks(text@)),
        ),
        ExecutionEvent::Exit { code, success, timed_out } => Some(
            (
                if success {
                    crate::console_log::ConsoleLogLevel::Info
                } else {
                    crate::console_log::ConsoleLogLevel::Warn
                },
                tag + "exit code="@ + signed_decimal(code as int) + " success="@ + bool_text(success)
                    + " timed_out="@ + bool_text(timed_out),
            ),
        ),
        ExecutionEvent::Error { message } => Some((crate::console_log::ConsoleLogLevel::Error, tag + message@)),
    }
}

fn push_bool(out: &mut String, b: bool)
    ensures
        final(out)@ == old(out)@ + bool_text(b),
{
    if b {
        push_str(out, "true");
    } else {
        push_str(out, "false");
    }
}

/// The console log line for an execution event, with its level.
pub fn event_log_line(short_id: &str, event: &ExecutionEvent) -> (r: Option<(crate::console_log::ConsoleLogLevel, String)>)
    ensures
        match event_log_spec(short_id@, *event) {
            Some((level, text)) => r matches Some((l, t)) && l == level && t@ == text,
            None => r is None,
        },
{
    let mut line = string_from_str("[");
    push_str(&mut line, short_id);
    push_str(&mut line, "] ");
    match event {
        ExecutionEvent::Status { message, .. } => match message {
            Some(m) => {
                push_str(&mut line, m.as_str());
                Some((crate::console_log::ConsoleLogLevel::Info, line))
            },
            None => None,
        },
        ExecutionEvent::Output { text } => {
            push_str(&mut line, "output | ");
            let chars = crate::text::chars_of(text.as_str());
            let mut n: usize = chars.len();
            assert(chars@.take(n as int) =~= chars@);
            while n > 0 && (chars[n - 1] == '\n' || chars[n - 1] == '\r')
                invariant
                    n <= chars@.len(),
                    trim_line_breaks(chars@.take(n as int)) == trim_line_breaks(chars@),
                decreases n,
            {
                assert(chars@.take(n as int).drop_last() =~= chars@.take(n - 1));
                n -= 1;
            }
            proof {
                if n == chars@.len() {
                    assert(chars@.take(n as int) =~= chars@);
                }
                assert(trim_line_breaks(chars@.take(n as int)) == chars@.take(n as int));
            }
            let kept = crate::text::slice_range(chars.as_slice(), 0, n);
            crate::text::push_chars(&mut line, kept.as_slice());
            Some((crate::console_log::ConsoleLogLevel::Info, line))
        },
        ExecutionEvent::Exit { code, success, timed_out } => {
            push_str(&mut line, "exit code=");
            push_signed(&mut line, *code);
            push_str(&mut line, " success=");
            push_bool(&mut line, *success);
            push_str(&mut line, " timed_out=");
            push_bool(&mut line, *timed_out);
            let level = if *success {
                crate::console_log::ConsoleLogLevel::Info
            } else {
                crate::console_log::ConsoleLogLevel::Warn
            };
            Some((level, line))
        },
        ExecutionEvent::Error { message } => {
            push_str(&mut line, message.as_str());
            Some((crate::console_log::ConsoleLogLevel::Error, line))
        },
    }
}

impl ExecutionService {
    /// No plan runs a command the policy denies, and every plan of a command
    /// that holds a shell operator waits for approval.
    pub proof fn lemma_plan_respects_policy(
        &self,
        command: Seq<char>,
        server: Option<Seq<char>>,
        working_directory: Option<Seq<char>>,
        env: Seq<(Seq<char>, Seq<char>)>,
        timeout_ms: Option<u64>,
    )
        ensures
            match parse_command_spec(command, self.host_platform().platform == RuntimePlatform::Windows) {
                Ok((program, args, shell_operator)) => {
                    &&& self.engine().decision_for_views(program, args, self.target_name(server)) == PolicyDecision::Deny ==> self.plan_spec(
                        command,
                        server,
                        working_directory,
                        env,
                        timeout_ms,
                    ) == Err::<PlanView, ExecErrorView>(ExecErrorView::Denied)
                    &&& self.plan_spec(command, server, working_directory, env, timeout_ms) matches Ok(p) ==> {
                        &&& p.decision != PolicyDecision::Deny
                        &&& p.decision == escalated_decision(self.engine().decision_for_views(program, args, self.target_name(server)), shell_operator)
                        &&& shell_operator ==> p.decision == PolicyDecision::RequireConfirmation
                    }
                },
                Err(_) => self.plan_spec(command, server, working_directory, env, timeout_ms) is Err,
            },
    {
    }
}
} // verus!
