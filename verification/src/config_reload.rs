//! Deciding when a changed configuration file is reloaded.
//!
//! The program watches the file and, on each change, takes its fingerprint;
//! this state decides whether to reload. A reload is all or nothing: the
//! console, the request authentication and the execution service are
//! prepared in turn, and only when the file and every one of them succeed are
//! their actions handed out, in that order, to be applied. A failure is
//! reported once per file content; coming back to the applied content clears
//! it.

use vstd::prelude::*;
use crate::auth::{
    auth_error_text, opt_string_view, opt_text_view, request_auth_spec, required_key,
    RequestAuthController, RequestAuthState,
};
use crate::config::{opt_view, AppConfig, LoggingConfig};
use crate::log_store::retention_change;
use crate::text::str_equal;

verus! {

/// What identifies a version of the configuration file: whether it exists and
/// a hash of its content.
#[derive(Debug, Clone, Copy, PartialEq, Eq, Structural)]
pub struct ConfigFileFingerprint {
    pub exists: bool,
    pub content_hash: Option<u64>,
}

impl ConfigFileFingerprint {
    /// The fingerprint of a missing file.
    pub fn missing() -> (f: Self)
        ensures
            !f.exists,
            f.content_hash is None,
    {
        ConfigFileFingerprint { exists: false, content_hash: None }
    }
}

/// Whether two logging settings are the same.
pub open spec fn same_logging(a: LoggingConfig, b: LoggingConfig) -> bool {
    &&& a.memory_buffer_lines == b.memory_buffer_lines
    &&& opt_view(a.file_path) == opt_view(b.file_path)
    &&& a.persist_file == b.persist_file
    &&& a.retention_days == b.retention_days
}

/// Whether two logging settings are the same.
pub fn logging_equal(a: &LoggingConfig, b: &LoggingConfig) -> (r: bool)
    ensures
        r == same_logging(*a, *b),
{
    let paths = match (&a.file_path, &b.file_path) {
        (Some(x), Some(y)) => str_equal(x.as_str(), y.as_str()),
        (None, None) => true,
        _ => false,
    };
    a.memory_buffer_lines == b.memory_buffer_lines && paths && a.persist_file == b.persist_file
        && a.retention_days == b.retention_days
}

/// What the reloader keeps between changes.
#[derive(Debug, Clone)]
pub struct ConfigReloadState {
    pub running_bind_address: String,
    pub applied_logging: LoggingConfig,
    pub last_applied_fingerprint: ConfigFileFingerprint,
    pub last_failed_fingerprint: Option<ConfigFileFingerprint>,
}

/// What to do after taking the file's fingerprint.
#[derive(Debug, Clone, Copy, PartialEq, Eq, Structural)]
pub enum ReloadStep {
    /// The fingerprint could not be taken; keep the configuration.
    KeepCurrent,
    /// The file is the applied version; nothing to do.
    Unchanged,
    /// The file changed; prepare a reload of this version.
    Prepare(ConfigFileFingerprint),
}

impl ConfigReloadState {
    /// The state at start-up: the configuration in force and the fingerprint
    /// of its file (`None` when it could not be taken, which counts as missing).
    pub fn new(
        bind_address: String,
        logging: LoggingConfig,
        fingerprint: Option<ConfigFileFingerprint>,
    ) -> (s: Self)
        ensures
            s.running_bind_address@ == bind_address@,
            s.applied_logging == logging,
            s.last_applied_fingerprint == match fingerprint {
                Some(f) => f,
                None => ConfigFileFingerprint { exists: false, content_hash: None },
            },
            s.last_failed_fingerprint is None,
    {
        let last_applied_fingerprint = match fingerprint {
            Some(f) => f,
            None => ConfigFileFingerprint::missing(),
        };
        ConfigReloadState {
            running_bind_address: bind_address,
            applied_logging: logging,
            last_applied_fingerprint,
            last_failed_fingerprint: None,
        }
    }

    /// Decides on a new fingerprint of the file (`Err` when it could not be
    /// taken): unchanged files clear a reported failure; changed ones are to
    /// be reloaded with `finish_reload`.
    pub fn reload_if_needed(&mut self, next: Result<ConfigFileFingerprint, String>) -> (step: ReloadStep)
        ensures
            match next {
                Err(_) => step == ReloadStep::KeepCurrent && final(self).last_failed_fingerprint
                    == old(self).last_failed_fingerprint,
                Ok(f) => if f == old(self).last_applied_fingerprint {
                    step == ReloadStep::Unchanged && final(self).last_failed_fingerprint is None
                } else {
                    step == ReloadStep::Prepare(f) && final(self).last_failed_fingerprint == old(
                        self,
                    ).last_failed_fingerprint
                },
            },
            final(self).last_applied_fingerprint == old(self).last_applied_fingerprint,
            final(self).applied_logging == old(self).applied_logging,
            final(self).running_bind_address == old(self).running_bind_address,
    {
        let f = match next {
            Err(_) => {
                return ReloadStep::KeepCurrent;
            },
            Ok(f) => f,
        };
        if f == self.last_applied_fingerprint {
            self.last_failed_fingerprint = None;
            return ReloadStep::Unchanged;
        }
        ReloadStep::Prepare(f)
    }

    /// Reloads version `fingerprint` of the file, all or nothing: `loaded` is
    /// the file read and checked (or why it could not be), `api_key_value`
    /// the value of the variable its access settings name. Every participant
    /// of `context` is prepared in order; if the file or any participant
    /// fails, nothing is to be applied and the failure is recorded (reported
    /// once per version). Otherwise the decision hands out every prepared
    /// action in participant order, and the new version is recorded as
    /// applied with its logging settings.
    pub fn finish_reload(
        &mut self,
        context: &ConfigReloadContext,
        fingerprint: ConfigFileFingerprint,
        loaded: Result<AppConfig, String>,
        api_key_value: Option<&str>,
    ) -> (decision: ReloadDecision)
        ensures
            match loaded {
                Err(e) => reload_kept(*old(self), *final(self), fingerprint, decision, e@),
                Ok(config) => match first_prepare_failure(
                    context.participants@,
                    config,
                    old(self).applied_logging,
                    opt_text_view(api_key_value),
                ) {
                    Some(message) => reload_kept(
                        *old(self),
                        *final(self),
                        fingerprint,
                        decision,
                        message,
                    ),
                    None => reload_applied(
                        *old(self),
                        *final(self),
                        fingerprint,
                        decision,
                        config,
                        prepared_action_views(
                            context.participants@,
                            config,
                            old(self).applied_logging,
                            opt_text_view(api_key_value),
                        ),
                    ),
                },
            },
            final(self).running_bind_address == old(self).running_bind_address,
    {
        let prepared = context.prepare_reload(fingerprint, loaded, &self.applied_logging, api_key_value);
        match prepared {
            Err(error) => {
                let report = match self.last_failed_fingerprint {
                    Some(f) => f != fingerprint,
                    None => true,
                };
                self.last_failed_fingerprint = Some(fingerprint);
                ReloadDecision::Keep { report, error }
            },
            Ok(mut prepared) => {
                let actions = prepared.apply_actions();
                self.applied_logging = copy_logging(&prepared.config.logging);
                self.last_applied_fingerprint = prepared.fingerprint;
                self.last_failed_fingerprint = None;
                let same = str_equal(
                    prepared.config.server.bind_address.as_str(),
                    self.running_bind_address.as_str(),
                );
                ReloadDecision::Apply { config: prepared.config, actions, restart_needed: !same }
            },
        }
    }
}

/// Whether a reload of version `f` applied nothing and recorded the failure
/// `message`: reported once per version, the applied version and logging
/// settings kept.
pub open spec fn reload_kept(
    before: ConfigReloadState,
    after: ConfigReloadState,
    f: ConfigFileFingerprint,
    decision: ReloadDecision,
    message: Seq<char>,
) -> bool {
    &&& decision matches ReloadDecision::Keep { report, error } && report == failure_step(
        before.last_failed_fingerprint,
        f,
    ).0 && error@ == message
    &&& after.last_failed_fingerprint == failure_step(before.last_failed_fingerprint, f).1
    &&& after.last_applied_fingerprint == before.last_applied_fingerprint
    &&& after.applied_logging == before.applied_logging
}

/// Whether a reload of version `f` from `config` hands out exactly the
/// `actions`, in order, and records the version and its logging settings as
/// applied; a restart is needed when the bind address changed.
pub open spec fn reload_applied(
    before: ConfigReloadState,
    after: ConfigReloadState,
    f: ConfigFileFingerprint,
    decision: ReloadDecision,
    config: AppConfig,
    actions: Seq<ReloadActionView>,
) -> bool {
    &&& decision matches ReloadDecision::Apply { config: c, actions: a, restart_needed } && c
        == config && action_views(a@) == actions && restart_needed == (
    config.server.bind_address@ != before.running_bind_address@)
    &&& after.last_applied_fingerprint == f
    &&& after.last_failed_fingerprint is None
    &&& after.applied_logging == config.logging
}

/// A copy of logging settings.
pub fn copy_logging(l: &LoggingConfig) -> (r: LoggingConfig)
    ensures
        r == *l,
{
    let file_path = match &l.file_path {
        Some(p) => Some(p.clone()),
        None => None,
    };
    LoggingConfig {
        memory_buffer_lines: l.memory_buffer_lines,
        file_path,
        persist_file: l.persist_file,
        retention_days: l.retention_days,
    }
}

/// A part of the server that takes up a reloaded configuration.
#[derive(Debug, Clone, Copy, PartialEq, Eq, Structural)]
pub enum ConfigReloadParticipant {
    /// The operator console, whose log archives are now kept this many days.
    Console { retention_days: u64 },
    /// The authentication of MCP requests.
    Auth,
    /// The service that runs commands.
    Execution,
}

/// What applying one prepared participant does.
#[derive(Debug, Clone)]
pub enum ReloadAction {
    /// Keep the console's log archives this many days.
    Logging { retention_days: u64 },
    /// Authenticate requests with these settings from now on.
    Auth(RequestAuthState),
    /// Run commands under the new configuration.
    Execution,
}

/// A reload action, its authentication settings taken as the key they ask for.
pub enum ReloadActionView {
    Logging(u64),
    Auth(Option<Seq<u8>>),
    Execution,
}

impl ReloadAction {
    /// The action by view.
    pub open spec fn action_view(&self) -> ReloadActionView {
        match self {
            ReloadAction::Logging { retention_days } => ReloadActionView::Logging(*retention_days),
            ReloadAction::Auth(state) => ReloadActionView::Auth(required_key(*state)),
            ReloadAction::Execution => ReloadActionView::Execution,
        }
    }
}

/// Actions by view.
pub open spec fn action_views(actions: Seq<ReloadAction>) -> Seq<ReloadActionView> {
    actions.map_values(|a: ReloadAction| a.action_view())
}

/// What preparing participant `p` for `config` gives, with `applied` the
/// logging settings in force and `key` the value of the variable the access
/// settings name: an action, nothing to do, or the failure's message. The
/// console has something to do only when the logging settings changed and
/// with them the retention of its archives; authentication fails when its
/// key cannot be set up; the execution service always takes the new
/// configuration.
pub open spec fn participant_step(
    p: ConfigReloadParticipant,
    config: AppConfig,
    applied: LoggingConfig,
    key: Option<Seq<char>>,
) -> Result<Option<ReloadActionView>, Seq<char>> {
    match p {
        ConfigReloadParticipant::Console { retention_days } => Ok(
            if same_logging(config.logging, applied) || retention_days
                == config.logging.retention_days {
                None
            } else {
                Some(ReloadActionView::Logging(config.logging.retention_days))
            },
        ),
        ConfigReloadParticipant::Auth => match request_auth_spec(
            opt_string_view(config.server.access.api_key_env),
            key,
        ) {
            Ok(k) => Ok(Some(ReloadActionView::Auth(k))),
            Err(e) => Err(auth_error_text(e)),
        },
        ConfigReloadParticipant::Execution => Ok(Some(ReloadActionView::Execution)),
    }
}

/// The message of the first participant whose preparation fails, if any.
pub open spec fn first_prepare_failure(
    participants: Seq<ConfigReloadParticipant>,
    config: AppConfig,
    applied: LoggingConfig,
    key: Option<Seq<char>>,
) -> Option<Seq<char>>
    decreases participants.len(),
{
    if participants.len() == 0 {
        None
    } else {
        match first_prepare_failure(participants.drop_last(), config, applied, key) {
            Some(message) => Some(message),
            None => match participant_step(participants.last(), config, applied, key) {
                Err(message) => Some(message),
                Ok(_) => None,
            },
        }
    }
}

/// The actions the participants' preparations give, in participant order.
pub open spec fn prepared_action_views(
    participants: Seq<ConfigReloadParticipant>,
    config: AppConfig,
    applied: LoggingConfig,
    key: Option<Seq<char>>,
) -> Seq<ReloadActionView>
    decreases participants.len(),
{
    if participants.len() == 0 {
        Seq::empty()
    } else {
        let earlier = prepared_action_views(participants.drop_last(), config, applied, key);
        match participant_step(participants.last(), config, applied, key) {
            Ok(Some(action)) => earlier.push(action),
            _ => earlier,
        }
    }
}

/// Once some participant of a prefix fails, the first failure of the whole
/// sequence is that one.
proof fn lemma_first_failure_extends(
    participants: Seq<ConfigReloadParticipant>,
    n: int,
    config: AppConfig,
    applied: LoggingConfig,
    key: Option<Seq<char>>,
)
    requires
        0 <= n <= participants.len(),
        first_prepare_failure(participants.take(n), config, applied, key) is Some,
    ensures
        first_prepare_failure(participants, config, applied, key) == first_prepare_failure(
            participants.take(n),
            config,
            applied,
            key,
        ),
    decreases participants.len(),
{
    if n == participants.len() {
        assert(participants.take(n) =~= participants);
    } else {
        assert(participants.drop_last().take(n) =~= participants.take(n));
        lemma_first_failure_extends(participants.drop_last(), n, config, applied, key);
    }
}

/// The participants the server reloads, in order: the console, then the
/// request authentication, then the execution service.
pub open spec fn server_participants(console_retention_days: u64) -> Seq<ConfigReloadParticipant> {
    seq![
        ConfigReloadParticipant::Console { retention_days: console_retention_days },
        ConfigReloadParticipant::Auth,
        ConfigReloadParticipant::Execution,
    ]
}

/// With the server's participants, a loaded configuration is refused exactly
/// when its access settings' key cannot be set up; otherwise the reload
/// applies the console's new retention (when the logging settings and with
/// them the retention changed), then the new authentication, then the new
/// configuration for running commands.
pub proof fn lemma_server_reload(
    console_retention_days: u64,
    config: AppConfig,
    applied: LoggingConfig,
    key: Option<Seq<char>>,
)
    ensures
        ({
            let ps = server_participants(console_retention_days);
            let auth = request_auth_spec(opt_string_view(config.server.access.api_key_env), key);
            let console: Seq<ReloadActionView> = if same_logging(config.logging, applied)
                || console_retention_days == config.logging.retention_days {
                Seq::empty()
            } else {
                seq![ReloadActionView::Logging(config.logging.retention_days)]
            };
            &&& first_prepare_failure(ps, config, applied, key) == match auth {
                Err(e) => Some(auth_error_text(e)),
                Ok(_) => None::<Seq<char>>,
            }
            &&& auth matches Ok(k) ==> prepared_action_views(ps, config, applied, key) == console
                + seq![ReloadActionView::Auth(k), ReloadActionView::Execution]
        }),
{
    let ps = server_participants(console_retention_days);
    let two = seq![
        ConfigReloadParticipant::Console { retention_days: console_retention_days },
        ConfigReloadParticipant::Auth,
    ];
    let one = seq![ConfigReloadParticipant::Console { retention_days: console_retention_days }];
    assert(ps.drop_last() =~= two);
    assert(two.drop_last() =~= one);
    assert(one.drop_last() =~= Seq::<ConfigReloadParticipant>::empty());
    assert(one.last() == ConfigReloadParticipant::Console { retention_days: console_retention_days });
    assert(two.last() == ConfigReloadParticipant::Auth);
    assert(ps.last() == ConfigReloadParticipant::Execution);
    let auth = request_auth_spec(opt_string_view(config.server.access.api_key_env), key);
    assert(first_prepare_failure(Seq::empty(), config, applied, key) is None);
    assert(first_prepare_failure(one, config, applied, key) is None);
    assert(first_prepare_failure(two, config, applied, key) == match auth {
        Err(e) => Some(auth_error_text(e)),
        Ok(_) => None::<Seq<char>>,
    });
    if auth is Ok {
        let k = auth->Ok_0;
        let console: Seq<ReloadActionView> = if same_logging(config.logging, applied)
            || console_retention_days == config.logging.retention_days {
            Seq::empty()
        } else {
            seq![ReloadActionView::Logging(config.logging.retention_days)]
        };
        assert(prepared_action_views(Seq::empty(), config, applied, key) =~= Seq::empty());
        assert(prepared_action_views(one, config, applied, key) =~= console);
        assert(prepared_action_views(two, config, applied, key) =~= console.push(
            ReloadActionView::Auth(k),
        ));
        assert(prepared_action_views(ps, config, applied, key) =~= console + seq![
            ReloadActionView::Auth(k),
            ReloadActionView::Execution,
        ]);
    }
}

impl ConfigReloadParticipant {
    /// Prepares this participant for `config`: `applied_logging` is the
    /// logging in force, `api_key_value` the value of the variable the new
    /// access settings name.
    pub fn prepare(
        &self,
        config: &AppConfig,
        applied_logging: &LoggingConfig,
        api_key_value: Option<&str>,
    ) -> (r: Result<Option<ReloadAction>, String>)
        ensures
            step_view(r) == participant_step(
                *self,
                *config,
                *applied_logging,
                opt_text_view(api_key_value),
            ),
    {
        match self {
            ConfigReloadParticipant::Console { retention_days } => {
                if logging_equal(&config.logging, applied_logging) {
                    return Ok(None);
                }
                match retention_change(*retention_days, config.logging.retention_days) {
                    Some(days) => Ok(Some(ReloadAction::Logging { retention_days: days })),
                    None => Ok(None),
                }
            },
            ConfigReloadParticipant::Auth => {
                match RequestAuthController::prepare(&config.server.access, api_key_value) {
                    Ok(state) => Ok(Some(ReloadAction::Auth(state))),
                    Err(e) => Err(e.message()),
                }
            },
            ConfigReloadParticipant::Execution => Ok(Some(ReloadAction::Execution)),
        }
    }
}

/// A participant's preparation by view.
pub open spec fn step_view(r: Result<Option<ReloadAction>, String>) -> Result<
    Option<ReloadActionView>,
    Seq<char>,
> {
    match r {
        Ok(Some(a)) => Ok(Some(a.action_view())),
        Ok(None) => Ok(None),
        Err(e) => Err(e@),
    }
}

/// The participants of a reload, in the order they are prepared and applied.
#[derive(Debug, Clone)]
pub struct ConfigReloadContext {
    pub participants: Vec<ConfigReloadParticipant>,
}

impl ConfigReloadContext {
    /// A context with these participants.
    pub fn new(participants: Vec<ConfigReloadParticipant>) -> (c: Self)
        ensures
            c.participants@ == participants@,
    {
        ConfigReloadContext { participants }
    }

    /// The server's participants: the console, whose log archives are now
    /// kept `console_retention_days` days, then the request authentication,
    /// then the execution service.
    pub fn for_server(console_retention_days: u64) -> (c: Self)
        ensures
            c.participants@ == server_participants(console_retention_days),
    {
        let participants = vec![
            ConfigReloadParticipant::Console { retention_days: console_retention_days },
            ConfigReloadParticipant::Auth,
            ConfigReloadParticipant::Execution,
        ];
        assert(participants@ =~= server_participants(console_retention_days));
        ConfigReloadContext { participants }
    }

    /// Prepares every participant for version `fingerprint` of the file.
    pub fn prepare_reload(
        &self,
        fingerprint: ConfigFileFingerprint,
        loaded: Result<AppConfig, String>,
        applied_logging: &LoggingConfig,
        api_key_value: Option<&str>,
    ) -> (r: Result<PreparedReload, String>)
        ensures
            prepared_matches(
                r,
                self.participants@,
                fingerprint,
                loaded,
                *applied_logging,
                opt_text_view(api_key_value),
            ),
    {
        PreparedReload::prepare(fingerprint, loaded, applied_logging, api_key_value, &self.participants)
    }
}

/// A reload whose participants are all prepared: the new configuration, its
/// version, and the actions still to apply, in participant order.
#[derive(Debug, Clone)]
pub struct PreparedReload {
    pub config: AppConfig,
    pub fingerprint: ConfigFileFingerprint,
    pub prepared_actions: Vec<ReloadAction>,
}

/// Whether `r` is what preparing `participants` gives: the first failure,
/// the file's before any participant's, or every action in order.
pub open spec fn prepared_matches(
    r: Result<PreparedReload, String>,
    participants: Seq<ConfigReloadParticipant>,
    fingerprint: ConfigFileFingerprint,
    loaded: Result<AppConfig, String>,
    applied: LoggingConfig,
    key: Option<Seq<char>>,
) -> bool {
    match loaded {
        Err(e) => r matches Err(m) && m@ == e@,
        Ok(config) => match first_prepare_failure(participants, config, applied, key) {
            Some(message) => r matches Err(m) && m@ == message,
            None => r matches Ok(p) && p.config == config && p.fingerprint == fingerprint
                && action_views(p.prepared_actions@) == prepared_action_views(
                participants,
                config,
                applied,
                key,
            ),
        },
    }
}

impl PreparedReload {
    /// Loads version `fingerprint` of the file and prepares each participant
    /// in order, stopping at the first that fails.
    pub fn prepare(
        fingerprint: ConfigFileFingerprint,
        loaded: Result<AppConfig, String>,
        applied_logging: &LoggingConfig,
        api_key_value: Option<&str>,
        participants: &Vec<ConfigReloadParticipant>,
    ) -> (r: Result<Self, String>)
        ensures
            prepared_matches(
                r,
                participants@,
                fingerprint,
                loaded,
                *applied_logging,
                opt_text_view(api_key_value),
            ),
    {
        let config = match loaded {
            Err(e) => {
                return Err(e);
            },
            Ok(c) => c,
        };
        let ghost key = opt_text_view(api_key_value);
        let ghost ps = participants@;
        let mut prepared_actions: Vec<ReloadAction> = Vec::new();
        let mut i: usize = 0;
        while i < participants.len()
            invariant
                i <= ps.len(),
                ps == participants@,
                loaded == Ok::<AppConfig, String>(config),
                key == opt_text_view(api_key_value),
                first_prepare_failure(ps.take(i as int), config, *applied_logging, key) is None,
                action_views(prepared_actions@) == prepared_action_views(
                    ps.take(i as int),
                    config,
                    *applied_logging,
                    key,
                ),
            decreases ps.len() - i,
        {
            let step = participants[i].prepare(&config, applied_logging, api_key_value);
            proof {
                assert(ps.take(i + 1).drop_last() =~= ps.take(i as int));
                assert(ps.take(i + 1).last() == ps[i as int]);
            }
            match step {
                Err(e) => {
                    proof {
                        assert(participant_step(ps[i as int], config, *applied_logging, key) == Err::<
                            Option<ReloadActionView>,
                            Seq<char>,
                        >(e@));
                        assert(first_prepare_failure(ps.take(i + 1), config, *applied_logging, key)
                            == Some(e@));
                        lemma_first_failure_extends(ps, i + 1, config, *applied_logging, key);
                    }
                    return Err(e);
                },
                Ok(Some(action)) => {
                    let ghost before = prepared_actions@;
                    prepared_actions.push(action);
                    proof {
                        assert(action_views(prepared_actions@) =~= action_views(before).push(
                            action.action_view(),
                        ));
                    }
                },
                Ok(None) => {},
            }
            i += 1;
        }
        proof {
            assert(ps.take(i as int) =~= ps);
        }
        Ok(PreparedReload { config, fingerprint, prepared_actions })
    }

    /// Hands out the prepared actions, in participant order, for applying;
    /// none is left to apply a second time.
    pub fn apply_actions(&mut self) -> (actions: Vec<ReloadAction>)
        ensures
            actions@ == old(self).prepared_actions@,
            final(self).prepared_actions@.len() == 0,
            final(self).config == old(self).config,
            final(self).fingerprint == old(self).fingerprint,
    {
        let mut actions: Vec<ReloadAction> = Vec::new();
        std::mem::swap(&mut actions, &mut self.prepared_actions);
        actions
    }
}

/// What a reload decided.
#[derive(Debug)]
pub enum ReloadDecision {
    /// Apply these actions in this order, from this configuration; a restart
    /// is needed when its bind address differs from the running one.
    Apply { config: AppConfig, actions: Vec<ReloadAction>, restart_needed: bool },
    /// Apply nothing; report `error` when `report`.
    Keep { report: bool, error: String },
}

/// After a failed reload of version `f`: whether to report it, and the
/// version remembered as failed.
pub open spec fn failure_step(last_failed: Option<ConfigFileFingerprint>, f: ConfigFileFingerprint) -> (
    bool,
    Option<ConfigFileFingerprint>,
) {
    (last_failed != Some(f), Some(f))
}

/// A failure is reported once per version of the file: failing again on the
/// same version is not reported, whatever was remembered before.
pub proof fn lemma_failure_reported_once(
    last_failed: Option<ConfigFileFingerprint>,
    f: ConfigFileFingerprint,
)
    ensures
        !failure_step(failure_step(last_failed, f).1, f).0,
{
}

/// A failure on a version other than the remembered one is reported.
pub proof fn lemma_new_failure_reported(
    last_failed: Option<ConfigFileFingerprint>,
    f: ConfigFileFingerprint,
)
    requires
        last_failed != Some(f),
    ensures
        failure_step(last_failed, f).0,
{
}

} // verus!
