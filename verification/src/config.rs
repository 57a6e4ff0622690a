//! The configuration model, its defaults and the rules a configuration must
//! satisfy before the server uses it.

use crate::platform::TargetPlatform;
use crate::text::{decimal, is_blank, push_decimal, push_str, str_equal, trim_seq};
use vstd::prelude::*;

verus! {

/// What happens to a command that a policy matches.
#[derive(Debug, Clone, Copy, PartialEq, Eq, Structural)]
pub enum PolicyAction {
    Allow,
    Confirm,
    Deny,
}

/// A platform that a path-mapping rule is limited to.
#[derive(Debug, Clone, Copy, PartialEq, Eq, Structural)]
pub enum Platform {
    Windows,
    Linux,
    Macos,
    Wsl,
}

/// How the server authenticates to an SSH target.
#[derive(Debug, Clone, Copy, PartialEq, Eq, Structural)]
pub enum SshAuthType {
    Agent,
    IdentityFile,
    PasswordEnv,
    PasswordFile,
}

/// The authentication method of an SSH target and its reference (a key
/// file, an environment variable or a password file).
#[derive(Debug, Clone)]
pub struct SshAuthConfig {
    pub kind: SshAuthType,
    pub reference: Option<String>,
}

impl Default for SshAuthConfig {
    fn default() -> (r: Self)
        ensures
            r.kind == SshAuthType::Agent,
            r.reference is None,
    {
        SshAuthConfig { kind: SshAuthType::Agent, reference: None }
    }
}

/// The top-level configuration.
#[derive(Debug, Clone)]
pub struct AppConfig {
    pub server: ServerConfig,
    pub execution: ExecutionConfig,
    pub logging: LoggingConfig,
    pub history: HistoryConfig,
    pub data_dir: Option<String>,
    pub tui: bool,
    pub web: bool,
}

/// The HTTP listener settings.
#[derive(Debug, Clone)]
pub struct ServerConfig {
    pub bind_address: String,
    pub access: AccessConfig,
}

/// Who may call the protected endpoints.
#[derive(Debug, Clone)]
pub struct AccessConfig {
    pub api_key_env: Option<String>,
}

/// Runtime log settings.
#[derive(Debug, Clone)]
pub struct LoggingConfig {
    pub memory_buffer_lines: usize,
    pub file_path: Option<String>,
    pub persist_file: bool,
    pub retention_days: u64,
}

/// Execution history retention.
#[derive(Debug, Clone)]
pub struct HistoryConfig {
    pub retention_days: u64,
    pub max_records: usize,
}

/// Command execution settings.
#[derive(Debug, Clone)]
pub struct ExecutionConfig {
    pub default_action: PolicyAction,
    pub commands: Vec<CommandPolicyConfig>,
    pub default_working_directory: Option<String>,
    pub default_server: String,
    pub servers: Vec<ExecutionServerConfig>,
    pub path_mappings: Vec<PathMappingRule>,
    pub target_platform: TargetPlatform,
    pub enable_builtin_wsl_mapping: bool,
    pub default_timeout_ms: u64,
    pub max_timeout_ms: u64,
}

/// An execution target besides the implicit local host.
#[derive(Debug, Clone)]
pub enum ExecutionServerConfig {
    Host {
        name: String,
        target_platform: TargetPlatform,
        enable_builtin_wsl_mapping: bool,
        path_mappings: Vec<PathMappingRule>,
    },
    Ssh {
        name: String,
        host: String,
        port: u16,
        user: Option<String>,
        target_platform: TargetPlatform,
        enable_builtin_wsl_mapping: bool,
        path_mappings: Vec<PathMappingRule>,
        identity_file: Option<String>,
        known_hosts_file: Option<String>,
        auth: SshAuthConfig,
        verify_host_key: bool,
        connection_idle_timeout_ms: u64,
    },
}

/// The policy for one command, with more specific rules selected by an
/// argument prefix.
#[derive(Debug, Clone)]
pub struct CommandPolicyConfig {
    pub command: String,
    pub action: PolicyAction,
    pub targets: Vec<String>,
    pub default_working_directory: Option<String>,
    pub rules: Vec<CommandRuleConfig>,
}

/// A rule inside a command policy.
#[derive(Debug, Clone)]
pub struct CommandRuleConfig {
    pub args_prefix: Vec<String>,
    pub action: PolicyAction,
    pub default_working_directory: Option<String>,
}

/// Rewrites paths that start with `from` so that they start with `to`.
#[derive(Debug, Clone)]
pub struct PathMappingRule {
    pub from: String,
    pub to: String,
    pub platforms: Vec<Platform>,
}

/// Why a configuration could not be used.
#[derive(Debug, Clone)]
pub enum ConfigError {
    Read { path: String, message: String },
    Parse { path: String, message: String },
    Validation(String),
}

/// The name of the implicit local target.
pub const DEFAULT_EXECUTION_SERVER: &'static str = "host";

/// The default SSH port.
pub const DEFAULT_SSH_PORT: u16 = 22;

impl ConfigError {
    /// The human-readable description of the error.
    pub open spec fn message_spec(&self) -> Seq<char> {
        match self {
            ConfigError::Read { path, message } => "failed to read config file '"@ + path@ + "': "@
                + message@,
            ConfigError::Parse { path, message } => "failed to parse config file '"@ + path@
                + "': "@ + message@,
            ConfigError::Validation(m) => "invalid config: "@ + m@,
        }
    }

    /// The human-readable description of the error.
    pub fn message(&self) -> (s: String)
        ensures
            s@ == self.message_spec(),
    {
        let mut s = String::new();
        match self {
            ConfigError::Read { path, message } => {
                push_str(&mut s, "failed to read config file '");
                push_str(&mut s, path.as_str());
                push_str(&mut s, "': ");
                push_str(&mut s, message.as_str());
                assert(s@ =~= "failed to read config file '"@ + path@ + "': "@ + message@);
            },
            ConfigError::Parse { path, message } => {
                push_str(&mut s, "failed to parse config file '");
                push_str(&mut s, path.as_str());
                push_str(&mut s, "': ");
                push_str(&mut s, message.as_str());
                assert(s@ =~= "failed to parse config file '"@ + path@ + "': "@ + message@);
            },
            ConfigError::Validation(m) => {
                push_str(&mut s, "invalid config: ");
                push_str(&mut s, m.as_str());
                assert(s@ =~= "invalid config: "@ + m@);
            },
        }
        s
    }
}

impl AccessConfig {
    /// Field-wise equality.
    pub fn same_as(&self, other: &AccessConfig) -> (b: bool)
        ensures
            b == (opt_view(self.api_key_env) == opt_view(other.api_key_env)),
    {
        match (&self.api_key_env, &other.api_key_env) {
            (None, None) => true,
            (Some(a), Some(b)) => str_equal(a.as_str(), b.as_str()),
            _ => false,
        }
    }
}

impl PartialEq for AccessConfig {
    fn eq(&self, other: &AccessConfig) -> (b: bool) {
        self.same_as(other)
    }
}

impl vstd::std_specs::cmp::PartialEqSpecImpl for AccessConfig {
    open spec fn obeys_eq_spec() -> bool {
        true
    }

    open spec fn eq_spec(&self, other: &AccessConfig) -> bool {
        opt_view(self.api_key_env) == opt_view(other.api_key_env)
    }
}

/// The view of an optional string.
pub open spec fn opt_view(v: Option<String>) -> Option<Seq<char>> {
    match v {
        Some(s) => Some(s@),
        None => None,
    }
}

impl Default for AccessConfig {
    fn default() -> (r: Self)
        ensures
            r.api_key_env is None,
    {
        AccessConfig { api_key_env: None }
    }
}

impl Default for ServerConfig {
    fn default() -> (r: Self)
        ensures
            r.bind_address@ == "127.0.0.1:8787"@,
            r.access.api_key_env is None,
    {
        ServerConfig { bind_address: crate::text::string_from_str("127.0.0.1:8787"), access: AccessConfig::default() }
    }
}

impl Default for LoggingConfig {
    fn default() -> (r: Self)
        ensures
            r.memory_buffer_lines == 2000,
            r.file_path is None,
            !r.persist_file,
            r.retention_days == 30,
    {
        LoggingConfig { memory_buffer_lines: 2000, file_path: None, persist_file: false, retention_days: 30 }
    }
}

impl Default for HistoryConfig {
    fn default() -> (r: Self)
        ensures
            r.retention_days == 30,
            r.max_records == 1000,
    {
        HistoryConfig { retention_days: 30, max_records: 1000 }
    }
}

impl Default for ExecutionConfig {
    fn default() -> (r: Self)
        ensures
            r.default_action == PolicyAction::Confirm,
            r.commands@.len() == 0,
            r.default_working_directory is None,
            r.default_server@ == DEFAULT_EXECUTION_SERVER@,
            r.servers@.len() == 0,
            r.path_mappings@.len() == 0,
            r.target_platform == TargetPlatform::Auto,
            r.enable_builtin_wsl_mapping,
            r.default_timeout_ms == 1_800_000,
            r.max_timeout_ms == 7_200_000,
    {
        ExecutionConfig {
            default_action: PolicyAction::Confirm,
            commands: Vec::new(),
            default_working_directory: None,
            default_server: crate::text::string_from_str(DEFAULT_EXECUTION_SERVER),
            servers: Vec::new(),
            path_mappings: Vec::new(),
            target_platform: TargetPlatform::Auto,
            enable_builtin_wsl_mapping: true,
            default_timeout_ms: 30 * 60 * 1000,
            max_timeout_ms: 2 * 60 * 60 * 1000,
        }
    }
}

impl Default for PathMappingRule {
    fn default() -> (r: Self)
        ensures
            r.from@.len() == 0,
            r.to@.len() == 0,
            r.platforms@.len() == 0,
    {
        PathMappingRule { from: String::new(), to: String::new(), platforms: Vec::new() }
    }
}

/// Whether `r` holds the built-in settings used when there is no file.
pub open spec fn is_default_config(r: AppConfig) -> bool {
    &&& r.server.bind_address@ == "127.0.0.1:8787"@
    &&& r.server.access.api_key_env is None
    &&& r.execution.default_action == PolicyAction::Confirm
    &&& r.execution.commands@.len() == 0
    &&& r.execution.default_working_directory is None
    &&& r.execution.default_server@ == DEFAULT_EXECUTION_SERVER@
    &&& r.execution.servers@.len() == 0
    &&& r.execution.path_mappings@.len() == 0
    &&& r.execution.target_platform == TargetPlatform::Auto
    &&& r.execution.enable_builtin_wsl_mapping
    &&& r.execution.default_timeout_ms == 1_800_000
    &&& r.execution.max_timeout_ms == 7_200_000
    &&& r.logging.memory_buffer_lines == 2000
    &&& r.logging.file_path is None
    &&& !r.logging.persist_file
    &&& r.logging.retention_days == 30
    &&& r.history.retention_days == 30
    &&& r.history.max_records == 1000
    &&& r.data_dir is None
    &&& r.tui
    &&& r.web
}

impl Default for AppConfig {
    fn default() -> (r: Self)
        ensures
            is_default_config(r),
    {
        AppConfig {
            server: ServerConfig::default(),
            execution: ExecutionConfig::default(),
            logging: LoggingConfig::default(),
            history: HistoryConfig::default(),
            data_dir: None,
            tui: true,
            web: true,
        }
    }
}

/// The name of a configured server.
pub open spec fn server_name(s: ExecutionServerConfig) -> Seq<char> {
    match s {
        ExecutionServerConfig::Host { name, .. } => name@,
        ExecutionServerConfig::Ssh { name, .. } => name@,
    }
}

impl ExecutionServerConfig {
    /// The target's name.
    pub fn name(&self) -> (s: &str)
        ensures
            s@ == server_name(*self),
    {
        match self {
            ExecutionServerConfig::Host { name, .. } => name.as_str(),
            ExecutionServerConfig::Ssh { name, .. } => name.as_str(),
        }
    }
}

/// The value that an omitted `enable-builtin-wsl-mapping` of a host server takes.
pub fn default_true() -> (b: bool)
    ensures
        b,
{
    true
}

/// The port that an omitted SSH `port` takes.
pub fn default_ssh_port() -> (p: u16)
    ensures
        p == DEFAULT_SSH_PORT,
{
    DEFAULT_SSH_PORT
}

// ---------------------------------------------------------------------------
// Validation rules
// ---------------------------------------------------------------------------

/// Whether `s` is empty once white space is trimmed.
pub open spec fn blank(s: Seq<char>) -> bool {
    trim_seq(s).len() == 0
}

/// Whether an optional value is present but blank.
pub open spec fn opt_blank(v: Option<String>) -> bool {
    match v {
        Some(s) => blank(s@),
        None => false,
    }
}

/// The first of two possible errors.
pub open spec fn first_error(a: Option<Seq<char>>, b: Option<Seq<char>>) -> Option<Seq<char>> {
    if a is Some {
        a
    } else {
        b
    }
}

/// `prefix` followed by the decimal index and `suffix`.
pub open spec fn indexed(prefix: Seq<char>, i: nat, suffix: Seq<char>) -> Seq<char> {
    prefix + decimal(i) + suffix
}

/// The error for an optional value that is present but blank.
pub open spec fn optional_value_error(v: Option<String>, location: Seq<char>) -> Option<Seq<char>> {
    if opt_blank(v) {
        Some(location + " cannot be empty when provided"@)
    } else {
        None
    }
}

/// The error of the first path-mapping rule (from index `k` on) with a blank side.
pub open spec fn path_mappings_error(rules: Seq<PathMappingRule>, location: Seq<char>, k: int) -> Option<
    Seq<char>,
>
    decreases rules.len() - k,
{
    if 0 <= k < rules.len() {
        if blank(rules[k].from@) || blank(rules[k].to@) {
            Some(indexed(location + "["@, k as nat, "] entries require non-empty from/to"@))
        } else {
            path_mappings_error(rules, location, k + 1)
        }
    } else {
        None
    }
}

/// The location prefix of rule `r` of command `i`.
pub open spec fn rule_location(i: nat, r: nat) -> Seq<char> {
    indexed("execution.commands["@, i, "].rules["@) + decimal(r)
}

/// The error of the first blank token (from index `t` on) of an argument prefix.
pub open spec fn args_prefix_error(tokens: Seq<String>, i: nat, r: nat, t: int) -> Option<Seq<char>>
    decreases tokens.len() - t,
{
    if 0 <= t < tokens.len() {
        if blank(tokens[t]@) {
            Some(indexed(rule_location(i, r) + "].args-prefix["@, t as nat, "] cannot be empty"@))
        } else {
            args_prefix_error(tokens, i, r, t + 1)
        }
    } else {
        None
    }
}

/// The error of rule `r` of command `i`.
pub open spec fn rule_error(rule: CommandRuleConfig, i: nat, r: nat) -> Option<Seq<char>> {
    if rule.args_prefix@.len() == 0 {
        Some(rule_location(i, r) + "].args-prefix must contain at least one token"@)
    } else {
        first_error(
            args_prefix_error(rule.args_prefix@, i, r, 0),
            optional_value_error(
                rule.default_working_directory,
                rule_location(i, r) + "].default-working-directory"@,
            ),
        )
    }
}

/// The error of the first invalid rule (from index `r` on) of command `i`.
pub open spec fn rules_error(rules: Seq<CommandRuleConfig>, i: nat, r: int) -> Option<Seq<char>>
    decreases rules.len() - r,
{
    if 0 <= r < rules.len() {
        first_error(rule_error(rules[r], i, r as nat), rules_error(rules, i, r + 1))
    } else {
        None
    }
}

/// The error of command policy `i`.
pub open spec fn command_error(command: CommandPolicyConfig, i: nat) -> Option<Seq<char>> {
    if blank(command.command@) {
        Some(indexed("execution.commands["@, i, "].command cannot be empty"@))
    } else {
        first_error(
            optional_value_error(
                command.default_working_directory,
                indexed("execution.commands["@, i, "].default-working-directory"@),
            ),
            rules_error(command.rules@, i, 0),
        )
    }
}

/// The error of the first invalid command policy from index `i` on.
pub open spec fn commands_error(commands: Seq<CommandPolicyConfig>, i: int) -> Option<Seq<char>>
    decreases commands.len() - i,
{
    if 0 <= i < commands.len() {
        first_error(command_error(commands[i], i as nat), commands_error(commands, i + 1))
    } else {
        None
    }
}

/// Whether a server before index `i` has the given name.
pub open spec fn name_taken_before(servers: Seq<ExecutionServerConfig>, i: int, name: Seq<char>) -> bool {
    exists|k: int| 0 <= k < i && #[trigger] server_name(servers[k]) == name
}

/// The location prefix of server `i`.
pub open spec fn server_location(i: nat) -> Seq<char> {
    "execution.servers["@ + decimal(i) + "]"@
}

/// The error of the authentication settings of SSH server `i`.
pub open spec fn ssh_auth_error(auth: SshAuthConfig, i: nat) -> Option<Seq<char>> {
    if auth.kind == SshAuthType::Agent {
        if auth.reference is Some {
            Some(server_location(i) + ".auth.ref must be omitted when auth.type is agent"@)
        } else {
            None
        }
    } else {
        match auth.reference {
            None => Some(
                server_location(i) + ".auth.ref is required when auth.type is not agent"@,
            ),
            Some(r) => if blank(r@) {
                Some(server_location(i) + ".auth.ref cannot be empty when provided"@)
            } else {
                None
            },
        }
    }
}

/// The transport-specific error of server `i`.
pub open spec fn server_settings_error(server: ExecutionServerConfig, i: nat) -> Option<Seq<char>> {
    match server {
        ExecutionServerConfig::Host { path_mappings, .. } => path_mappings_error(
            path_mappings@,
            server_location(i) + ".path-mappings"@,
            0,
        ),
        ExecutionServerConfig::Ssh {
            name,
            host,
            port,
            user,
            target_platform,
            path_mappings,
            identity_file,
            known_hosts_file,
            auth,
            connection_idle_timeout_ms,
            ..
        } => if name@ == DEFAULT_EXECUTION_SERVER@ {
            Some("execution.servers[*].name 'host' is reserved for the local host transport"@)
        } else if blank(host@) {
            Some(server_location(i) + ".host cannot be empty"@)
        } else if port == 0 {
            Some(server_location(i) + ".port must be greater than zero"@)
        } else if target_platform == TargetPlatform::Auto {
            Some(server_location(i) + ".target-platform must be explicit for SSH servers"@)
        } else {
            first_error(
                optional_value_error(user, server_location(i) + ".user"@),
                first_error(
                    optional_value_error(identity_file, server_location(i) + ".identity-file"@),
                    first_error(
                        optional_value_error(
                            known_hosts_file,
                            server_location(i) + ".known-hosts-file"@,
                        ),
                        first_error(
                            ssh_auth_error(auth, i),
                            if connection_idle_timeout_ms == 0 {
                                Some(
                                    server_location(i)
                                        + ".connection-idle-timeout-ms must be greater than zero"@,
                                )
                            } else {
                                path_mappings_error(
                                    path_mappings@,
                                    server_location(i) + ".path-mappings"@,
                                    0,
                                )
                            },
                        ),
                    ),
                ),
            )
        },
    }
}

/// The error of server `i` of `servers`.
pub open spec fn server_error(servers: Seq<ExecutionServerConfig>, i: int) -> Option<Seq<char>> {
    let name = server_name(servers[i]);
    if blank(name) {
        Some(server_location(i as nat) + ".name cannot be empty"@)
    } else if name_taken_before(servers, i, name) {
        Some(server_location(i as nat) + ".name duplicates server '"@ + name + "'"@)
    } else {
        server_settings_error(servers[i], i as nat)
    }
}

/// The error of the first invalid server from index `i` on.
pub open spec fn servers_error(servers: Seq<ExecutionServerConfig>, i: int) -> Option<Seq<char>>
    decreases servers.len() - i,
{
    if 0 <= i < servers.len() {
        first_error(server_error(servers, i), servers_error(servers, i + 1))
    } else {
        None
    }
}

/// The error of a default server that names no target.
pub open spec fn default_server_error(execution: ExecutionConfig) -> Option<Seq<char>> {
    let name = execution.default_server@;
    if name != DEFAULT_EXECUTION_SERVER@ && !name_taken_before(
        execution.servers@,
        execution.servers@.len() as int,
        name,
    ) {
        Some("execution.default-server '"@ + name + "' must reference a configured server"@)
    } else {
        None
    }
}

/// The error of the scalar execution settings.
pub open spec fn execution_settings_error(execution: ExecutionConfig) -> Option<Seq<char>> {
    if blank(execution.default_server@) {
        Some("execution.default-server cannot be empty"@)
    } else if execution.default_timeout_ms == 0 {
        Some("execution.default-timeout-ms must be greater than zero"@)
    } else if execution.max_timeout_ms == 0 {
        Some("execution.max-timeout-ms must be greater than zero"@)
    } else if execution.max_timeout_ms < execution.default_timeout_ms {
        Some(
            "execution.max-timeout-ms must be greater than or equal to execution.default-timeout-ms"@,
        )
    } else {
        None
    }
}

/// The error of the logging and history settings.
pub open spec fn logging_error(config: AppConfig) -> Option<Seq<char>> {
    if config.logging.memory_buffer_lines == 0 {
        Some("logging.memory-buffer-lines must be greater than zero"@)
    } else if opt_blank(config.logging.file_path) {
        Some("logging.file-path cannot be empty when provided"@)
    } else if config.history.retention_days == 0 {
        Some("history.retention-days must be greater than zero"@)
    } else {
        None
    }
}

/// The first rule that `config` breaks, in the order the rules are checked,
/// or `None` when the configuration is valid.
pub open spec fn config_error(config: AppConfig) -> Option<Seq<char>> {
    if blank(config.server.bind_address@) {
        Some("server.address cannot be empty"@)
    } else if opt_blank(config.server.access.api_key_env) {
        Some("server.access.api-key-env cannot be empty when provided"@)
    } else {
        first_error(
            execution_settings_error(config.execution),
            first_error(
                commands_error(config.execution.commands@, 0),
                first_error(
                    path_mappings_error(
                        config.execution.path_mappings@,
                        "execution.path-mappings"@,
                        0,
                    ),
                    first_error(
                        servers_error(config.execution.servers@, 0),
                        first_error(default_server_error(config.execution), logging_error(config)),
                    ),
                ),
            ),
        )
    }
}

// ---------------------------------------------------------------------------
// Checking the rules
// ---------------------------------------------------------------------------

/// Whether an optional string is present and blank.
fn opt_is_blank(v: &Option<String>) -> (b: bool)
    ensures
        b == opt_blank(*v),
{
    match v {
        Some(s) => is_blank(s.as_str()),
        None => false,
    }
}

/// `a + b` as a new string.
fn concat2(a: &str, b: &str) -> (s: String)
    ensures
        s@ == a@ + b@,
{
    let mut s = String::new();
    push_str(&mut s, a);
    push_str(&mut s, b);
    assert(s@ =~= a@ + b@);
    s
}

/// `prefix`, then the decimal `i`, then `suffix`.
fn indexed_message(prefix: &str, i: usize, suffix: &str) -> (s: String)
    ensures
        s@ == indexed(prefix@, i as nat, suffix@),
{
    let mut s = String::new();
    push_str(&mut s, prefix);
    push_decimal(&mut s, i as u64);
    push_str(&mut s, suffix);
    assert(s@ =~= indexed(prefix@, i as nat, suffix@));
    s
}

/// The error for an optional value that is present but blank.
fn check_optional_value(v: &Option<String>, location: &str) -> (r: Option<String>)
    ensures
        opt_view(r) == optional_value_error(*v, location@),
{
    if opt_is_blank(v) {
        Some(concat2(location, " cannot be empty when provided"))
    } else {
        None
    }
}

/// The error of the first path-mapping rule with a blank side.
fn check_path_mappings(rules: &Vec<PathMappingRule>, location: &str) -> (r: Option<String>)
    ensures
        opt_view(r) == path_mappings_error(rules@, location@, 0),
{
    let mut k: usize = 0;
    while k < rules.len()
        invariant
            k <= rules@.len(),
            path_mappings_error(rules@, location@, 0) == path_mappings_error(rules@, location@, k as int),
        decreases rules@.len() - k,
    {
        let rule = &rules[k];
        if is_blank(rule.from.as_str()) || is_blank(rule.to.as_str()) {
            let mut s = String::new();
            push_str(&mut s, location);
            push_str(&mut s, "[");
            push_decimal(&mut s, k as u64);
            push_str(&mut s, "] entries require non-empty from/to");
            assert(s@ =~= indexed(location@ + "["@, k as nat, "] entries require non-empty from/to"@));
            return Some(s);
        }
        k += 1;
    }
    None
}

/// The location prefix of rule `r` of command `i`.
fn rule_location_message(i: usize, r: usize, suffix: &str) -> (s: String)
    ensures
        s@ == rule_location(i as nat, r as nat) + suffix@,
{
    let mut s = String::new();
    push_str(&mut s, "execution.commands[");
    push_decimal(&mut s, i as u64);
    push_str(&mut s, "].rules[");
    push_decimal(&mut s, r as u64);
    push_str(&mut s, suffix);
    assert(s@ =~= rule_location(i as nat, r as nat) + suffix@);
    s
}

/// The error of rule `r` of command `i`.
fn check_rule(rule: &CommandRuleConfig, i: usize, r: usize) -> (e: Option<String>)
    ensures
        opt_view(e) == rule_error(*rule, i as nat, r as nat),
{
    if rule.args_prefix.len() == 0 {
        return Some(rule_location_message(i, r, "].args-prefix must contain at least one token"));
    }
    let mut t: usize = 0;
    while t < rule.args_prefix.len()
        invariant
            t <= rule.args_prefix@.len(),
            args_prefix_error(rule.args_prefix@, i as nat, r as nat, 0) == args_prefix_error(
                rule.args_prefix@,
                i as nat,
                r as nat,
                t as int,
            ),
        decreases rule.args_prefix@.len() - t,
    {
        if is_blank(rule.args_prefix[t].as_str()) {
            let mut s = rule_location_message(i, r, "].args-prefix[");
            push_decimal(&mut s, t as u64);
            push_str(&mut s, "] cannot be empty");
            assert(s@ =~= indexed(
                rule_location(i as nat, r as nat) + "].args-prefix["@,
                t as nat,
                "] cannot be empty"@,
            ));
            return Some(s);
        }
        t += 1;
    }
    let location = rule_location_message(i, r, "].default-working-directory");
    check_optional_value(&rule.default_working_directory, location.as_str())
}

/// The error of command policy `i`.
fn check_command(command: &CommandPolicyConfig, i: usize) -> (e: Option<String>)
    ensures
        opt_view(e) == command_error(*command, i as nat),
{
    if is_blank(command.command.as_str()) {
        return Some(indexed_message("execution.commands[", i, "].command cannot be empty"));
    }
    let location = indexed_message("execution.commands[", i, "].default-working-directory");
    let wd = check_optional_value(&command.default_working_directory, location.as_str());
    if wd.is_some() {
        return wd;
    }
    let mut r: usize = 0;
    assert(command_error(*command, i as nat) == rules_error(command.rules@, i as nat, 0));
    while r < command.rules.len()
        invariant
            r <= command.rules@.len(),
            command_error(*command, i as nat) == rules_error(command.rules@, i as nat, 0),
            rules_error(command.rules@, i as nat, 0) == rules_error(command.rules@, i as nat, r as int),
        decreases command.rules@.len() - r,
    {
        let e = check_rule(&command.rules[r], i, r);
        assert(rules_error(command.rules@, i as nat, r as int) == first_error(
            rule_error(command.rules@[r as int], i as nat, r as nat),
            rules_error(command.rules@, i as nat, r + 1),
        ));
        if e.is_some() {
            return e;
        }
        r += 1;
    }
    None
}

/// The location `execution.servers[i]` followed by `suffix`.
fn server_message(i: usize, suffix: &str) -> (s: String)
    ensures
        s@ == server_location(i as nat) + suffix@,
{
    let mut s = String::new();
    push_str(&mut s, "execution.servers[");
    push_decimal(&mut s, i as u64);
    push_str(&mut s, "]");
    push_str(&mut s, suffix);
    assert(s@ =~= server_location(i as nat) + suffix@);
    s
}

/// Whether a server before index `i` is named `name`.
fn check_name_taken(servers: &Vec<ExecutionServerConfig>, i: usize, name: &str) -> (b: bool)
    requires
        i <= servers@.len(),
    ensures
        b == name_taken_before(servers@, i as int, name@),
{
    let mut k: usize = 0;
    while k < i
        invariant
            k <= i <= servers@.len(),
            forall|m: int| 0 <= m < k ==> server_name(#[trigger] servers@[m]) != name@,
        decreases i - k,
    {
        if str_equal(servers[k].name(), name) {
            assert(server_name(servers@[k as int]) == name@);
            return true;
        }
        k += 1;
    }
    false
}

/// The error of the authentication settings of SSH server `i`.
fn check_ssh_auth(auth: &SshAuthConfig, i: usize) -> (e: Option<String>)
    ensures
        opt_view(e) == ssh_auth_error(*auth, i as nat),
{
    match auth.kind {
        SshAuthType::Agent => {
            if auth.reference.is_some() {
                Some(server_message(i, ".auth.ref must be omitted when auth.type is agent"))
            } else {
                None
            }
        },
        _ => match &auth.reference {
            None => Some(server_message(i, ".auth.ref is required when auth.type is not agent")),
            Some(r) => if is_blank(r.as_str()) {
                Some(server_message(i, ".auth.ref cannot be empty when provided"))
            } else {
                None
            },
        },
    }
}

/// The transport-specific error of server `i`.
fn check_server_settings(server: &ExecutionServerConfig, i: usize) -> (e: Option<String>)
    ensures
        opt_view(e) == server_settings_error(*server, i as nat),
{
    match server {
        ExecutionServerConfig::Host { path_mappings, .. } => {
            let location = server_message(i, ".path-mappings");
            check_path_mappings(path_mappings, location.as_str())
        },
        ExecutionServerConfig::Ssh {
            name,
            host,
            port,
            user,
            target_platform,
            path_mappings,
            identity_file,
            known_hosts_file,
            auth,
            connection_idle_timeout_ms,
            ..
        } => {
            if str_equal(name.as_str(), DEFAULT_EXECUTION_SERVER) {
                return Some(
                    crate::text::string_from_str(
                        "execution.servers[*].name 'host' is reserved for the local host transport",
                    ),
                );
            }
            if is_blank(host.as_str()) {
                return Some(server_message(i, ".host cannot be empty"));
            }
            if *port == 0 {
                return Some(server_message(i, ".port must be greater than zero"));
            }
            if *target_platform == TargetPlatform::Auto {
                return Some(server_message(i, ".target-platform must be explicit for SSH servers"));
            }
            let location = server_message(i, ".user");
            let e = check_optional_value(user, location.as_str());
            if e.is_some() {
                return e;
            }
            let location = server_message(i, ".identity-file");
            let e = check_optional_value(identity_file, location.as_str());
            if e.is_some() {
                return e;
            }
            let location = server_message(i, ".known-hosts-file");
            let e = check_optional_value(known_hosts_file, location.as_str());
            if e.is_some() {
                return e;
            }
            let e = check_ssh_auth(auth, i);
            if e.is_some() {
                return e;
            }
            if *connection_idle_timeout_ms == 0 {
                return Some(server_message(i, ".connection-idle-timeout-ms must be greater than zero"));
            }
            let location = server_message(i, ".path-mappings");
            check_path_mappings(path_mappings, location.as_str())
        },
    }
}

/// The error of server `i`.
fn check_server(servers: &Vec<ExecutionServerConfig>, i: usize) -> (e: Option<String>)
    requires
        i < servers@.len(),
    ensures
        opt_view(e) == server_error(servers@, i as int),
{
    let name = servers[i].name();
    if is_blank(name) {
        return Some(server_message(i, ".name cannot be empty"));
    }
    if check_name_taken(servers, i, name) {
        let mut s = server_message(i, ".name duplicates server '");
        push_str(&mut s, name);
        push_str(&mut s, "'");
        return Some(s);
    }
    check_server_settings(&servers[i], i)
}

impl AppConfig {
    /// Checks every configuration rule in order and reports the first one
    /// that is broken.
    pub fn validate(&self) -> (r: Result<(), ConfigError>)
        ensures
            match config_error(*self) {
                None => r is Ok,
                Some(m) => r matches Err(ConfigError::Validation(s)) && s@ == m,
            },
    {
        match self.check() {
            None => Ok(()),
            Some(m) => Err(ConfigError::Validation(m)),
        }
    }

    /// The message of the first broken rule, if any.
    fn check(&self) -> (e: Option<String>)
        ensures
            opt_view(e) == config_error(*self),
    {
        if is_blank(self.server.bind_address.as_str()) {
            return Some(crate::text::string_from_str("server.address cannot be empty"));
        }
        if opt_is_blank(&self.server.access.api_key_env) {
            return Some(
                crate::text::string_from_str("server.access.api-key-env cannot be empty when provided"),
            );
        }
        let execution = &self.execution;
        if is_blank(execution.default_server.as_str()) {
            return Some(crate::text::string_from_str("execution.default-server cannot be empty"));
        }
        if execution.default_timeout_ms == 0 {
            return Some(
                crate::text::string_from_str("execution.default-timeout-ms must be greater than zero"),
            );
        }
        if execution.max_timeout_ms == 0 {
            return Some(
                crate::text::string_from_str("execution.max-timeout-ms must be greater than zero"),
            );
        }
        if execution.max_timeout_ms < execution.default_timeout_ms {
            return Some(
                crate::text::string_from_str(
                    "execution.max-timeout-ms must be greater than or equal to execution.default-timeout-ms",
                ),
            );
        }
        let ghost after_servers = first_error(
            default_server_error(self.execution),
            logging_error(*self),
        );
        let ghost after_commands = first_error(
            path_mappings_error(self.execution.path_mappings@, "execution.path-mappings"@, 0),
            first_error(servers_error(self.execution.servers@, 0), after_servers),
        );
        assert(config_error(*self) == first_error(
            commands_error(self.execution.commands@, 0),
            after_commands,
        ));
        let mut i: usize = 0;
        while i < execution.commands.len()
            invariant
                i <= execution.commands@.len(),
                execution == &self.execution,
                config_error(*self) == first_error(commands_error(execution.commands@, 0), after_commands),
                commands_error(execution.commands@, 0) == commands_error(execution.commands@, i as int),
            decreases execution.commands@.len() - i,
        {
            let e = check_command(&execution.commands[i], i);
            assert(commands_error(execution.commands@, i as int) == first_error(
                command_error(execution.commands@[i as int], i as nat),
                commands_error(execution.commands@, i + 1),
            ));
            if e.is_some() {
                return e;
            }
            i += 1;
        }
        let e = check_path_mappings(&execution.path_mappings, "execution.path-mappings");
        if e.is_some() {
            return e;
        }
        let mut i: usize = 0;
        while i < execution.servers.len()
            invariant
                i <= execution.servers@.len(),
                execution == &self.execution,
                config_error(*self) == first_error(servers_error(execution.servers@, 0), after_servers),
                servers_error(execution.servers@, 0) == servers_error(execution.servers@, i as int),
            decreases execution.servers@.len() - i,
        {
            let e = check_server(&execution.servers, i);
            assert(servers_error(execution.servers@, i as int) == first_error(
                server_error(execution.servers@, i as int),
                servers_error(execution.servers@, i + 1),
            ));
            if e.is_some() {
                return e;
            }
            i += 1;
        }
        let default_server = execution.default_server.as_str();
        if !str_equal(default_server, DEFAULT_EXECUTION_SERVER) && !check_name_taken(
            &execution.servers,
            execution.servers.len(),
            default_server,
        ) {
            let mut s = crate::text::string_from_str("execution.default-server '");
            push_str(&mut s, default_server);
            push_str(&mut s, "' must reference a configured server");
            return Some(s);
        }
        if self.logging.memory_buffer_lines == 0 {
            return Some(
                crate::text::string_from_str("logging.memory-buffer-lines must be greater than zero"),
            );
        }
        if opt_is_blank(&self.logging.file_path) {
            return Some(crate::text::string_from_str("logging.file-path cannot be empty when provided"));
        }
        if self.history.retention_days == 0 {
            return Some(
                crate::text::string_from_str("history.retention-days must be greater than zero"),
            );
        }
        None
    }
}

/// The configuration file to read and whether it was named explicitly.
#[derive(Debug, Clone)]
pub struct ResolvedConfigPath {
    pub path: String,
    pub explicit: bool,
}

/// The file read when none is named.
pub const DEFAULT_CONFIG_FILE: &'static str = "host-bridge.yaml";

/// The configuration file: the one named on the command line, else the one
/// the `HOST_BRIDGE_CONFIG` variable names (`env_value`), else the default.
pub fn resolve_config_path(config_path: Option<&str>, env_value: Option<&str>) -> (r: ResolvedConfigPath)
    ensures
        r.explicit == (config_path is Some || env_value is Some),
        r.path@ == match config_path {
            Some(p) => p@,
            None => match env_value {
                Some(e) => e@,
                None => DEFAULT_CONFIG_FILE@,
            },
        },
{
    match config_path {
        Some(p) => ResolvedConfigPath { path: crate::text::string_from_str(p), explicit: true },
        None => match env_value {
            Some(e) => ResolvedConfigPath { path: crate::text::string_from_str(e), explicit: true },
            None => ResolvedConfigPath {
                path: crate::text::string_from_str(DEFAULT_CONFIG_FILE),
                explicit: false,
            },
        },
    }
}

/// What reading and parsing the configuration file gave.
#[derive(Debug)]
pub enum LoadedConfig {
    /// There is no file at the path.
    Missing,
    /// The file could not be read; the error as displayed.
    ReadFailed(String),
    /// The file is not YAML; the error as displayed.
    ParseFailed(String),
    /// The file is YAML: the keys of its `execution` mapping, and the
    /// configuration it describes or why it describes none.
    Parsed { execution_keys: Vec<String>, config: Result<AppConfig, String> },
}

/// The message for a retired `execution` key, if `key` is one.
pub open spec fn legacy_key_message(key: Seq<char>) -> Option<Seq<char>> {
    if key == "default_policy"@ {
        Some("execution.default-policy is no longer supported; use execution.default-action"@)
    } else if key == "rules"@ {
        Some("execution.rules is no longer supported; migrate to execution.commands"@)
    } else {
        None
    }
}

/// The error for the retired `execution` keys present: `default_policy` is
/// reported before `rules`.
pub open spec fn legacy_keys_error(keys: Seq<Seq<char>>) -> Option<Seq<char>> {
    if keys.contains("default_policy"@) {
        legacy_key_message("default_policy"@)
    } else if keys.contains("rules"@) {
        legacy_key_message("rules"@)
    } else {
        None
    }
}

/// Whether a list of keys holds `key`.
fn keys_contain(keys: &Vec<String>, key: &str) -> (b: bool)
    ensures
        b == crate::text::views_of(keys@).contains(key@),
{
    let mut i: usize = 0;
    while i < keys.len()
        invariant
            i <= keys@.len(),
            forall|k: int| 0 <= k < i ==> keys@[k]@ != key@,
        decreases keys@.len() - i,
    {
        if crate::text::str_equal(keys[i].as_str(), key) {
            proof {
                assert(crate::text::views_of(keys@)[i as int] == key@);
            }
            return true;
        }
        i += 1;
    }
    proof {
        if crate::text::views_of(keys@).contains(key@) {
            let k = choose|k: int| 0 <= k < keys@.len() && crate::text::views_of(keys@)[k] == key@;
            assert(keys@[k]@ == key@);
        }
    }
    false
}

impl AppConfig {
    /// The configuration a run uses, from what reading the file gave: the
    /// defaults when no file was named and none exists, else the file's
    /// configuration once it passes the rules.
    pub fn load(path: &ResolvedConfigPath, loaded: LoadedConfig) -> (r: Result<AppConfig, ConfigError>)
        ensures
            match loaded {
                LoadedConfig::Missing => if path.explicit {
                    r matches Err(ConfigError::Read { path: p, message: m }) && p@ == path.path@
                        && m@ == "configuration file was not found"@
                } else {
                    r matches Ok(c) && is_default_config(c)
                },
                LoadedConfig::ReadFailed(m) => r matches Err(ConfigError::Read { path: p, message })
                    && p@ == path.path@ && message@ == m@,
                LoadedConfig::ParseFailed(m) => r matches Err(ConfigError::Parse { path: p, message })
                    && p@ == path.path@ && message@ == m@,
                LoadedConfig::Parsed { execution_keys, config } => match legacy_keys_error(
                    crate::text::views_of(execution_keys@),
                ) {
                    Some(msg) => r matches Err(ConfigError::Validation(v)) && v@ == msg,
                    None => match config {
                        Err(m) => r matches Err(ConfigError::Parse { path: p, message }) && p@
                            == path.path@ && message@ == m@,
                        Ok(c) => match config_error(c) {
                            Some(msg) => r matches Err(ConfigError::Validation(v)) && v@ == msg,
                            None => r == Ok::<AppConfig, ConfigError>(c),
                        },
                    },
                },
            },
    {
        match loaded {
            LoadedConfig::Missing => {
                if path.explicit {
                    Err(ConfigError::Read {
                        path: path.path.clone(),
                        message: crate::text::string_from_str("configuration file was not found"),
                    })
                } else {
                    Ok(AppConfig::default())
                }
            },
            LoadedConfig::ReadFailed(m) => Err(ConfigError::Read { path: path.path.clone(), message: m }),
            LoadedConfig::ParseFailed(m) => Err(ConfigError::Parse { path: path.path.clone(), message: m }),
            LoadedConfig::Parsed { execution_keys, config } => {
                if keys_contain(&execution_keys, "default_policy") {
                    return Err(ConfigError::Validation(crate::text::string_from_str(
                        "execution.default-policy is no longer supported; use execution.default-action",
                    )));
                }
                if keys_contain(&execution_keys, "rules") {
                    return Err(ConfigError::Validation(crate::text::string_from_str(
                        "execution.rules is no longer supported; migrate to execution.commands",
                    )));
                }
                let c = match config {
                    Err(m) => {
                        return Err(ConfigError::Parse { path: path.path.clone(), message: m });
                    },
                    Ok(c) => c,
                };
                match c.validate() {
                    Err(e) => Err(e),
                    Ok(()) => Ok(c),
                }
            },
        }
    }
}

} // verus!
