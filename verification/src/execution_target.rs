//! The execution targets a command can run on: the implicit local host and
//! the configured local or SSH servers.

use crate::config::{server_name, ExecutionConfig, ExecutionServerConfig, SshAuthConfig, opt_view, DEFAULT_EXECUTION_SERVER};
use crate::path_mapping::{clone_rules, mapping_views, PathMapper};
use crate::platform::{resolve_target_platform, resolved_platform, HostPlatform, RuntimePlatform};
use crate::text::{str_equal, string_from_str};
use vstd::prelude::*;

verus! {

/// Where and how commands of one target run.
#[derive(Debug, Clone)]
pub struct ExecutionTarget {
    pub name: String,
    pub transport: ExecutionTransport,
    pub target_platform: RuntimePlatform,
    pub path_mapper: PathMapper,
}

/// A target's name and the platform its commands run on.
#[derive(Debug, Clone)]
pub struct EnvironmentSummary {
    pub name: String,
    pub platform: RuntimePlatform,
}

/// How a target is reached.
#[derive(Debug, Clone)]
pub enum ExecutionTransport {
    Host,
    Ssh(SshTarget),
}

/// The connection settings of an SSH target.
#[derive(Debug, Clone)]
pub struct SshTarget {
    pub host: String,
    pub port: u16,
    pub user: Option<String>,
    pub identity_file: Option<String>,
    pub known_hosts_file: Option<String>,
    pub auth: SshAuthConfig,
    pub verify_host_key: bool,
    pub connection_idle_timeout_ms: u64,
}

/// The targets by name and the name of the default one.
#[derive(Debug)]
pub struct ExecutionTargetRegistry {
    default_target: String,
    targets: Vec<ExecutionTarget>,
}

/// Whether `t` is the implicit local target of `execution`.
pub open spec fn is_implicit_host_target(t: ExecutionTarget, execution: ExecutionConfig, host: HostPlatform) -> bool {
    &&& t.name@ == DEFAULT_EXECUTION_SERVER@
    &&& t.transport is Host
    &&& t.target_platform == resolved_platform(execution.target_platform, host.platform)
    &&& t.path_mapper.mapper_rules() == mapping_views(execution.path_mappings@)
    &&& t.path_mapper.mapper_target() == t.target_platform
    &&& t.path_mapper.mapper_inside_wsl() == host.inside_wsl
}

/// Whether `t` is the target that server `s` configures.
pub open spec fn is_server_target(t: ExecutionTarget, s: ExecutionServerConfig, host: HostPlatform) -> bool {
    match s {
        ExecutionServerConfig::Host { name, target_platform, path_mappings, .. } => {
            &&& t.name@ == name@
            &&& t.transport is Host
            &&& t.target_platform == resolved_platform(target_platform, host.platform)
            &&& t.path_mapper.mapper_rules() == mapping_views(path_mappings@)
            &&& t.path_mapper.mapper_target() == t.target_platform
            &&& t.path_mapper.mapper_inside_wsl() == host.inside_wsl
        },
        ExecutionServerConfig::Ssh {
            name,
            host: address,
            port,
            user,
            target_platform,
            path_mappings,
            identity_file,
            known_hosts_file,
            auth,
            verify_host_key,
            connection_idle_timeout_ms,
            ..
        } => {
            &&& t.name@ == name@
            &&& t.transport matches ExecutionTransport::Ssh(ssh) && ssh.host@ == address@ && ssh.port
                == port && opt_view(ssh.user) == opt_view(user) && opt_view(ssh.identity_file)
                == opt_view(identity_file) && opt_view(ssh.known_hosts_file) == opt_view(
                known_hosts_file,
            ) && ssh.auth.kind == auth.kind && opt_view(ssh.auth.reference) == opt_view(
                auth.reference,
            ) && ssh.verify_host_key == verify_host_key && ssh.connection_idle_timeout_ms
                == connection_idle_timeout_ms
            &&& t.target_platform == resolved_platform(target_platform, host.platform)
            &&& t.path_mapper.mapper_rules() == mapping_views(path_mappings@)
            &&& t.path_mapper.mapper_target() == t.target_platform
            &&& t.path_mapper.mapper_inside_wsl() == host.inside_wsl
        },
    }
}

/// The index of the last server before `n` with the given name.
pub open spec fn last_server_named(servers: Seq<ExecutionServerConfig>, name: Seq<char>, n: int) -> Option<int>
    decreases n,
{
    if n <= 0 {
        None
    } else if server_name(servers[n - 1]) == name {
        Some(n - 1)
    } else {
        last_server_named(servers, name, n - 1)
    }
}

/// Whether `t` is what the name resolves to after the first `n` servers:
/// the last server of that name, else the implicit host for `host`.
pub open spec fn expected_target(
    execution: ExecutionConfig,
    host: HostPlatform,
    name: Seq<char>,
    n: int,
    t: Option<ExecutionTarget>,
) -> bool {
    match last_server_named(execution.servers@, name, n) {
        Some(i) => t matches Some(x) && is_server_target(x, execution.servers@[i], host),
        None => if name == DEFAULT_EXECUTION_SERVER@ {
            t matches Some(x) && is_implicit_host_target(x, execution, host)
        } else {
            t is None
        },
    }
}

/// The index of the first target named `name`.
pub open spec fn find_target(targets: Seq<ExecutionTarget>, name: Seq<char>) -> Option<int> {
    if exists|k: int| 0 <= k < targets.len() && #[trigger] targets[k].name@ == name {
        Some(choose|k: int| 0 <= k < targets.len() && #[trigger] targets[k].name@ == name)
    } else {
        None
    }
}

/// Whether no two targets share a name.
pub open spec fn names_unique(targets: Seq<ExecutionTarget>) -> bool {
    forall|a: int, b: int|
        0 <= a < b < targets.len() ==> #[trigger] targets[a].name@ != #[trigger] targets[b].name@
}

impl ExecutionTargetRegistry {
    #[verifier::type_invariant]
    spec fn wf(self) -> bool {
        names_unique(self.targets@)
    }

    /// The target registered under `name`.
    pub closed spec fn lookup(&self, name: Seq<char>) -> Option<ExecutionTarget> {
        match find_target(self.targets@, name) {
            Some(k) => Some(self.targets@[k]),
            None => None,
        }
    }

    /// The name of the default target.
    pub closed spec fn default_name(&self) -> Seq<char> {
        self.default_target@
    }

    /// All registered names.
    pub closed spec fn names(&self) -> Set<Seq<char>> {
        Set::new(|n: Seq<char>| self.lookup(n) is Some)
    }

    /// Builds the registry: the implicit `host` target, then each configured
    /// server, a later server replacing an earlier target of the same name.
    pub fn from_config(execution: &ExecutionConfig, host: HostPlatform) -> (r: Self)
        ensures
            r.default_name() == execution.default_server@,
            forall|name: Seq<char>|
                expected_target(
                    *execution,
                    host,
                    name,
                    execution.servers@.len() as int,
                    #[trigger] r.lookup(name),
                ),
    {
        let mut targets: Vec<ExecutionTarget> = Vec::new();
        targets.push(implicit_host_target(execution, host));
        let mut i: usize = 0;
        proof {
            assert forall|name: Seq<char>|
                expected_target(*execution, host, name, 0, #[trigger] lookup_in(targets@, name)) by {
                if name == DEFAULT_EXECUTION_SERVER@ {
                    assert(targets@[0].name@ == name);
                }
            }
        }
        while i < execution.servers.len()
            invariant
                i <= execution.servers@.len(),
                names_unique(targets@),
                forall|name: Seq<char>|
                    expected_target(*execution, host, name, i as int, #[trigger] lookup_in(targets@, name)),
            decreases execution.servers@.len() - i,
        {
            let server = &execution.servers[i];
            let target = build_target(server, host);
            let name = server.name();
            let mut k: usize = 0;
            let mut found: Option<usize> = None;
            while k < targets.len()
                invariant
                    k <= targets@.len(),
                    found matches Some(j) ==> j < targets@.len() && targets@[j as int].name@ == name@,
                    found is None ==> forall|m: int| 0 <= m < k ==> #[trigger] targets@[m].name@ != name@,
                decreases targets@.len() - k,
            {
                if found.is_none() && str_equal(targets[k].name.as_str(), name) {
                    found = Some(k);
                }
                k += 1;
            }
            let ghost before = targets@;
            match found {
                Some(j) => {
                    targets.set(j, target);
                },
                None => {
                    targets.push(target);
                },
            }
            proof {
                let idx = match found {
                    Some(j) => j as int,
                    None => before.len() as int,
                };
                assert(targets@[idx].name@ == name@);
                assert(names_unique(targets@)) by {
                    assert forall|a: int, b: int| 0 <= a < b < targets@.len() implies #[trigger] targets@[a].name@
                        != #[trigger] targets@[b].name@ by {
                        if a != idx && b != idx {
                            assert(targets@[a] == before[a] && targets@[b] == before[b]);
                        } else if a == idx {
                            assert(targets@[b] == before[b]);
                            if found is Some {
                                assert(before[a].name@ == name@);
                            }
                        } else {
                            assert(targets@[a] == before[a]);
                            if found is Some {
                                assert(before[b].name@ == name@);
                            }
                        }
                    }
                }
                assert forall|n: Seq<char>|
                    expected_target(*execution, host, n, i + 1, #[trigger] lookup_in(targets@, n)) by {
                    if n == server_name(execution.servers@[i as int]) {
                        assert(last_server_named(execution.servers@, n, i + 1) == Some(i as int));
                        lemma_lookup_unique(targets@, n, idx);
                    } else {
                        assert(last_server_named(execution.servers@, n, i + 1) == last_server_named(
                            execution.servers@,
                            n,
                            i as int,
                        ));
                        assert forall|k: int| 0 <= k < targets@.len() && #[trigger] targets@[k].name@ == n implies k
                            < before.len() && before[k].name@ == n && targets@[k] == before[k] by {
                            if k == idx {
                                assert(targets@[k].name@ == name@);
                            }
                        }
                        assert forall|k: int| 0 <= k < before.len() && #[trigger] before[k].name@ == n implies targets@[k]
                            == before[k] by {
                            if k == idx {
                                assert(before[k].name@ == name@);
                            }
                        }
                        lemma_lookup_other(before, targets@, n);
                    }
                }
            }
            i += 1;
        }
        let r = ExecutionTargetRegistry { default_target: execution.default_server.clone(), targets };
        assert forall|name: Seq<char>|
            expected_target(
                *execution,
                host,
                name,
                execution.servers@.len() as int,
                #[trigger] r.lookup(name),
            ) by {
            assert(r.lookup(name) == lookup_in(r.targets@, name));
        }
        r
    }

    /// The targets by name, in name order, each with the platform its
    /// commands run on.
    pub fn environments(&self) -> (envs: Vec<EnvironmentSummary>)
        ensures
            crate::sorting::strictly_sorted(envs@.map_values(|e: EnvironmentSummary| e.name@)),
            forall|n: Seq<char>|
                envs@.map_values(|e: EnvironmentSummary| e.name@).contains(n) <==> (#[trigger] self.lookup(n)) is Some,
            forall|i: int|
                0 <= i < envs@.len() ==> (#[trigger] self.lookup(envs@[i].name@) matches Some(t)
                    && t.target_platform == envs@[i].platform),
    {
        let names = self.target_names();
        let ghost views = names@.map_values(|s: String| s@);
        let mut envs: Vec<EnvironmentSummary> = Vec::new();
        let mut k: usize = 0;
        while k < names.len()
            invariant
                k <= names@.len(),
                views == names@.map_values(|s: String| s@),
                forall|n: Seq<char>| views.contains(n) <==> (#[trigger] self.lookup(n)) is Some,
                envs@.map_values(|e: EnvironmentSummary| e.name@) == views.take(k as int),
                forall|i: int|
                    0 <= i < envs@.len() ==> (#[trigger] self.lookup(envs@[i].name@) matches Some(t)
                        && t.target_platform == envs@[i].platform),
            decreases names@.len() - k,
        {
            assert(views[k as int] == names@[k as int]@);
            assert(views.contains(names@[k as int]@));
            let found = self.resolve(Some(names[k].as_str()));
            match found {
                Some(t) => {
                    let ghost before = envs@;
                    let nm = names[k].clone();
                    assert(nm@ == views[k as int]);
                    envs.push(EnvironmentSummary { name: nm, platform: t.target_platform });
                    assert(envs@.map_values(|e: EnvironmentSummary| e.name@) =~= before.map_values(
                        |e: EnvironmentSummary| e.name@,
                    ).push(views[k as int]));
                    assert(views.take(k + 1) =~= views.take(k as int).push(views[k as int]));
                    assert forall|i: int| 0 <= i < envs@.len() implies (#[trigger] self.lookup(
                        envs@[i].name@,
                    ) matches Some(u) && u.target_platform == envs@[i].platform) by {
                        if i < before.len() {
                            assert(envs@[i] == before[i]);
                        }
                    }
                },
                None => {
                    assert(false);
                },
            }
            k += 1;
        }
        assert(views.take(k as int) =~= views);
        envs
    }

    /// The target named `requested`, or the default target when none is named.
    pub fn resolve(&self, requested: Option<&str>) -> (r: Option<&ExecutionTarget>)
        ensures
            match r {
                Some(t) => self.lookup(
                    match requested {
                        Some(n) => n@,
                        None => self.default_name(),
                    },
                ) == Some(*t),
                None => self.lookup(
                    match requested {
                        Some(n) => n@,
                        None => self.default_name(),
                    },
                ) is None,
            },
    {
        proof {
            use_type_invariant(self);
        }
        let name = match requested {
            Some(n) => n,
            None => self.default_target.as_str(),
        };
        let mut k: usize = 0;
        while k < self.targets.len()
            invariant
                k <= self.targets@.len(),
                names_unique(self.targets@),
                name@ == match requested {
                    Some(n) => n@,
                    None => self.default_name(),
                },
                forall|m: int| 0 <= m < k ==> #[trigger] self.targets@[m].name@ != name@,
            decreases self.targets@.len() - k,
        {
            if str_equal(self.targets[k].name.as_str(), name) {
                proof {
                    lemma_lookup_unique(self.targets@, name@, k as int);
                    assert(self.lookup(name@) == lookup_in(self.targets@, name@));
                }
                return Some(&self.targets[k]);
            }
            k += 1;
        }
        None
    }

    /// The name of the default target.
    pub fn default_server_name(&self) -> (name: String)
        ensures
            name@ == self.default_name(),
    {
        self.default_target.clone()
    }

    /// The default target; the configuration rules guarantee that it exists.
    pub fn default_target(&self) -> (t: &ExecutionTarget)
        requires
            self.lookup(self.default_name()) is Some,
        ensures
            self.lookup(self.default_name()) == Some(*t),
    {
        match self.resolve(None) {
            Some(t) => t,
            None => {
                assert(false);
                &self.targets[0]
            },
        }
    }

    /// The registered names in ascending order.
    pub fn target_names(&self) -> (names: Vec<String>)
        ensures
            crate::sorting::strictly_sorted(names@.map_values(|s: String| s@)),
            forall|n: Seq<char>|
                names@.map_values(|s: String| s@).contains(n) <==> (#[trigger] self.lookup(n)) is Some,
    {
        let mut names: Vec<String> = Vec::new();
        let mut k: usize = 0;
        while k < self.targets.len()
            invariant
                k <= self.targets@.len(),
                names@.map_values(|s: String| s@) == self.targets@.take(k as int).map_values(
                    |t: ExecutionTarget| t.name@,
                ),
            decreases self.targets@.len() - k,
        {
            let ghost before = names@;
            let n = self.targets[k].name.clone();
            names.push(n);
            assert(names@.map_values(|s: String| s@) =~= before.map_values(|s: String| s@).push(
                self.targets@[k as int].name@,
            ));
            assert(self.targets@.take(k + 1).map_values(|t: ExecutionTarget| t.name@)
                =~= self.targets@.take(k as int).map_values(|t: ExecutionTarget| t.name@).push(
                self.targets@[k as int].name@,
            ));
            k += 1;
        }
        assert(self.targets@.take(k as int) =~= self.targets@);
        proof {
            use_type_invariant(self);
            assert forall|a: int, b: int| 0 <= a < b < names@.len() implies names@[a]@ != names@[b]@ by {
                assert(self.targets@.map_values(|t: ExecutionTarget| t.name@)[a] == self.targets@[a].name@);
                assert(self.targets@.map_values(|t: ExecutionTarget| t.name@)[b] == self.targets@[b].name@);
                assert(names@.map_values(|s: String| s@)[a] == self.targets@[a].name@);
                assert(names@.map_values(|s: String| s@)[b] == self.targets@[b].name@);
            }
        }
        let sorted = crate::sorting::sort_strings(names);
        proof {
            let views = names@.map_values(|s: String| s@);
            assert(views == crate::sorting::string_seq_views(names@));
            assert forall|n: Seq<char>| views.contains(n) <==> (#[trigger] self.lookup(n)) is Some by {
                if views.contains(n) {
                    let k = choose|k: int| 0 <= k < views.len() && #[trigger] views[k] == n;
                    assert(self.targets@[k].name@ == n);
                }
                if self.lookup(n) is Some {
                    let k = choose|k: int| 0 <= k < self.targets@.len() && #[trigger] self.targets@[k].name@ == n;
                    assert(views[k] == n);
                }
            }
        }
        sorted
    }
}

/// The target looked up by name in a sequence of targets.
pub open spec fn lookup_in(targets: Seq<ExecutionTarget>, name: Seq<char>) -> Option<ExecutionTarget> {
    match find_target(targets, name) {
        Some(k) => Some(targets[k]),
        None => None,
    }
}

proof fn lemma_lookup_unique(targets: Seq<ExecutionTarget>, name: Seq<char>, idx: int)
    requires
        names_unique(targets),
        0 <= idx < targets.len(),
        targets[idx].name@ == name,
    ensures
        lookup_in(targets, name) == Some(targets[idx]),
{
    let k = choose|k: int| 0 <= k < targets.len() && #[trigger] targets[k].name@ == name;
    if k != idx {
        if k < idx {
            assert(targets[k].name@ != targets[idx].name@);
        } else {
            assert(targets[idx].name@ != targets[k].name@);
        }
    }
}

proof fn lemma_lookup_other(before: Seq<ExecutionTarget>, after: Seq<ExecutionTarget>, name: Seq<char>)
    requires
        names_unique(before),
        names_unique(after),
        before.len() <= after.len(),
        forall|k: int|
            0 <= k < after.len() && #[trigger] after[k].name@ == name ==> k < before.len()
                && before[k].name@ == name && after[k] == before[k],
        forall|k: int| 0 <= k < before.len() && #[trigger] before[k].name@ == name ==> after[k] == before[k],
    ensures
        lookup_in(after, name) == lookup_in(before, name),
{
    if exists|k: int| 0 <= k < before.len() && #[trigger] before[k].name@ == name {
        let k = choose|k: int| 0 <= k < before.len() && #[trigger] before[k].name@ == name;
        assert(after[k] == before[k]);
        lemma_lookup_unique(before, name, k);
        assert(k < after.len());
        lemma_lookup_unique(after, name, k);
    } else {
        if exists|k: int| 0 <= k < after.len() && #[trigger] after[k].name@ == name {
            let k = choose|k: int| 0 <= k < after.len() && #[trigger] after[k].name@ == name;
            assert(before[k].name@ == name);
        }
    }
}

fn implicit_host_target(execution: &ExecutionConfig, host: HostPlatform) -> (t: ExecutionTarget)
    ensures
        is_implicit_host_target(t, *execution, host),
{
    let platform = resolve_target_platform(execution.target_platform, host.platform);
    ExecutionTarget {
        name: string_from_str(DEFAULT_EXECUTION_SERVER),
        transport: ExecutionTransport::Host,
        target_platform: platform,
        path_mapper: PathMapper::new(clone_rules(&execution.path_mappings), execution.target_platform, host),
    }
}

fn clone_opt(v: &Option<String>) -> (out: Option<String>)
    ensures
        opt_view(out) == opt_view(*v),
{
    match v {
        Some(s) => Some(s.clone()),
        None => None,
    }
}

fn build_target(server: &ExecutionServerConfig, host: HostPlatform) -> (t: ExecutionTarget)
    ensures
        is_server_target(t, *server, host),
{
    match server {
        ExecutionServerConfig::Host { name, target_platform, path_mappings, .. } => ExecutionTarget {
            name: name.clone(),
            transport: ExecutionTransport::Host,
            target_platform: resolve_target_platform(*target_platform, host.platform),
            path_mapper: PathMapper::new(clone_rules(path_mappings), *target_platform, host),
        },
        ExecutionServerConfig::Ssh {
            name,
            host: address,
            port,
            user,
            target_platform,
            path_mappings,
            identity_file,
            known_hosts_file,
            auth,
            verify_host_key,
            connection_idle_timeout_ms,
            ..
        } => ExecutionTarget {
            name: name.clone(),
            transport: ExecutionTransport::Ssh(
                SshTarget {
                    host: address.clone(),
                    port: *port,
                    user: clone_opt(user),
                    identity_file: clone_opt(identity_file),
                    known_hosts_file: clone_opt(known_hosts_file),
                    auth: SshAuthConfig { kind: auth.kind, reference: clone_opt(&auth.reference) },
                    verify_host_key: *verify_host_key,
                    connection_idle_timeout_ms: *connection_idle_timeout_ms,
                },
            ),
            target_platform: resolve_target_platform(*target_platform, host.platform),
            path_mapper: PathMapper::new(clone_rules(path_mappings), *target_platform, host),
        },
    }
}

/// `last_server_named` finds a server exactly when one of the first `n`
/// servers has the name, and what it finds has the name.
proof fn lemma_last_server_named(servers: Seq<ExecutionServerConfig>, name: Seq<char>, n: int)
    requires
        n <= servers.len(),
    ensures
        last_server_named(servers, name, n) is Some <==> exists|k: int|
            0 <= k < n && server_name(#[trigger] servers[k]) == name,
        last_server_named(servers, name, n) matches Some(i) ==> 0 <= i < n && server_name(
            servers[i],
        ) == name,
    decreases n,
{
    if n > 0 {
        lemma_last_server_named(servers, name, n - 1);
        if server_name(servers[n - 1]) == name {
            assert(server_name(servers[n - 1]) == name);
        }
    }
}

/// The registry built from a configuration knows `host` and the configured
/// servers' names and nothing else: a name resolves to the last server of
/// that name, else, for `host`, to the implicit local target; asking for no
/// name is asking for the configured default.
pub proof fn lemma_registry_from_config(
    execution: ExecutionConfig,
    host: HostPlatform,
    registry: ExecutionTargetRegistry,
)
    requires
        registry.default_name() == execution.default_server@,
        forall|name: Seq<char>|
            expected_target(
                execution,
                host,
                name,
                execution.servers@.len() as int,
                #[trigger] registry.lookup(name),
            ),
    ensures
        forall|name: Seq<char>|
            (#[trigger] registry.lookup(name) is Some) <==> (name == DEFAULT_EXECUTION_SERVER@ || exists|
                k: int,
            |
                0 <= k < execution.servers@.len() && server_name(#[trigger] execution.servers@[k])
                    == name),
        forall|name: Seq<char>, k: int|
            0 <= k < execution.servers@.len() && server_name(execution.servers@[k]) == name && (
            forall|j: int| k < j < execution.servers@.len() ==> server_name(
                #[trigger] execution.servers@[j],
            ) != name) ==> (#[trigger] registry.lookup(name) matches Some(t) && is_server_target(
                t,
                #[trigger] execution.servers@[k],
                host,
            )),
        registry.lookup(registry.default_name()) == registry.lookup(execution.default_server@),
{
    let servers = execution.servers@;
    let len = servers.len() as int;
    assert forall|name: Seq<char>|
        (#[trigger] registry.lookup(name) is Some) <==> (name == DEFAULT_EXECUTION_SERVER@ || exists|
            k: int,
        | 0 <= k < len && server_name(#[trigger] servers[k]) == name) by {
        lemma_last_server_named(servers, name, len);
        assert(expected_target(execution, host, name, len, registry.lookup(name)));
    }
    assert forall|name: Seq<char>, k: int|
        0 <= k < len && server_name(servers[k]) == name && (forall|j: int|
            k < j < len ==> server_name(#[trigger] servers[j]) != name) implies (
    #[trigger] registry.lookup(name) matches Some(t) && is_server_target(
        t,
        #[trigger] servers[k],
        host,
    )) by {
        lemma_last_server_named(servers, name, len);
        assert(expected_target(execution, host, name, len, registry.lookup(name)));
        let i = last_server_named(servers, name, len)->0;
        if i != k {
            assert(i < k ==> false) by {
                if i < k {
                    lemma_last_after(servers, name, len, k);
                }
            }
        }
    }
}

/// The last server of a name is at or after any server of that name.
proof fn lemma_last_after(servers: Seq<ExecutionServerConfig>, name: Seq<char>, n: int, k: int)
    requires
        0 <= k < n <= servers.len(),
        server_name(servers[k]) == name,
    ensures
        last_server_named(servers, name, n) matches Some(i) && k <= i,
    decreases n,
{
    if server_name(servers[n - 1]) != name {
        lemma_last_after(servers, name, n - 1, k);
    }
}

} // verus!
