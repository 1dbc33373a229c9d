//! Starting the proxy: what is done, in which order, and what the session then sees of it.
use vstd::prelude::*;
use vstd::string::StringExecFns;

use crate::command_policy::CommandPoliciesConfig;
use crate::config_build;
use crate::config_build::{PolicyAnswers, PolicyRequest, PolicyRequestView};
use crate::credential_env;
use crate::error;
use crate::error::{ErrorView, ProxyError};
use crate::grants;
use crate::host;
use crate::host::{Halt, HaltView};
use crate::names::{NameMap, NameSet};
use crate::proxy_config::{ProxyConfig, ProxyConfigView, TimeSpan};
use crate::sandbox::{NetworkMode, NetworkModeView, Platform, ProxyLaunchOptions};
use crate::values::DeepClone;

verus! {

/// A piece of work that starting the proxy leaves to the host.
#[derive(Debug, PartialEq, Eq)]
pub enum StartRequest<'a> {
    /// Set the variables that the proxy finds its secrets in.
    SetSourceEnv { vars: NameMap<String> },
    /// Put those variables back as they were.
    RestoreSourceEnv,
    /// Work on the network policy.
    Policy(PolicyRequest),
    /// Make the directory for the certificates that TLS is intercepted with, where there can be
    /// one.
    PrepareInterceptDir,
    /// Read the certificates that the surrounding process trusts.
    ReadParentCertificates,
    /// Load the authority that the system trusts, or make it, valid for as long as `validity`
    /// says or as is usual.
    LoadProxyCa { validity: Option<TimeSpan> },
    /// Say that trusting the authority has no effect.
    WarnTrustIgnored,
    /// Make what the proxy runs on.
    BuildRuntime,
    /// Make what decides on requests that need approval.
    BuildApprovalRegistry { policies: Option<&'a CommandPoliciesConfig> },
    /// Start the proxy.
    StartProxy { config: ProxyConfig },
    /// Confine the sandbox to `mode`.
    SetNetworkMode { mode: NetworkMode },
    /// Write `path` as it stands between quotes in a rule of the system's sandbox.
    EscapePath { path: String },
    /// Add a rule to the system's sandbox.
    AddPlatformRule { action: BundleAction, rule: String },
    /// Let the sandbox read the file at `path`.
    AllowRead { path: String },
}

/// What a sandbox does to certificates that it reads.
#[derive(Debug, Clone, Copy, PartialEq, Eq, Structural)]
pub enum BundleAction {
    ReadData,
    ReadMetadata,
}

/// What a `StartRequest` asks for.
#[verifier::ext_equal]
pub enum StartRequestView {
    SetSourceEnv { vars: Map<Seq<char>, Seq<char>> },
    RestoreSourceEnv,
    Policy(PolicyRequestView),
    PrepareInterceptDir,
    ReadParentCertificates,
    LoadProxyCa { validity: Option<TimeSpan> },
    WarnTrustIgnored,
    BuildRuntime,
    BuildApprovalRegistry { policies: Option<CommandPoliciesConfig> },
    StartProxy { config: ProxyConfigView },
    SetNetworkMode { mode: NetworkModeView },
    EscapePath { path: Seq<char> },
    AddPlatformRule { action: BundleAction, rule: Seq<char> },
    AllowRead { path: Seq<char> },
}

impl<'a> DeepView for StartRequest<'a> {
    type V = StartRequestView;

    open spec fn deep_view(&self) -> StartRequestView {
        match self {
            StartRequest::SetSourceEnv { vars } => StartRequestView::SetSourceEnv {
                vars: vars.deep_view(),
            },
            StartRequest::RestoreSourceEnv => StartRequestView::RestoreSourceEnv,
            StartRequest::Policy(request) => StartRequestView::Policy(request.deep_view()),
            StartRequest::PrepareInterceptDir => StartRequestView::PrepareInterceptDir,
            StartRequest::ReadParentCertificates => StartRequestView::ReadParentCertificates,
            StartRequest::LoadProxyCa { validity } => StartRequestView::LoadProxyCa {
                validity: *validity,
            },
            StartRequest::WarnTrustIgnored => StartRequestView::WarnTrustIgnored,
            StartRequest::BuildRuntime => StartRequestView::BuildRuntime,
            StartRequest::BuildApprovalRegistry { policies } => {
                StartRequestView::BuildApprovalRegistry { policies: grants::policies_of(*policies) }
            },
            StartRequest::StartProxy { config } => StartRequestView::StartProxy {
                config: config.deep_view(),
            },
            StartRequest::SetNetworkMode { mode } => StartRequestView::SetNetworkMode {
                mode: mode.deep_view(),
            },
            StartRequest::EscapePath { path } => StartRequestView::EscapePath { path: path@ },
            StartRequest::AddPlatformRule { action, rule } => StartRequestView::AddPlatformRule {
                action: *action,
                rule: rule@,
            },
            StartRequest::AllowRead { path } => StartRequestView::AllowRead { path: path@ },
        }
    }
}

/// The proxy, once it runs.
#[derive(Debug, Clone, PartialEq, Eq)]
pub struct StartedProxy {
    pub port: u16,
    /// Where the certificates lie that TLS is intercepted with, if it is.
    pub intercept_ca_path: Option<String>,
    /// The variables that lead programs to the proxy.
    pub env_vars: Vec<(String, String)>,
    /// The variables that the proxy has for its credentials.
    pub credential_env_vars: Vec<(String, String)>,
}

/// What has been done so far. Where a piece of work can fail for reasons that only the host can
/// tell, the text says why.
#[derive(Debug, Clone, Default, PartialEq, Eq)]
pub struct StartAnswers {
    pub source_env_set: bool,
    pub source_env_restored: bool,
    pub policy: PolicyAnswers,
    pub intercept_dir: Option<Result<Option<String>, ProxyError>>,
    pub parent_certificates: Option<Option<Vec<u8>>>,
    pub ca_settled: bool,
    pub runtime: Option<Result<(), String>>,
    pub approvals: Option<Result<(), ProxyError>>,
    pub started: Option<Result<StartedProxy, String>>,
    pub mode_set: bool,
    pub bundle: BundleAnswers,
}

/// What has been done so far to let the sandbox read the certificates: the first three on macOS,
/// the last elsewhere.
#[derive(Debug, Clone, Default, PartialEq, Eq)]
pub struct BundleAnswers {
    pub escaped_path: Option<Result<String, ProxyError>>,
    pub data_rule: Option<Result<(), ProxyError>>,
    pub metadata_rule: Option<Result<(), ProxyError>>,
    pub read_grant: Option<Result<(), String>>,
}

/// What a session has of its proxy.
#[derive(Debug, PartialEq, Eq)]
pub struct ActiveProxyRuntime {
    /// The variables that every program of the session gets.
    pub env_vars: Vec<(String, String)>,
    /// The variables that tool sandboxes get, by credential.
    pub tool_sandbox_credential_env_vars: NameMap<Vec<(String, String)>>,
    /// The certificates that tool sandboxes are to trust.
    pub tool_sandbox_trust_bundle_paths: Vec<String>,
}

/// What an `ActiveProxyRuntime` holds.
#[verifier::ext_equal]
pub struct RuntimeView {
    pub env_vars: Seq<(Seq<char>, Seq<char>)>,
    pub tool_sandbox_credential_env_vars: Map<Seq<char>, Seq<(Seq<char>, Seq<char>)>>,
    pub tool_sandbox_trust_bundle_paths: Seq<Seq<char>>,
}

impl DeepView for ActiveProxyRuntime {
    type V = RuntimeView;

    open spec fn deep_view(&self) -> RuntimeView {
        RuntimeView {
            env_vars: self.env_vars.deep_view(),
            tool_sandbox_credential_env_vars: self.tool_sandbox_credential_env_vars.deep_view(),
            tool_sandbox_trust_bundle_paths: self.tool_sandbox_trust_bundle_paths.deep_view(),
        }
    }
}

/// A session without a proxy.
pub open spec fn no_runtime() -> RuntimeView {
    RuntimeView {
        env_vars: seq![],
        tool_sandbox_credential_env_vars: Map::empty(),
        tool_sandbox_trust_bundle_paths: seq![],
    }
}

/// What an answer comes to whose error is the host's own text: that text, after `before`.
pub open spec fn answered_start<T>(
    answer: Option<Result<T, String>>,
    request: StartRequestView,
    before: Seq<char>,
) -> Result<T, HaltView<StartRequestView>> {
    match answer {
        None => Err(HaltView::Ask(request)),
        Some(Ok(value)) => Ok(value),
        Some(Err(cause)) => Err(HaltView::Failed(error::start_fault(before, cause@))),
    }
}

fn take_start<'a, T>(
    answer: Option<Result<T, String>>,
    request: StartRequest<'a>,
    before: &str,
) -> (value: Result<T, Halt<StartRequest<'a>>>)
    ensures
        host::told(value) == answered_start(answer, request.deep_view(), before@),
{
    match answer {
        None => Err(Halt::Ask(request)),
        Some(Ok(value)) => Ok(value),
        Some(Err(cause)) => Err(Halt::Failed(error::start_error(before, cause.as_str()))),
    }
}

/// What intercepting TLS adds to the settings: the directory, where there is one, and with it the
/// certificates that the surrounding process trusts.
pub open spec fn with_interception(
    base: ProxyConfigView,
    answers: StartAnswers,
) -> Result<ProxyConfigView, HaltView<StartRequestView>> {
    match host::answered(answers.intercept_dir, StartRequestView::PrepareInterceptDir) {
        Err(halt) => Err(halt),
        Ok(None) => Ok(base),
        Ok(Some(dir)) => match answers.parent_certificates {
            None => Err(HaltView::Ask(StartRequestView::ReadParentCertificates)),
            Some(pems) => Ok(
                ProxyConfigView {
                    intercept_ca_dir: Some(dir@),
                    intercept_parent_ca_pems: pems.deep_view(),
                    ..base
                },
            ),
        },
    }
}

/// What is to be done about an authority that the system is to trust: on macOS it is loaded where
/// TLS is intercepted, and the user hears that it has no effect where it is not.
pub open spec fn authority_request(
    platform: Platform,
    trust_proxy_ca: bool,
    validity: Option<TimeSpan>,
    intercepted: bool,
) -> Option<StartRequestView> {
    if platform is MacOs && trust_proxy_ca {
        Some(
            if intercepted {
                StartRequestView::LoadProxyCa { validity }
            } else {
                StartRequestView::WarnTrustIgnored
            },
        )
    } else {
        None
    }
}

/// The settings that the proxy is started with, with what has been done so far: they are built
/// from the launch options, the sandbox's own ports are let through, and the interception of TLS
/// is settled.
pub open spec fn start_config(
    proxy: ProxyLaunchOptions,
    connect_ports: Seq<u16>,
    platform: Platform,
    answers: StartAnswers,
) -> Result<ProxyConfigView, HaltView<StartRequestView>> {
    match config_build::config_plan(proxy.deep_view(), answers.policy) {
        Err(HaltView::Failed(error)) => Err(HaltView::Failed(error)),
        Err(HaltView::Ask(request)) => Err(HaltView::Ask(StartRequestView::Policy(request))),
        Ok(base) => match with_interception(
            ProxyConfigView { direct_connect_ports: connect_ports, ..base },
            answers,
        ) {
            Err(halt) => Err(halt),
            Ok(config) => {
                let authority = authority_request(
                    platform,
                    proxy.trust_proxy_ca,
                    proxy.proxy_ca_validity,
                    config.intercept_ca_dir is Some,
                );
                if authority is Some && !answers.ca_settled {
                    Err(HaltView::Ask(authority->0))
                } else {
                    Ok(config)
                }
            },
        },
    }
}

/// The proxy that `config` starts, with what has been done so far. Its requests for approval are
/// decided on under `policies`.
pub open spec fn start_outcome(
    policies: Option<CommandPoliciesConfig>,
    config: ProxyConfigView,
    answers: StartAnswers,
) -> Result<StartedProxy, HaltView<StartRequestView>> {
    match answered_start(
        answers.runtime,
        StartRequestView::BuildRuntime,
        "Failed to start proxy runtime: "@,
    ) {
        Err(halt) => Err(halt),
        Ok(_) => match host::answered(
            answers.approvals,
            StartRequestView::BuildApprovalRegistry { policies },
        ) {
            Err(halt) => Err(halt),
            Ok(_) => answered_start(
                answers.started,
                StartRequestView::StartProxy { config },
                "Failed to start proxy: "@,
            ),
        },
    }
}

/// The rule of macOS's sandbox that allows `action` on the file at `escaped`.
pub open spec fn literal_rule(action: Seq<char>, escaped: Seq<char>) -> Seq<char> {
    "(allow "@ + action + " (literal \""@ + escaped + "\"))"@
}

fn write_literal_rule(action: &str, escaped: &str) -> (rule: String)
    ensures
        rule@ == literal_rule(action@, escaped@),
{
    let mut rule = "(allow ".to_owned();
    rule.append(action);
    rule.append(" (literal \"");
    rule.append(escaped);
    rule.append("\"))");
    rule
}

/// How the sandbox gets to read the certificates at `path`. On macOS the rules name the two
/// actions, as a rule on the actions together would yield to the one that denies them.
pub open spec fn bundle_outcome(
    platform: Platform,
    path: Seq<char>,
    answers: BundleAnswers,
) -> Result<(), HaltView<StartRequestView>> {
    match platform {
        Platform::MacOs => match host::answered(
            answers.escaped_path,
            StartRequestView::EscapePath { path },
        ) {
            Err(halt) => Err(halt),
            Ok(escaped) => match host::answered(
                answers.data_rule,
                StartRequestView::AddPlatformRule {
                    action: BundleAction::ReadData,
                    rule: literal_rule("file-read-data"@, escaped@),
                },
            ) {
                Err(halt) => Err(halt),
                Ok(_) => host::answered(
                    answers.metadata_rule,
                    StartRequestView::AddPlatformRule {
                        action: BundleAction::ReadMetadata,
                        rule: literal_rule("file-read-metadata"@, escaped@),
                    },
                ),
            },
        },
        Platform::Other => answered_start(
            answers.read_grant,
            StartRequestView::AllowRead { path },
            error::quoting("Failed to grant read capability on TLS-intercept bundle "@, path, ": "@),
        ),
    }
}

fn grant_bundle<'a>(platform: Platform, path: &String, answers: BundleAnswers) -> (granted: Result<
    (),
    Halt<StartRequest<'a>>,
>)
    ensures
        host::told(granted) == bundle_outcome(platform, path@, answers),
{
    match platform {
        Platform::MacOs => {
            let escaped = host::take_answer(
                answers.escaped_path,
                StartRequest::EscapePath { path: path.clone() },
            )?;
            host::take_answer(
                answers.data_rule,
                StartRequest::AddPlatformRule {
                    action: BundleAction::ReadData,
                    rule: write_literal_rule("file-read-data", escaped.as_str()),
                },
            )?;
            host::take_answer(
                answers.metadata_rule,
                StartRequest::AddPlatformRule {
                    action: BundleAction::ReadMetadata,
                    rule: write_literal_rule("file-read-metadata", escaped.as_str()),
                },
            )
        },
        Platform::Other => {
            let before = error::quote(
                "Failed to grant read capability on TLS-intercept bundle ",
                path.as_str(),
                ": ",
            );
            take_start(
                answers.read_grant,
                StartRequest::AllowRead { path: path.clone() },
                before.as_str(),
            )
        },
    }
}

/// Those of `vars` whose name is not in `hidden`, in order.
pub open spec fn visible(
    vars: Seq<(Seq<char>, Seq<char>)>,
    hidden: Set<Seq<char>>,
) -> Seq<(Seq<char>, Seq<char>)> {
    vars.filter(|var: (Seq<char>, Seq<char>)| !hidden.contains(var.0))
}

/// Adds those of `more` to `vars` whose name is not in `hidden`.
fn extend_visible(
    vars: &mut Vec<(String, String)>,
    more: Vec<(String, String)>,
    hidden: &NameSet,
)
    ensures
        final(vars).deep_view() == old(vars).deep_view() + visible(
            more.deep_view(),
            hidden.deep_view(),
        ),
{
    let ghost start = vars.deep_view();
    let ghost all = more.deep_view();
    let ghost keep = |var: (Seq<char>, Seq<char>)| !hidden.deep_view().contains(var.0);
    let mut i: usize = 0;
    assert(all.take(0).filter(keep) =~= seq![]) by {
        reveal(Seq::filter);
    }
    assert(start + all.take(0).filter(keep) =~= start);
    while i < more.len()
        invariant
            i <= more@.len(),
            all == more.deep_view(),
            keep == (|var: (Seq<char>, Seq<char>)| !hidden.deep_view().contains(var.0)),
            vars.deep_view() == start + all.take(i as int).filter(keep),
        decreases more@.len() - i,
    {
        let ghost before = vars.deep_view();
        let var = &more[i];
        let ghost this = (var.0@, var.1@);
        assert(this == all[i as int]);
        assert(all.take(i + 1).filter(keep) =~= if keep(this) {
            all.take(i as int).filter(keep).push(this)
        } else {
            all.take(i as int).filter(keep)
        }) by {
            reveal(Seq::filter);
            assert(all.take(i + 1).drop_last() =~= all.take(i as int));
            assert(all.take(i + 1).last() == this);
        }
        if !hidden.contains(var.0.as_str()) {
            vars.push((var.0.clone(), var.1.clone()));
            assert(vars.deep_view() =~= before.push(this));
        }
        assert(vars.deep_view() =~= start + all.take(i + 1).filter(keep));
        i = i + 1;
    }
    assert(all.take(i as int) =~= all);
}

/// What the session has of the proxy that `config` started: every program is led to the proxy and
/// gets the variables of its credentials, but for those that belong to tool sandboxes.
pub open spec fn session_runtime(
    proxy: ProxyLaunchOptions,
    config: ProxyConfigView,
    started: StartedProxy,
) -> Result<RuntimeView, ErrorView> {
    match credential_env::scoped_result(
        proxy.deep_view(),
        config.routes,
        started.credential_env_vars.deep_view(),
        started.port,
        proxy.tool_sandbox_proxy_credentials.listed(),
    ) {
        Err(error) => Err(error),
        Ok(scoped) => Ok(
            RuntimeView {
                env_vars: started.env_vars.deep_view() + visible(
                    started.credential_env_vars.deep_view(),
                    credential_env::tool_sandbox_variables(proxy.deep_view(), config.routes),
                ),
                tool_sandbox_credential_env_vars: scoped,
                tool_sandbox_trust_bundle_paths: match started.intercept_ca_path {
                    Some(path) => seq![path@],
                    None => seq![],
                },
            },
        ),
    }
}

/// Settles what the session has of the proxy that `config` started.
pub fn settle_runtime(
    proxy: &ProxyLaunchOptions,
    config: &ProxyConfig,
    started: StartedProxy,
) -> (runtime: Result<ActiveProxyRuntime, ProxyError>)
    ensures
        session_runtime(*proxy, config.deep_view(), started) == (match runtime {
            Ok(runtime) => Ok(runtime.deep_view()),
            Err(error) => Err(error.deep_view()),
        }),
{
    let ghost given = started;
    let mut paths: Vec<String> = Vec::new();
    if let Some(path) = started.intercept_ca_path {
        paths.push(path);
    }
    assert(paths.deep_view() =~= match given.intercept_ca_path {
        Some(path) => seq![path@],
        None => seq![],
    });
    let mut env_vars = started.env_vars;
    let scoped = credential_env::scoped_tool_sandbox_proxy_credential_env_vars(
        proxy,
        config,
        &started.credential_env_vars,
        started.port,
    )?;
    let names = credential_env::tool_sandbox_proxy_env_var_names(proxy, config);
    extend_visible(&mut env_vars, started.credential_env_vars, &names);
    Ok(
        ActiveProxyRuntime {
            env_vars,
            tool_sandbox_credential_env_vars: scoped,
            tool_sandbox_trust_bundle_paths: paths,
        },
    )
}

/// What starting the proxy comes to while its secrets are in the environment, with what has been
/// done so far. The sandbox is confined to the proxy as soon as the proxy runs, and before
/// anything can fail after that.
pub open spec fn session_plan(
    proxy: ProxyLaunchOptions,
    connect_ports: Seq<u16>,
    platform: Platform,
    answers: StartAnswers,
) -> Result<RuntimeView, HaltView<StartRequestView>> {
    match start_config(proxy, connect_ports, platform, answers) {
        Err(halt) => Err(halt),
        Ok(config) => match start_outcome(proxy.deep_view().command_policies, config, answers) {
            Err(halt) => Err(halt),
            Ok(started) => if !answers.mode_set {
                Err(
                    HaltView::Ask(
                        StartRequestView::SetNetworkMode {
                            mode: NetworkModeView::ProxyOnly {
                                port: started.port,
                                bind_ports: proxy.allow_bind_ports@,
                            },
                        },
                    ),
                )
            } else {
                let granted = match started.intercept_ca_path {
                    Some(path) => bundle_outcome(platform, path@, answers.bundle),
                    None => Ok(()),
                };
                match granted {
                    Err(halt) => Err(halt),
                    Ok(_) => match session_runtime(proxy, config, started) {
                        Ok(runtime) => Ok(runtime),
                        Err(error) => Err(HaltView::Failed(error)),
                    },
                }
            },
        },
    }
}

/// What starting the proxy comes to, with what has been done so far. A proxy that is not wanted is
/// not started. Else its secrets are put into the environment first of all, and what was there is
/// put back at the end, whether starting succeeds or fails.
pub open spec fn start_plan(
    proxy: ProxyLaunchOptions,
    connect_ports: Seq<u16>,
    platform: Platform,
    answers: StartAnswers,
) -> Result<RuntimeView, HaltView<StartRequestView>> {
    if !proxy.active {
        Ok(no_runtime())
    } else if !answers.source_env_set {
        Err(
            HaltView::Ask(
                StartRequestView::SetSourceEnv { vars: proxy.proxy_source_env_vars.deep_view() },
            ),
        )
    } else {
        let outcome = session_plan(proxy, connect_ports, platform, answers);
        if !(outcome matches Err(HaltView::Ask(_))) && !answers.source_env_restored {
            Err(HaltView::Ask(StartRequestView::RestoreSourceEnv))
        } else {
            outcome
        }
    }
}

/// Starts the proxy while its secrets are in the environment.
fn start_session<'a>(
    proxy: &ProxyLaunchOptions<'a>,
    connect_ports: &Vec<u16>,
    platform: Platform,
    answers: StartAnswers,
) -> (runtime: Result<ActiveProxyRuntime, Halt<StartRequest<'a>>>)
    ensures
        host::told_deep(runtime) == session_plan(*proxy, connect_ports@, platform, answers),
{
    let ghost given = answers;
    let mut config = match config_build::build_proxy_config_from_flags(proxy, answers.policy) {
        Ok(config) => config,
        Err(Halt::Failed(error)) => {
            return Err(Halt::Failed(error));
        },
        Err(Halt::Ask(request)) => {
            return Err(Halt::Ask(StartRequest::Policy(request)));
        },
    };
    config.direct_connect_ports = connect_ports.deep_clone();
    assert(config.direct_connect_ports@ =~= connect_ports@) by {
        assert(config.direct_connect_ports.deep_view() == connect_ports.deep_view());
        assert(config.direct_connect_ports.deep_view() =~= config.direct_connect_ports@);
        assert(connect_ports.deep_view() =~= connect_ports@);
    }
    if let Some(dir) = host::take_answer(answers.intercept_dir, StartRequest::PrepareInterceptDir)? {
        match answers.parent_certificates {
            None => {
                return Err(Halt::Ask(StartRequest::ReadParentCertificates));
            },
            Some(pems) => {
                config.intercept_ca_dir = Some(dir);
                config.intercept_parent_ca_pems = pems;
            },
        }
    }
    assert(Ok::<_, HaltView<StartRequestView>>(config.deep_view()) == with_interception(
        ProxyConfigView {
            direct_connect_ports: connect_ports@,
            ..config_build::config_plan(proxy.deep_view(), given.policy)->Ok_0
        },
        given,
    ));
    if let Platform::MacOs = platform {
        if proxy.trust_proxy_ca && !answers.ca_settled {
            if config.intercept_ca_dir.is_some() {
                return Err(
                    Halt::Ask(StartRequest::LoadProxyCa { validity: proxy.proxy_ca_validity }),
                );
            } else {
                return Err(Halt::Ask(StartRequest::WarnTrustIgnored));
            }
        }
    }
    take_start(
        answers.runtime,
        StartRequest::BuildRuntime,
        "Failed to start proxy runtime: ",
    )?;
    host::take_answer(
        answers.approvals,
        StartRequest::BuildApprovalRegistry { policies: proxy.command_policies },
    )?;
    let started = match answers.started {
        None => {
            return Err(Halt::Ask(StartRequest::StartProxy { config }));
        },
        Some(Err(cause)) => {
            return Err(
                Halt::Failed(error::start_error("Failed to start proxy: ", cause.as_str())),
            );
        },
        Some(Ok(started)) => started,
    };
    if !answers.mode_set {
        let bind_ports = proxy.allow_bind_ports.deep_clone();
        assert(bind_ports@ =~= proxy.allow_bind_ports@) by {
            assert(bind_ports.deep_view() =~= bind_ports@);
            assert(proxy.allow_bind_ports.deep_view() =~= proxy.allow_bind_ports@);
        }
        return Err(
            Halt::Ask(
                StartRequest::SetNetworkMode {
                    mode: NetworkMode::ProxyOnly { port: started.port, bind_ports },
                },
            ),
        );
    }
    if let Some(path) = &started.intercept_ca_path {
        grant_bundle(platform, path, answers.bundle)?;
    }
    match settle_runtime(proxy, &config, started) {
        Ok(runtime) => Ok(runtime),
        Err(error) => Err(Halt::Failed(error)),
    }
}

/// Starts the proxy of a session, where it is to have one. `connect_ports` are the ports that the
/// sandbox may connect to without the proxy.
pub fn start_proxy_runtime<'a>(
    proxy: &ProxyLaunchOptions<'a>,
    connect_ports: &Vec<u16>,
    platform: Platform,
    answers: StartAnswers,
) -> (runtime: Result<ActiveProxyRuntime, Halt<StartRequest<'a>>>)
    ensures
        host::told_deep(runtime) == start_plan(*proxy, connect_ports@, platform, answers),
{
    if !proxy.active {
        let runtime = ActiveProxyRuntime {
            env_vars: Vec::new(),
            tool_sandbox_credential_env_vars: NameMap::new(),
            tool_sandbox_trust_bundle_paths: Vec::new(),
        };
        assert(runtime.deep_view() =~= no_runtime());
        return Ok(runtime);
    }
    if !answers.source_env_set {
        return Err(
            Halt::Ask(
                StartRequest::SetSourceEnv { vars: proxy.proxy_source_env_vars.deep_clone() },
            ),
        );
    }
    let restored = answers.source_env_restored;
    let outcome = start_session(proxy, connect_ports, platform, answers);
    let asks = match &outcome {
        Err(Halt::Ask(_)) => true,
        _ => false,
    };
    if !asks && !restored {
        return Err(Halt::Ask(StartRequest::RestoreSourceEnv));
    }
    outcome
}

/// A proxy that is not wanted asks for nothing and leaves no trace in the session.
pub proof fn lemma_unwanted_proxy_leaves_no_trace(
    proxy: ProxyLaunchOptions,
    connect_ports: Seq<u16>,
    platform: Platform,
    answers: StartAnswers,
)
    ensures
        !proxy.active ==> start_plan(proxy, connect_ports, platform, answers) == Ok::<
            RuntimeView,
            HaltView<StartRequestView>,
        >(no_runtime()),
{
}

/// A wanted proxy finds its secrets in the environment before anything else is done, and starting
/// it neither succeeds nor fails before the environment is put back.
pub proof fn lemma_secrets_leave_the_environment(
    proxy: ProxyLaunchOptions,
    connect_ports: Seq<u16>,
    platform: Platform,
    answers: StartAnswers,
)
    requires
        proxy.active,
    ensures
        !answers.source_env_set ==> start_plan(proxy, connect_ports, platform, answers) == Err::<
            RuntimeView,
            HaltView<StartRequestView>,
        >(
            HaltView::Ask(
                StartRequestView::SetSourceEnv { vars: proxy.proxy_source_env_vars.deep_view() },
            ),
        ),
        !(start_plan(proxy, connect_ports, platform, answers) matches Err(HaltView::Ask(_)))
            ==> answers.source_env_set && answers.source_env_restored,
{
}

/// Once the proxy runs, the sandbox is confined to its port before anything else happens: nothing
/// else is asked for, fails or succeeds before that.
pub proof fn lemma_running_proxy_confines_first(
    proxy: ProxyLaunchOptions,
    connect_ports: Seq<u16>,
    platform: Platform,
    answers: StartAnswers,
    config: ProxyConfigView,
    started: StartedProxy,
)
    requires
        proxy.active,
        answers.source_env_set,
        start_config(proxy, connect_ports, platform, answers) == Ok::<
            ProxyConfigView,
            HaltView<StartRequestView>,
        >(config),
        start_outcome(proxy.deep_view().command_policies, config, answers) == Ok::<
            StartedProxy,
            HaltView<StartRequestView>,
        >(started),
    ensures
        answers.mode_set || start_plan(proxy, connect_ports, platform, answers) == Err::<
            RuntimeView,
            HaltView<StartRequestView>,
        >(
            HaltView::Ask(
                StartRequestView::SetNetworkMode {
                    mode: NetworkModeView::ProxyOnly {
                        port: started.port,
                        bind_ports: proxy.allow_bind_ports@,
                    },
                },
            ),
        ),
{
}

/// Starting a wanted proxy succeeds only where the proxy runs and the sandbox is confined to it,
/// and where the sandbox can read the certificates, if TLS is intercepted.
pub proof fn lemma_success_means_confined(
    proxy: ProxyLaunchOptions,
    connect_ports: Seq<u16>,
    platform: Platform,
    answers: StartAnswers,
)
    requires
        proxy.active,
        start_plan(proxy, connect_ports, platform, answers) is Ok,
    ensures
        answers.mode_set,
        answers.started matches Some(Ok(started)) && (started.intercept_ca_path matches Some(path)
            ==> bundle_outcome(platform, path@, answers.bundle) is Ok),
{
}

/// The proxy is started with a filter exactly as strict as the launch options ask for, and lets
/// the sandbox's own ports through.
pub proof fn lemma_proxy_starts_as_asked(
    proxy: ProxyLaunchOptions,
    connect_ports: Seq<u16>,
    platform: Platform,
    answers: StartAnswers,
)
    ensures
        start_config(proxy, connect_ports, platform, answers) matches Ok(config) ==> {
            &&& config.strict_filter == proxy.network_block
            &&& config.direct_connect_ports == connect_ports
            &&& proxy.proxy_port matches Some(port) ==> config.bind_port == port
        },
{
}

proof fn lemma_visible_is_not_hidden(vars: Seq<(Seq<char>, Seq<char>)>, hidden: Set<Seq<char>>)
    ensures
        forall|i: int|
            0 <= i < visible(vars, hidden).len() ==> !hidden.contains(
                (#[trigger] visible(vars, hidden)[i]).0,
            ),
    decreases vars.len(),
{
    let keep = |var: (Seq<char>, Seq<char>)| !hidden.contains(var.0);
    reveal(Seq::filter);
    if vars.len() > 0 {
        lemma_visible_is_not_hidden(vars.drop_last(), hidden);
        let rest = vars.drop_last().filter(keep);
        assert(visible(vars.drop_last(), hidden) == rest);
        assert(visible(vars, hidden) == if keep(vars.last()) {
            rest.push(vars.last())
        } else {
            rest
        });
    }
}

/// A variable that a tool sandbox gets for one of its credentials does not reach the other
/// programs of the session by way of the proxy's credentials.
pub proof fn lemma_scoped_variables_stay_scoped(
    proxy: ProxyLaunchOptions,
    config: ProxyConfigView,
    started: StartedProxy,
    credential: Seq<char>,
)
    requires
        session_runtime(proxy, config, started) is Ok,
        proxy.deep_view().tool_sandbox_proxy_credentials.contains(credential),
    ensures
        ({
            let runtime = session_runtime(proxy, config, started)->Ok_0;
            let own = runtime.tool_sandbox_credential_env_vars[credential];
            let shared = visible(
                started.credential_env_vars.deep_view(),
                credential_env::tool_sandbox_variables(proxy.deep_view(), config.routes),
            );
            &&& runtime.env_vars == started.env_vars.deep_view() + shared
            &&& runtime.tool_sandbox_credential_env_vars.contains_key(credential)
            &&& forall|i: int, j: int|
                0 <= i < own.len() && 0 <= j < shared.len() ==> (#[trigger] own[i]).0 != (
                #[trigger] shared[j]).0
        }),
{
    let view = proxy.deep_view();
    let vars = started.credential_env_vars.deep_view();
    let listed = proxy.tool_sandbox_proxy_credentials.listed();
    let hidden = credential_env::tool_sandbox_variables(view, config.routes);
    credential_env::lemma_scoping_serves_all(view, config.routes, vars, started.port, listed);
    proxy.tool_sandbox_proxy_credentials.lemma_lists_its_names();
    assert(listed.to_set().contains(credential));
    assert(listed[listed.index_of(credential)] == credential);
    credential_env::lemma_scoped_variables_are_kept_back(
        view,
        config.routes,
        vars,
        started.port,
        credential,
    );
    lemma_visible_is_not_hidden(vars, hidden);
}

/// What is visible grows by one variable at a time: of no variables none is, and a variable more
/// is, behind the others, exactly where its name is not hidden. Where nothing is hidden all of
/// them are, as they stand.
pub proof fn lemma_visible_is_all_but_the_hidden(
    vars: Seq<(Seq<char>, Seq<char>)>,
    var: (Seq<char>, Seq<char>),
    hidden: Set<Seq<char>>,
)
    ensures
        visible(Seq::empty(), hidden).len() == 0,
        visible(vars.push(var), hidden) == if hidden.contains(var.0) {
            visible(vars, hidden)
        } else {
            visible(vars, hidden).push(var)
        },
        visible(vars, hidden).contains(var) <==> vars.contains(var) && !hidden.contains(var.0),
        (forall|name: Seq<char>| !hidden.contains(name)) ==> visible(vars, hidden) == vars,
    decreases vars.len(),
{
    reveal(Seq::filter);
    assert(vars.push(var).drop_last() =~= vars);
    if vars.len() > 0 {
        let front = vars.drop_last();
        let last = vars.last();
        assert(vars =~= front.push(last));
        lemma_visible_is_all_but_the_hidden(front, var, hidden);
        let before = visible(front, hidden);
        assert(visible(vars, hidden) == if hidden.contains(last.0) {
            before
        } else {
            before.push(last)
        });
        if vars.contains(var) && !hidden.contains(var.0) {
            let i = vars.index_of(var);
            if i < front.len() {
                assert(front[i] == var);
                let k = before.index_of(var);
                assert(visible(vars, hidden)[k] == var);
            } else {
                assert(visible(vars, hidden).last() == var);
            }
        }
        if visible(vars, hidden).contains(var) {
            let k = visible(vars, hidden).index_of(var);
            if k < before.len() {
                assert(before[k] == var);
                let i = front.index_of(var);
                assert(vars[i] == var);
            } else {
                assert(vars[vars.len() - 1] == var);
            }
        }
        if forall|name: Seq<char>| !hidden.contains(name) {
            assert(!hidden.contains(last.0));
        }
    } else {
        assert(visible(vars, hidden) =~= vars);
    }
}

/// The programs of a session get the proxy's own variables first, as they stand, and behind them,
/// in their order, exactly those variables of its credentials that belong to no tool sandbox:
/// each such variable is there with its value, and no other is. Where no tool sandbox is granted a
/// credential that is all of them. Tool sandboxes are to trust the certificates that TLS is
/// intercepted with, if it is.
pub proof fn lemma_session_gets_what_no_tool_sandbox_has(
    proxy: ProxyLaunchOptions,
    config: ProxyConfigView,
    started: StartedProxy,
)
    ensures
        session_runtime(proxy, config, started) matches Ok(runtime) ==> {
            let own = started.env_vars.deep_view();
            let of_credentials = started.credential_env_vars.deep_view();
            let kept = credential_env::tool_sandbox_variables(proxy.deep_view(), config.routes);
            let shared = runtime.env_vars.skip(own.len() as int);
            &&& own.len() <= runtime.env_vars.len()
            &&& runtime.env_vars.take(own.len() as int) == own
            &&& shared == visible(of_credentials, kept)
            &&& forall|var: (Seq<char>, Seq<char>)| #[trigger]
                shared.contains(var) <==> of_credentials.contains(var) && !kept.contains(var.0)
            &&& (forall|name: Seq<char>|
                !proxy.deep_view().tool_sandbox_proxy_credentials.contains(name))
                ==> runtime.env_vars == own + of_credentials
            &&& match started.intercept_ca_path {
                Some(path) => runtime.tool_sandbox_trust_bundle_paths.len() == 1
                    && runtime.tool_sandbox_trust_bundle_paths[0] == path@,
                None => runtime.tool_sandbox_trust_bundle_paths.len() == 0,
            }
        },
{
    if let Ok(runtime) = session_runtime(proxy, config, started) {
        let own = started.env_vars.deep_view();
        let of_credentials = started.credential_env_vars.deep_view();
        let kept = credential_env::tool_sandbox_variables(proxy.deep_view(), config.routes);
        let shared = runtime.env_vars.skip(own.len() as int);
        assert(runtime.env_vars.take(own.len() as int) =~= own);
        assert(shared =~= visible(of_credentials, kept));
        assert forall|var: (Seq<char>, Seq<char>)| #[trigger]
            shared.contains(var) <==> of_credentials.contains(var) && !kept.contains(var.0) by {
            lemma_visible_is_all_but_the_hidden(of_credentials, var, kept);
        }
        if forall|name: Seq<char>|
            !proxy.deep_view().tool_sandbox_proxy_credentials.contains(name) {
            assert forall|name: Seq<char>| !kept.contains(name) by {}
            lemma_visible_is_all_but_the_hidden(of_credentials, (seq![], seq![]), kept);
        }
    }
}

/// The variables of each tool sandbox's credentials are those that scoping gives it.
pub proof fn lemma_session_gives_each_sandbox_its_own(
    proxy: ProxyLaunchOptions,
    config: ProxyConfigView,
    started: StartedProxy,
)
    ensures
        ({
            let scoped = credential_env::scoped_result(
                proxy.deep_view(),
                config.routes,
                started.credential_env_vars.deep_view(),
                started.port,
                proxy.tool_sandbox_proxy_credentials.listed(),
            );
            &&& session_runtime(proxy, config, started) is Ok <==> scoped is Ok
            &&& session_runtime(proxy, config, started) matches Ok(runtime)
                ==> runtime.tool_sandbox_credential_env_vars == scoped->Ok_0
            &&& session_runtime(proxy, config, started) matches Err(error) ==> error
                == scoped->Err_0
        }),
{
}

/// The proxy is started with the settings that the policy and the launch options make, with these
/// changes alone: the sandbox's own ports are let through; and where there is a directory for
/// intercepting TLS, that one, with the certificates that the surrounding process trusts.
pub proof fn lemma_start_settings_change_nothing_else(
    proxy: ProxyLaunchOptions,
    connect_ports: Seq<u16>,
    platform: Platform,
    answers: StartAnswers,
)
    ensures
        start_config(proxy, connect_ports, platform, answers) matches Ok(config) ==> {
            &&& config_build::config_plan(proxy.deep_view(), answers.policy) matches Ok(base)
            &&& answers.intercept_dir matches Some(Ok(dir))
            &&& config.direct_connect_ports == connect_ports
            &&& config.routes == base.routes
            &&& config.strict_filter == base.strict_filter
            &&& config.external_proxy == base.external_proxy
            &&& config.bind_port == base.bind_port
            &&& config.ca_validity == base.ca_validity
            &&& config.leaf_validity == base.leaf_validity
            &&& dir is None ==> config.intercept_ca_dir == base.intercept_ca_dir
                && config.intercept_parent_ca_pems == base.intercept_parent_ca_pems
            &&& dir matches Some(dir) ==> {
                &&& config.intercept_ca_dir == Some(dir@)
                &&& answers.parent_certificates matches Some(pems)
                &&& config.intercept_parent_ca_pems == pems.deep_view()
            }
        },
{
}

/// Before the proxy starts, the directory is asked for once the settings are made, then the
/// certificates of the surrounding process where there is a directory, and then, on macOS and
/// where the authority is to be trusted, for the authority with its length of time where TLS is
/// intercepted, and for a warning where it is not. What is refused is what starting fails with.
pub proof fn lemma_interception_is_settled_in_order(
    proxy: ProxyLaunchOptions,
    connect_ports: Seq<u16>,
    platform: Platform,
    answers: StartAnswers,
)
    ensures
        ({
            let outcome = start_config(proxy, connect_ports, platform, answers);
            let built = config_build::config_plan(proxy.deep_view(), answers.policy);
            let trusts = platform is MacOs && proxy.trust_proxy_ca && !answers.ca_settled;
            &&& built matches Err(HaltView::Failed(error)) ==> outcome == Err::<
                ProxyConfigView,
                HaltView<StartRequestView>,
            >(HaltView::Failed(error))
            &&& built matches Err(HaltView::Ask(request)) ==> outcome == Err::<
                ProxyConfigView,
                HaltView<StartRequestView>,
            >(HaltView::Ask(StartRequestView::Policy(request)))
            &&& built matches Ok(base) ==> {
                &&& answers.intercept_dir is None ==> outcome == Err::<
                    ProxyConfigView,
                    HaltView<StartRequestView>,
                >(HaltView::Ask(StartRequestView::PrepareInterceptDir))
                &&& answers.intercept_dir matches Some(Err(error)) ==> outcome == Err::<
                    ProxyConfigView,
                    HaltView<StartRequestView>,
                >(HaltView::Failed(error.deep_view()))
                &&& answers.intercept_dir matches Some(Ok(Some(_))) ==> {
                    &&& answers.parent_certificates is None ==> outcome == Err::<
                        ProxyConfigView,
                        HaltView<StartRequestView>,
                    >(HaltView::Ask(StartRequestView::ReadParentCertificates))
                    &&& answers.parent_certificates is Some ==> if trusts {
                        outcome == Err::<ProxyConfigView, HaltView<StartRequestView>>(
                            HaltView::Ask(
                                StartRequestView::LoadProxyCa { validity: proxy.proxy_ca_validity },
                            ),
                        )
                    } else {
                        outcome is Ok
                    }
                }
                &&& answers.intercept_dir matches Some(Ok(None)) ==> if trusts {
                    outcome == Err::<ProxyConfigView, HaltView<StartRequestView>>(
                        HaltView::Ask(
                            if base.intercept_ca_dir is Some {
                                StartRequestView::LoadProxyCa { validity: proxy.proxy_ca_validity }
                            } else {
                                StartRequestView::WarnTrustIgnored
                            },
                        ),
                    )
                } else {
                    outcome is Ok
                }
            }
        }),
{
}

/// The proxy starts in three steps: what it runs on, what decides on approvals under the launch
/// options' policies, and the proxy itself with its settings. What goes wrong with the first and
/// the last is told behind fixed words, and with the second as it is.
pub proof fn lemma_proxy_starts_in_three_steps(
    policies: Option<CommandPoliciesConfig>,
    config: ProxyConfigView,
    answers: StartAnswers,
)
    ensures
        ({
            let outcome = start_outcome(policies, config, answers);
            &&& answers.runtime is None ==> outcome == Err::<
                StartedProxy,
                HaltView<StartRequestView>,
            >(HaltView::Ask(StartRequestView::BuildRuntime))
            &&& answers.runtime matches Some(Err(cause)) ==> outcome == Err::<
                StartedProxy,
                HaltView<StartRequestView>,
            >(
                HaltView::Failed(
                    ErrorView::SandboxInit("Failed to start proxy runtime: "@ + cause@),
                ),
            )
            &&& answers.runtime matches Some(Ok(_)) ==> {
                &&& answers.approvals is None ==> outcome == Err::<
                    StartedProxy,
                    HaltView<StartRequestView>,
                >(HaltView::Ask(StartRequestView::BuildApprovalRegistry { policies }))
                &&& answers.approvals matches Some(Err(error)) ==> outcome == Err::<
                    StartedProxy,
                    HaltView<StartRequestView>,
                >(HaltView::Failed(error.deep_view()))
                &&& answers.approvals matches Some(Ok(_)) ==> {
                    &&& answers.started is None ==> outcome == Err::<
                        StartedProxy,
                        HaltView<StartRequestView>,
                    >(HaltView::Ask(StartRequestView::StartProxy { config }))
                    &&& answers.started matches Some(Err(cause)) ==> outcome == Err::<
                        StartedProxy,
                        HaltView<StartRequestView>,
                    >(
                        HaltView::Failed(
                            ErrorView::SandboxInit("Failed to start proxy: "@ + cause@),
                        ),
                    )
                    &&& answers.started matches Some(Ok(started)) ==> outcome == Ok::<
                        StartedProxy,
                        HaltView<StartRequestView>,
                    >(started)
                }
            }
        }),
{
}

/// The sandbox is let to read the certificates by two rules on macOS, one for each action, on the
/// path as the host writes it in rules, and by a grant on the path elsewhere; it is let to do so
/// only where all of that succeeded.
pub proof fn lemma_certificates_are_opened_to_the_sandbox(
    platform: Platform,
    path: Seq<char>,
    answers: BundleAnswers,
)
    ensures
        ({
            let outcome = bundle_outcome(platform, path, answers);
            &&& platform is MacOs ==> {
                &&& answers.escaped_path is None ==> outcome == Err::<
                    (),
                    HaltView<StartRequestView>,
                >(HaltView::Ask(StartRequestView::EscapePath { path }))
                &&& answers.escaped_path matches Some(Err(error)) ==> outcome == Err::<
                    (),
                    HaltView<StartRequestView>,
                >(HaltView::Failed(error.deep_view()))
                &&& answers.escaped_path matches Some(Ok(escaped)) ==> {
                    &&& answers.data_rule is None ==> outcome == Err::<
                        (),
                        HaltView<StartRequestView>,
                    >(
                        HaltView::Ask(
                            StartRequestView::AddPlatformRule {
                                action: BundleAction::ReadData,
                                rule: "(allow "@ + "file-read-data"@ + " (literal \""@ + escaped@
                                    + "\"))"@,
                            },
                        ),
                    )
                    &&& answers.data_rule matches Some(Err(error)) ==> outcome == Err::<
                        (),
                        HaltView<StartRequestView>,
                    >(HaltView::Failed(error.deep_view()))
                    &&& answers.data_rule matches Some(Ok(_)) ==> {
                        &&& answers.metadata_rule is None ==> outcome == Err::<
                            (),
                            HaltView<StartRequestView>,
                        >(
                            HaltView::Ask(
                                StartRequestView::AddPlatformRule {
                                    action: BundleAction::ReadMetadata,
                                    rule: "(allow "@ + "file-read-metadata"@ + " (literal \""@
                                        + escaped@ + "\"))"@,
                                },
                            ),
                        )
                        &&& answers.metadata_rule matches Some(Err(error)) ==> outcome == Err::<
                            (),
                            HaltView<StartRequestView>,
                        >(HaltView::Failed(error.deep_view()))
                    }
                }
                &&& outcome is Ok <==> (answers.escaped_path matches Some(Ok(_))) && (
                answers.data_rule matches Some(Ok(_))) && (answers.metadata_rule matches Some(
                    Ok(_),
                ))
            }
            &&& !(platform is MacOs) ==> {
                &&& answers.read_grant is None ==> outcome == Err::<
                    (),
                    HaltView<StartRequestView>,
                >(HaltView::Ask(StartRequestView::AllowRead { path }))
                &&& answers.read_grant matches Some(Err(cause)) ==> outcome == Err::<
                    (),
                    HaltView<StartRequestView>,
                >(
                    HaltView::Failed(
                        ErrorView::SandboxInit(
                            "Failed to grant read capability on TLS-intercept bundle "@ + "'"@
                                + path + "'"@ + ": "@ + cause@,
                        ),
                    ),
                )
                &&& outcome is Ok <==> (answers.read_grant matches Some(Ok(_)))
            }
        }),
{
}

/// Starting goes from one stage to the next, and what stops a stage stops it all: making the
/// settings, starting the proxy with them, confining the sandbox to the proxy's port and to the
/// ports that it may listen on, opening the certificates to it where TLS is intercepted, and
/// settling what the session gets. It succeeds with the last where nothing stops it.
pub proof fn lemma_start_goes_stage_by_stage(
    proxy: ProxyLaunchOptions,
    connect_ports: Seq<u16>,
    platform: Platform,
    answers: StartAnswers,
)
    ensures
        ({
            let plan = session_plan(proxy, connect_ports, platform, answers);
            let making = start_config(proxy, connect_ports, platform, answers);
            &&& making matches Err(halt) ==> plan == Err::<RuntimeView, HaltView<StartRequestView>>(
                halt,
            )
            &&& making matches Ok(config) ==> {
                let starting = start_outcome(
                    proxy.deep_view().command_policies,
                    config,
                    answers,
                );
                &&& starting matches Err(halt) ==> plan == Err::<
                    RuntimeView,
                    HaltView<StartRequestView>,
                >(halt)
                &&& starting matches Ok(started) ==> {
                    let opening = bundle_outcome(
                        platform,
                        started.intercept_ca_path->0@,
                        answers.bundle,
                    );
                    let settled = session_runtime(proxy, config, started);
                    &&& !answers.mode_set ==> plan == Err::<
                        RuntimeView,
                        HaltView<StartRequestView>,
                    >(
                        HaltView::Ask(
                            StartRequestView::SetNetworkMode {
                                mode: NetworkModeView::ProxyOnly {
                                    port: started.port,
                                    bind_ports: proxy.allow_bind_ports@,
                                },
                            },
                        ),
                    )
                    &&& answers.mode_set && started.intercept_ca_path is Some ==> (
                    opening matches Err(halt) ==> plan == Err::<
                        RuntimeView,
                        HaltView<StartRequestView>,
                    >(halt))
                    &&& answers.mode_set && (started.intercept_ca_path is None || opening is Ok)
                        ==> {
                        &&& settled matches Ok(runtime) ==> plan == Ok::<
                            RuntimeView,
                            HaltView<StartRequestView>,
                        >(runtime)
                        &&& settled matches Err(error) ==> plan == Err::<
                            RuntimeView,
                            HaltView<StartRequestView>,
                        >(HaltView::Failed(error))
                    }
                }
            }
        }),
{
}

/// A session without a proxy gets no variable from it, for no program and no tool sandbox, and
/// nothing to trust.
pub proof fn lemma_no_proxy_gives_nothing(
    proxy: ProxyLaunchOptions,
    connect_ports: Seq<u16>,
    platform: Platform,
    answers: StartAnswers,
)
    ensures
        !proxy.active ==> (start_plan(proxy, connect_ports, platform, answers) matches Ok(runtime)
            && {
            &&& runtime.env_vars.len() == 0
            &&& forall|name: Seq<char>|
                !(#[trigger] runtime.tool_sandbox_credential_env_vars.contains_key(name))
            &&& runtime.tool_sandbox_trust_bundle_paths.len() == 0
        }),
{
}

/// Between setting the environment and putting it back, a wanted proxy asks for exactly what its
/// session asks for; once the environment is put back it ends exactly as its session ends.
pub proof fn lemma_start_is_the_session_between(
    proxy: ProxyLaunchOptions,
    connect_ports: Seq<u16>,
    platform: Platform,
    answers: StartAnswers,
)
    requires
        proxy.active,
        answers.source_env_set,
    ensures
        ({
            let plan = start_plan(proxy, connect_ports, platform, answers);
            let session = session_plan(proxy, connect_ports, platform, answers);
            let asks = session matches Err(HaltView::Ask(_));
            &&& asks ==> plan == session
            &&& !asks && answers.source_env_restored ==> plan == session
            &&& !asks && !answers.source_env_restored ==> plan == Err::<
                RuntimeView,
                HaltView<StartRequestView>,
            >(HaltView::Ask(StartRequestView::RestoreSourceEnv))
        }),
{
}

} // verus!
