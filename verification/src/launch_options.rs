//! From the command line and the profile to the options the proxy is launched with.
use std::collections::VecDeque;
use vstd::prelude::*;

use crate::allow_domain;
use crate::error::ProxyError;
use crate::grant_laws;
use crate::grants;
use crate::grants::{
    Answer, GrantRequest, GrantRequestView, Progress, SettingsView, ToolSandboxSettings,
};
use crate::host;
use crate::host::{Halt, HaltView};
use crate::ports;
use crate::sandbox::{
    LaunchOptionsView, NetworkMode, Platform, PreparedSandbox, ProxyLaunchOptions, SandboxArgs,
};
use crate::tls;
use crate::tls::{DurationRequest, DurationRequestView, ResolvedTlsInterceptOptions, TlsAnswers};
use crate::values;
use crate::values::DeepClone;

verus! {

/// A piece of work for the host.
#[derive(Debug, PartialEq, Eq)]
pub enum LaunchRequest<'a> {
    /// Say whether what the command line and the profile want to bypass the external proxy with
    /// is in order.
    ValidateExternalProxyBypass { args: &'a SandboxArgs, prepared: &'a PreparedSandbox },
    Grant(GrantRequest),
    ParseTlsDuration(DurationRequest),
}

/// What a `LaunchRequest` asks for.
#[verifier::ext_equal]
pub enum LaunchRequestView {
    ValidateExternalProxyBypass { args: SandboxArgs, prepared: PreparedSandbox },
    Grant(GrantRequestView),
    ParseTlsDuration(DurationRequestView),
}

impl<'a> DeepView for LaunchRequest<'a> {
    type V = LaunchRequestView;

    open spec fn deep_view(&self) -> LaunchRequestView {
        match self {
            LaunchRequest::ValidateExternalProxyBypass { args, prepared } => {
                LaunchRequestView::ValidateExternalProxyBypass { args: **args, prepared: **prepared }
            },
            LaunchRequest::Grant(request) => LaunchRequestView::Grant(request.deep_view()),
            LaunchRequest::ParseTlsDuration(request) => LaunchRequestView::ParseTlsDuration(
                request.deep_view(),
            ),
        }
    }
}

/// What the host has answered so far.
#[derive(Debug, Clone, Default, PartialEq, Eq)]
pub struct LaunchAnswers {
    pub bypass: Option<Result<(), ProxyError>>,
    pub grants: VecDeque<Answer>,
    pub tls: TlsAnswers,
}

/// The launch options, and whether the user is to hear that blocking the network overrides some
/// of them.
pub struct PreparedLaunch<'a> {
    pub options: ProxyLaunchOptions<'a>,
    /// Whether the override goes to the log.
    pub log_override: bool,
    /// Whether the override is printed.
    pub print_override: bool,
}

/// What a `PreparedLaunch` holds.
#[verifier::ext_equal]
pub struct PreparedLaunchView {
    pub options: LaunchOptionsView,
    pub log_override: bool,
    pub print_override: bool,
}

impl<'a> DeepView for PreparedLaunch<'a> {
    type V = PreparedLaunchView;

    open spec fn deep_view(&self) -> PreparedLaunchView {
        PreparedLaunchView {
            options: self.options.deep_view(),
            log_override: self.log_override,
            print_override: self.print_override,
        }
    }
}

/// Where granting the credentials of tool sandboxes ends.
pub open spec fn grants_outcome(
    args: SandboxArgs,
    prepared: PreparedSandbox,
    answers: Seq<Answer>,
) -> Progress {
    grants::extended(
        prepared.command_policies,
        Progress::start(
            grants::nothing_granted(
                allow_domain::effective_settings(args, prepared).credentials,
                prepared.custom_credentials.deep_view(),
            ),
            answers,
        ),
    )
}

/// The proxy that the proxy goes through: none where the whole network is allowed, else the
/// command line's, else the profile's.
pub open spec fn upstream_proxy_of(
    args: SandboxArgs,
    prepared: PreparedSandbox,
) -> Option<Seq<char>> {
    if args.allow_net {
        None
    } else {
        allow_domain::first_of(
            args.external_proxy.deep_view(),
            prepared.upstream_proxy.deep_view(),
        )
    }
}

/// The hosts that do not go through it: none where the whole network is allowed; the command
/// line's alone where the command line names the proxy; else the profile's and the command
/// line's.
pub open spec fn upstream_bypass_of(args: SandboxArgs, prepared: PreparedSandbox) -> Seq<Seq<char>> {
    if args.allow_net {
        seq![]
    } else if args.external_proxy is Some {
        args.external_proxy_bypass.deep_view()
    } else {
        prepared.upstream_bypass.deep_view() + args.external_proxy_bypass.deep_view()
    }
}

/// The launch options, once the grants and the interception of TLS are settled.
pub open spec fn settled(
    args: SandboxArgs,
    prepared: PreparedSandbox,
    silent: bool,
    settings: SettingsView,
    tls: ResolvedTlsInterceptOptions,
) -> PreparedLaunchView {
    let effective = allow_domain::effective_settings(args, prepared);
    let upstream_proxy = upstream_proxy_of(args, prepared);
    let wants_network = settings.credentials.len() > 0 || effective.network_profile is Some
        || effective.allow_domain.len() > 0 || upstream_proxy is Some;
    let blocked = prepared.network_mode is Blocked;
    PreparedLaunchView {
        options: LaunchOptionsView {
            active: !blocked && (prepared.network_mode is ProxyOnly || wants_network),
            network_profile: effective.network_profile,
            allow_domain: effective.allow_domain,
            credentials: settings.credentials,
            custom_credentials: settings.custom_credentials,
            proxy_source_env_vars: settings.proxy_source_env_vars,
            tool_sandbox_base_url_env_vars: settings.base_url_env_vars,
            tool_sandbox_proxy_credentials: settings.tool_sandbox_proxy_credentials,
            upstream_proxy,
            upstream_bypass: upstream_bypass_of(args, prepared),
            allow_bind_ports: ports::merged_ports(prepared.listen_ports@, args.allow_bind@),
            proxy_port: args.proxy_port,
            open_url_origins: prepared.open_url_origins.deep_view(),
            open_url_allow_localhost: prepared.open_url_allow_localhost,
            allow_launch_services_active: prepared.allow_launch_services_active,
            trust_proxy_ca: tls.trust_proxy_ca,
            proxy_ca_validity: tls.ca_validity,
            proxy_leaf_validity: tls.leaf_validity,
            network_block: prepared.network_block_requested,
            command_policies: prepared.command_policies,
        },
        log_override: blocked && wants_network,
        print_override: blocked && wants_network && !silent,
    }
}

/// What launching comes to, with the host's answers so far: the bypass is validated first, then
/// the credentials are granted, then the interception of TLS is settled.
pub open spec fn launch_plan(
    args: SandboxArgs,
    prepared: PreparedSandbox,
    silent: bool,
    platform: Platform,
    answers: LaunchAnswers,
) -> Result<PreparedLaunchView, HaltView<LaunchRequestView>> {
    match answers.bypass {
        None => Err(
            HaltView::Ask(LaunchRequestView::ValidateExternalProxyBypass { args, prepared }),
        ),
        Some(Err(error)) => Err(HaltView::Failed(error.deep_view())),
        Some(Ok(_)) => {
            let granted = grants_outcome(args, prepared, answers.grants@);
            match granted.halt {
                Some(HaltView::Failed(error)) => Err(HaltView::Failed(error)),
                Some(HaltView::Ask(request)) => Err(
                    HaltView::Ask(LaunchRequestView::Grant(request)),
                ),
                None => match tls::tls_options(
                    platform,
                    args.trust_proxy_ca,
                    args.proxy_ca_validity,
                    prepared.tls_intercept,
                    answers.tls,
                ) {
                    Err(HaltView::Failed(error)) => Err(HaltView::Failed(error)),
                    Err(HaltView::Ask(request)) => Err(
                        HaltView::Ask(LaunchRequestView::ParseTlsDuration(request)),
                    ),
                    Ok(tls) => Ok(settled(args, prepared, silent, granted.settings, tls)),
                },
            }
        },
    }
}

/// Settles the options that the proxy is launched with.
pub fn prepare_proxy_launch_options<'a>(
    args: &'a SandboxArgs,
    prepared: &'a PreparedSandbox,
    silent: bool,
    platform: Platform,
    answers: LaunchAnswers,
) -> (launch: Result<PreparedLaunch<'a>, Halt<LaunchRequest<'a>>>)
    ensures
        host::told_deep(launch) == launch_plan(*args, *prepared, silent, platform, answers),
{
    match answers.bypass {
        None => {
            return Err(Halt::Ask(LaunchRequest::ValidateExternalProxyBypass { args, prepared }));
        },
        Some(Err(error)) => {
            return Err(Halt::Failed(error));
        },
        Some(Ok(_)) => {},
    }
    let effective = allow_domain::resolve_effective_proxy_settings(args, prepared);
    let network_profile = effective.network_profile;
    let allow_domain = effective.allow_domain;
    let mut settings = ToolSandboxSettings::new(
        effective.credentials,
        prepared.custom_credentials.deep_clone(),
    );
    let mut grant_answers = answers.grants;
    match grants::extend_proxy_settings_with_tool_sandbox_credentials(
        prepared.command_policies.as_ref(),
        &mut settings,
        &mut grant_answers,
    ) {
        Ok(_) => {},
        Err(Halt::Failed(error)) => {
            return Err(Halt::Failed(error));
        },
        Err(Halt::Ask(request)) => {
            return Err(Halt::Ask(LaunchRequest::Grant(request)));
        },
    }
    let allow_bind_ports = ports::merge_dedup_ports(
        prepared.listen_ports.as_slice(),
        args.allow_bind.as_slice(),
    );
    let tls_options = match tls::resolve_tls_intercept_options(
        args,
        prepared,
        platform,
        answers.tls,
    ) {
        Ok(options) => options,
        Err(Halt::Failed(error)) => {
            return Err(Halt::Failed(error));
        },
        Err(Halt::Ask(request)) => {
            return Err(Halt::Ask(LaunchRequest::ParseTlsDuration(request)));
        },
    };
    let upstream_proxy = if args.allow_net {
        None
    } else if args.external_proxy.is_some() {
        args.external_proxy.deep_clone()
    } else {
        prepared.upstream_proxy.deep_clone()
    };
    let upstream_bypass = if args.allow_net {
        Vec::new()
    } else if args.external_proxy.is_some() {
        args.external_proxy_bypass.deep_clone()
    } else {
        let mut bypass = prepared.upstream_bypass.deep_clone();
        values::extend_with(&mut bypass, &args.external_proxy_bypass);
        bypass
    };
    let wants_network = settings.credentials.len() > 0 || network_profile.is_some()
        || allow_domain.len() > 0 || upstream_proxy.is_some();
    let (blocked, active) = match &prepared.network_mode {
        NetworkMode::Blocked => (true, false),
        NetworkMode::ProxyOnly { .. } => (false, true),
        NetworkMode::AllowAll => (false, wants_network),
    };
    let options = ProxyLaunchOptions {
        active,
        network_profile,
        allow_domain,
        credentials: settings.credentials,
        custom_credentials: settings.custom_credentials,
        proxy_source_env_vars: settings.proxy_source_env_vars,
        tool_sandbox_base_url_env_vars: settings.base_url_env_vars,
        tool_sandbox_proxy_credentials: settings.tool_sandbox_proxy_credentials,
        upstream_proxy,
        upstream_bypass,
        allow_bind_ports,
        proxy_port: args.proxy_port,
        open_url_origins: prepared.open_url_origins.deep_clone(),
        open_url_allow_localhost: prepared.open_url_allow_localhost,
        allow_launch_services_active: prepared.allow_launch_services_active,
        trust_proxy_ca: tls_options.trust_proxy_ca,
        proxy_ca_validity: tls_options.ca_validity,
        proxy_leaf_validity: tls_options.leaf_validity,
        network_block: prepared.network_block_requested,
        command_policies: prepared.command_policies.as_ref(),
    };
    let launch = PreparedLaunch {
        options,
        log_override: blocked && wants_network,
        print_override: blocked && wants_network && !silent,
    };
    proof {
        let granted = grants_outcome(*args, *prepared, answers.grants@);
        let want = settled(*args, *prepared, silent, granted.settings, tls_options);
        assert(launch.options.upstream_bypass.deep_view() =~= want.options.upstream_bypass);
        assert(launch.deep_view() =~= want);
    }
    Ok(launch)
}

/// Where the network is blocked the proxy stays off, whatever else is asked for; and the user
/// hears of it exactly where something else was.
pub proof fn lemma_blocked_network_stays_blocked(
    args: SandboxArgs,
    prepared: PreparedSandbox,
    silent: bool,
    platform: Platform,
    answers: LaunchAnswers,
)
    requires
        prepared.network_mode is Blocked,
    ensures
        launch_plan(args, prepared, silent, platform, answers) matches Ok(launch) ==> {
            let o = launch.options;
            &&& !o.active
            &&& launch.log_override <==> o.credentials.len() > 0 || o.network_profile is Some
                || o.allow_domain.len() > 0 || o.upstream_proxy is Some
            &&& launch.print_override <==> launch.log_override && !silent
        },
{
}

/// Where the network is not blocked nothing is overridden, and the proxy runs exactly if it is
/// all that commands may reach or there is something for it to serve.
pub proof fn lemma_proxy_runs_when_needed(
    args: SandboxArgs,
    prepared: PreparedSandbox,
    silent: bool,
    platform: Platform,
    answers: LaunchAnswers,
)
    requires
        !(prepared.network_mode is Blocked),
    ensures
        launch_plan(args, prepared, silent, platform, answers) matches Ok(launch) ==> {
            let o = launch.options;
            &&& o.active <==> prepared.network_mode is ProxyOnly || o.credentials.len() > 0
                || o.network_profile is Some || o.allow_domain.len() > 0 || o.upstream_proxy is Some
            &&& !launch.log_override
            &&& !launch.print_override
        },
{
}

/// Where the whole network is allowed, no profile, no domain and no other proxy is in force, and
/// the only credentials served are those that tool sandboxes are granted.
pub proof fn lemma_allow_net_sets_proxy_settings_aside(
    args: SandboxArgs,
    prepared: PreparedSandbox,
    silent: bool,
    platform: Platform,
    answers: LaunchAnswers,
)
    requires
        args.allow_net,
    ensures
        launch_plan(args, prepared, silent, platform, answers) matches Ok(launch) ==> {
            let o = launch.options;
            &&& o.network_profile is None
            &&& o.allow_domain.len() == 0
            &&& o.upstream_proxy is None
            &&& o.upstream_bypass.len() == 0
            &&& forall|name: Seq<char>| #[trigger]
                o.credentials.contains(name) ==> o.tool_sandbox_proxy_credentials.contains(name)
        },
{
    let start = grants::nothing_granted(
        allow_domain::effective_settings(args, prepared).credentials,
        prepared.custom_credentials.deep_view(),
    );
    grant_laws::lemma_granting_adds(prepared.command_policies, start, answers.grants@);
}

/// In launch options, every credential that tool sandboxes are granted has a route with a token
/// variable and an endpoint policy and is served; the profile's and the command line's
/// credentials come first and in order, and the profile's routes stand as they were.
pub proof fn lemma_launch_keeps_what_was_there(
    args: SandboxArgs,
    prepared: PreparedSandbox,
    silent: bool,
    platform: Platform,
    answers: LaunchAnswers,
)
    ensures
        launch_plan(args, prepared, silent, platform, answers) matches Ok(launch) ==> {
            let o = launch.options;
            &&& forall|name: Seq<char>| #[trigger]
                o.tool_sandbox_proxy_credentials.contains(name) ==> {
                    &&& o.custom_credentials.contains_key(name)
                    &&& o.custom_credentials[name].env_var is Some
                    &&& o.custom_credentials[name].endpoint_policy is Some
                    &&& o.credentials.contains(name)
                }
            &&& o.tool_sandbox_base_url_env_vars.dom().subset_of(o.tool_sandbox_proxy_credentials)
            &&& allow_domain::effective_settings(args, prepared).credentials.is_prefix_of(
                o.credentials,
            )
            &&& prepared.custom_credentials.deep_view().submap_of(o.custom_credentials)
        },
{
    let start = grants::nothing_granted(
        allow_domain::effective_settings(args, prepared).credentials,
        prepared.custom_credentials.deep_view(),
    );
    grant_laws::lemma_granting_adds(prepared.command_policies, start, answers.grants@);
    assert(grant_laws::grants_are_routed(start));
}

/// A plan that is settled, or failed, stays so when the host has answered more about the grants.
pub proof fn lemma_settled_plans_stay(
    args: SandboxArgs,
    prepared: PreparedSandbox,
    silent: bool,
    platform: Platform,
    answers: LaunchAnswers,
    later: LaunchAnswers,
    more: Seq<Answer>,
)
    requires
        later.bypass == answers.bypass,
        later.tls == answers.tls,
        later.grants@ == answers.grants@ + more,
        !(launch_plan(args, prepared, silent, platform, answers) matches Err(HaltView::Ask(_))),
    ensures
        launch_plan(args, prepared, silent, platform, later) == launch_plan(
            args,
            prepared,
            silent,
            platform,
            answers,
        ),
{
    let start = grants::nothing_granted(
        allow_domain::effective_settings(args, prepared).credentials,
        prepared.custom_credentials.deep_view(),
    );
    grant_laws::lemma_answers_replay(prepared.command_policies, start, answers.grants@, more);
}

} // verus!
