//! What launch options hold: where each of them comes from.
use vstd::prelude::*;

use crate::allow_domain;
use crate::command_policy::{
    CommandCredentialGrantConfig, CommandPoliciesConfig, CommandSandboxConfig,
};
use crate::endpoint_policy;
use crate::grants;
use crate::grants::{Progress, SettingsView};
use crate::host::HaltView;
use crate::launch_options;
use crate::launch_options::{LaunchAnswers, LaunchRequestView, PreparedLaunchView};
use crate::ports;
use crate::route_laws;
use crate::sandbox::{Platform, PreparedSandbox, SandboxArgs};
use crate::source_env;
use crate::tls;

verus! {

/// The settings that granting starts with: the credentials in force, the profile's routes, and
/// nothing else.
pub open spec fn before_granting(args: SandboxArgs, prepared: PreparedSandbox) -> SettingsView {
    SettingsView {
        credentials: allow_domain::effective_settings(args, prepared).credentials,
        custom_credentials: prepared.custom_credentials.deep_view(),
        proxy_source_env_vars: Map::empty(),
        base_url_env_vars: Map::empty(),
        tool_sandbox_proxy_credentials: Set::empty(),
    }
}

/// Launch options take the network profile and the domains that are in force, and everything that
/// granting adds to the credentials in force: the credentials served, their routes, their
/// secrets, the variables for their addresses, and who they are granted to.
pub proof fn lemma_launch_takes_all_that_was_granted(
    args: SandboxArgs,
    prepared: PreparedSandbox,
    silent: bool,
    platform: Platform,
    answers: LaunchAnswers,
)
    ensures
        launch_options::launch_plan(args, prepared, silent, platform, answers) matches Ok(launch)
            ==> {
            let o = launch.options;
            let effective = allow_domain::effective_settings(args, prepared);
            let end = grants::extended(
                prepared.command_policies,
                Progress::start(before_granting(args, prepared), answers.grants@),
            );
            &&& end.halt is None
            &&& o.network_profile == effective.network_profile
            &&& o.allow_domain == effective.allow_domain
            &&& o.credentials == end.settings.credentials
            &&& o.custom_credentials == end.settings.custom_credentials
            &&& o.proxy_source_env_vars == end.settings.proxy_source_env_vars
            &&& o.tool_sandbox_base_url_env_vars == end.settings.base_url_env_vars
            &&& o.tool_sandbox_proxy_credentials == end.settings.tool_sandbox_proxy_credentials
        },
{
}

/// Launch options go through the command line's external proxy, else through the profile's, and
/// bypass it for the command line's hosts, behind the profile's where the proxy is the profile's;
/// where the whole network is allowed there is neither.
pub proof fn lemma_launch_goes_through_the_nearest_proxy(
    args: SandboxArgs,
    prepared: PreparedSandbox,
    silent: bool,
    platform: Platform,
    answers: LaunchAnswers,
)
    ensures
        launch_options::launch_plan(args, prepared, silent, platform, answers) matches Ok(launch)
            ==> {
            let o = launch.options;
            let own = args.external_proxy_bypass@;
            let profiles = prepared.upstream_bypass@;
            &&& args.allow_net ==> o.upstream_proxy is None && o.upstream_bypass.len() == 0
            &&& !args.allow_net ==> (args.external_proxy matches Some(proxy) ==> {
                &&& o.upstream_proxy == Some(proxy@)
                &&& o.upstream_bypass.len() == own.len()
                &&& forall|i: int|
                    0 <= i < own.len() ==> #[trigger] o.upstream_bypass[i] == own[i]@
            })
            &&& !args.allow_net && args.external_proxy is None ==> {
                &&& match prepared.upstream_proxy {
                    Some(proxy) => o.upstream_proxy == Some(proxy@),
                    None => o.upstream_proxy is None,
                }
                &&& o.upstream_bypass.len() == profiles.len() + own.len()
                &&& forall|i: int|
                    0 <= i < profiles.len() ==> #[trigger] o.upstream_bypass[i] == profiles[i]@
                &&& forall|i: int|
                    0 <= i < own.len() ==> o.upstream_bypass[profiles.len() + i] == (
                    #[trigger] own[i])@
            }
        },
{
}

/// Launch options let the sandbox listen on the profile's ports and on the command line's, all of
/// them and no others, each once and in ascending order; the proxy's port is the command line's.
pub proof fn lemma_launch_ports_are_those_asked_for(
    args: SandboxArgs,
    prepared: PreparedSandbox,
    silent: bool,
    platform: Platform,
    answers: LaunchAnswers,
)
    ensures
        launch_options::launch_plan(args, prepared, silent, platform, answers) matches Ok(launch)
            ==> {
            let o = launch.options;
            &&& forall|port: u16| #[trigger]
                o.allow_bind_ports.contains(port) <==> prepared.listen_ports@.contains(port)
                    || args.allow_bind@.contains(port)
            &&& forall|i: int, j: int|
                0 <= i < j < o.allow_bind_ports.len() ==> #[trigger] o.allow_bind_ports[i]
                    < #[trigger] o.allow_bind_ports[j]
            &&& o.proxy_port == args.proxy_port
        },
{
    ports::lemma_merged_ports_are_all_ports_once(prepared.listen_ports@, args.allow_bind@);
}

/// What the profile says about opening addresses, about launch services, about blocking the
/// network and about commands stands in the launch options as it is, and the interception of TLS
/// as it was settled.
pub proof fn lemma_launch_takes_the_profile_as_it_is(
    args: SandboxArgs,
    prepared: PreparedSandbox,
    silent: bool,
    platform: Platform,
    answers: LaunchAnswers,
)
    ensures
        launch_options::launch_plan(args, prepared, silent, platform, answers) matches Ok(launch)
            ==> {
            let o = launch.options;
            &&& o.open_url_origins == prepared.open_url_origins.deep_view()
            &&& o.open_url_allow_localhost == prepared.open_url_allow_localhost
            &&& o.allow_launch_services_active == prepared.allow_launch_services_active
            &&& o.network_block == prepared.network_block_requested
            &&& o.command_policies == prepared.command_policies
            &&& tls::tls_options(
                platform,
                args.trust_proxy_ca,
                args.proxy_ca_validity,
                prepared.tls_intercept,
                answers.tls,
            ) matches Ok(settled) && {
                &&& o.trust_proxy_ca == settled.trust_proxy_ca
                &&& o.proxy_ca_validity == settled.ca_validity
                &&& o.proxy_leaf_validity == settled.leaf_validity
            }
        },
{
}

/// Launching asks about the bypass first, then for what granting asks for, then for what the
/// interception of TLS asks for; what is refused on the way is what launching fails with; and
/// where nothing is left to ask and nothing was refused, it succeeds.
pub proof fn lemma_launch_asks_in_order(
    args: SandboxArgs,
    prepared: PreparedSandbox,
    silent: bool,
    platform: Platform,
    answers: LaunchAnswers,
)
    ensures
        ({
            let plan = launch_options::launch_plan(args, prepared, silent, platform, answers);
            let granting = grants::extended(
                prepared.command_policies,
                Progress::start(before_granting(args, prepared), answers.grants@),
            ).halt;
            let intercepting = tls::tls_options(
                platform,
                args.trust_proxy_ca,
                args.proxy_ca_validity,
                prepared.tls_intercept,
                answers.tls,
            );
            &&& answers.bypass is None ==> plan == Err::<
                PreparedLaunchView,
                HaltView<LaunchRequestView>,
            >(HaltView::Ask(LaunchRequestView::ValidateExternalProxyBypass { args, prepared }))
            &&& answers.bypass matches Some(Err(error)) ==> plan == Err::<
                PreparedLaunchView,
                HaltView<LaunchRequestView>,
            >(HaltView::Failed(error.deep_view()))
            &&& answers.bypass matches Some(Ok(_)) ==> {
                &&& granting matches Some(HaltView::Failed(error)) ==> plan == Err::<
                    PreparedLaunchView,
                    HaltView<LaunchRequestView>,
                >(HaltView::Failed(error))
                &&& granting matches Some(HaltView::Ask(request)) ==> plan == Err::<
                    PreparedLaunchView,
                    HaltView<LaunchRequestView>,
                >(HaltView::Ask(LaunchRequestView::Grant(request)))
                &&& granting is None ==> {
                    &&& intercepting matches Err(HaltView::Failed(error)) ==> plan == Err::<
                        PreparedLaunchView,
                        HaltView<LaunchRequestView>,
                    >(HaltView::Failed(error))
                    &&& intercepting matches Err(HaltView::Ask(request)) ==> plan == Err::<
                        PreparedLaunchView,
                        HaltView<LaunchRequestView>,
                    >(HaltView::Ask(LaunchRequestView::ParseTlsDuration(request)))
                    &&& intercepting is Ok ==> plan is Ok
                }
            }
        }),
{
}

/// Where launching succeeds, every proxy credential that a command is granted is in the launch
/// options as it is configured. Its route injects its own key in its own format into its own
/// header, leads to its own upstream and is filtered by the grant's endpoint policy. Where it has
/// a source, the options hold, under the variable that the route's key names, a secret that the
/// host answered when it was asked for the secret of a credential that goes into that variable.
/// Where it names a variable for its address, the options hold that one.
pub proof fn lemma_granted_credentials_are_launched(
    args: SandboxArgs,
    prepared: PreparedSandbox,
    silent: bool,
    platform: Platform,
    answers: LaunchAnswers,
    config: CommandPoliciesConfig,
    command: int,
    sandbox: CommandSandboxConfig,
    at: int,
    name: Seq<char>,
)
    requires
        launch_options::launch_plan(args, prepared, silent, platform, answers) is Ok,
        prepared.command_policies == Some(config),
        config.active,
        0 <= command < config.commands.listed().len(),
        route_laws::has_sandbox(config.commands.listed()[command].1, sandbox),
        0 <= at < sandbox.credentials@.len(),
        route_laws::grants_proxy_credential(config, sandbox.credentials@[at], name),
    ensures
        ({
            let o = launch_options::launch_plan(
                args,
                prepared,
                silent,
                platform,
                answers,
            )->Ok_0.options;
            let credential = config.credentials.deep_view()[name];
            let route = o.custom_credentials[name];
            &&& o.tool_sandbox_proxy_credentials.contains(name)
            &&& o.credentials.contains(name)
            &&& o.custom_credentials.contains_key(name)
            &&& Some(route.upstream) == credential.upstream.deep_view()
            &&& route.env_var is Some
            &&& route.env_var == credential.env_var.deep_view()
            &&& credential.inject_header matches Some(header) ==> route.inject_header == header@
            &&& credential.inject_header is None ==> route.inject_header == "Authorization"@
            &&& route.credential_format == credential.credential_format.deep_view()
            &&& sandbox.credentials@[at] matches CommandCredentialGrantConfig::Policy(g)
            &&& g.endpoint_policy matches Some(policy)
            &&& route.endpoint_policy == Some(endpoint_policy::proxy_policy(config, policy))
            &&& credential.source is None ==> route.credential_key
                == credential.credential_key.deep_view()
            &&& credential.source is Some ==> {
                let variable = source_env::source_variable(name);
                &&& route.credential_key == Some("env://"@ + variable)
                &&& o.proxy_source_env_vars.contains_key(variable)
                &&& exists|turn: int|
                    #[trigger] route_laws::says(
                        answers.grants@,
                        turn,
                        o.proxy_source_env_vars[variable],
                    ) && route_laws::asks_for_secret(
                        config,
                        variable,
                        grants::extended(
                            Some(config),
                            Progress::start(
                                before_granting(args, prepared),
                                answers.grants@.take(turn),
                            ),
                        ).halt,
                    )
            }
            &&& credential.base_url_env_var matches Some(variable) ==> (
            o.tool_sandbox_base_url_env_vars.contains_key(name)
                && o.tool_sandbox_base_url_env_vars[name] == variable@)
        }),
{
    let start = before_granting(args, prepared);
    let given = answers.grants@;
    lemma_launch_takes_all_that_was_granted(args, prepared, silent, platform, answers);
    route_laws::lemma_every_command_is_served(config, command, sandbox, start, given);
    let end = grants::extended(Some(config), Progress::start(start, given)).settings;
    assert(route_laws::serves_as_configured(config, sandbox.credentials@[at], name, end));
    if config.credentials.deep_view()[name].source is Some {
        route_laws::lemma_secrets_are_what_the_host_answered(
            config,
            start,
            given,
            source_env::source_variable(name),
        );
    }
}

/// Launch options hold no secret that the host did not answer, for the variable it stands in, when
/// it was asked for it.
pub proof fn lemma_launched_secrets_come_from_the_host(
    args: SandboxArgs,
    prepared: PreparedSandbox,
    silent: bool,
    platform: Platform,
    answers: LaunchAnswers,
    variable: Seq<char>,
)
    requires
        launch_options::launch_plan(args, prepared, silent, platform, answers) matches Ok(launch)
            && launch.options.proxy_source_env_vars.contains_key(variable),
    ensures
        ({
            let o = launch_options::launch_plan(
                args,
                prepared,
                silent,
                platform,
                answers,
            )->Ok_0.options;
            &&& prepared.command_policies matches Some(config)
            &&& exists|turn: int|
                #[trigger] route_laws::says(
                    answers.grants@,
                    turn,
                    o.proxy_source_env_vars[variable],
                ) && route_laws::asks_for_secret(
                    config,
                    variable,
                    grants::extended(
                        Some(config),
                        Progress::start(
                            before_granting(args, prepared),
                            answers.grants@.take(turn),
                        ),
                    ).halt,
                )
        }),
{
    lemma_launch_takes_all_that_was_granted(args, prepared, silent, platform, answers);
    if let Some(config) = prepared.command_policies {
        route_laws::lemma_secrets_are_what_the_host_answered(
            config,
            before_granting(args, prepared),
            answers.grants@,
            variable,
        );
    }
}

} // verus!
