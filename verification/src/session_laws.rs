//! What holds of a session from its launch options to its running proxy.
use vstd::prelude::*;

use crate::config_build;
use crate::credential_env;
use crate::host::HaltView;
use crate::launch_options;
use crate::launch_options::LaunchAnswers;
use crate::numerals;
use crate::runtime;
use crate::runtime::{RuntimeView, StartAnswers, StartRequestView};
use crate::sandbox::{Platform, PreparedSandbox, ProxyLaunchOptions, SandboxArgs};
use crate::text;

verus! {

/// Whether `proxy` are the launch options that the command line and the profile settle on.
pub open spec fn launched(
    args: SandboxArgs,
    prepared: PreparedSandbox,
    silent: bool,
    platform: Platform,
    answers: LaunchAnswers,
    proxy: ProxyLaunchOptions,
) -> bool {
    launch_options::launch_plan(args, prepared, silent, platform, answers) matches Ok(launch)
        && launch.options == proxy.deep_view()
}

/// Where the network is blocked, starting the proxy asks for nothing and the session has none of
/// it, whatever the profile and the command line say about proxies.
pub proof fn lemma_blocked_network_starts_no_proxy(
    args: SandboxArgs,
    prepared: PreparedSandbox,
    silent: bool,
    platform: Platform,
    answers: LaunchAnswers,
    proxy: ProxyLaunchOptions,
    connect_ports: Seq<u16>,
    start_answers: StartAnswers,
)
    requires
        prepared.network_mode is Blocked,
        launched(args, prepared, silent, platform, answers, proxy),
    ensures
        runtime::start_plan(proxy, connect_ports, platform, start_answers) == Ok::<
            RuntimeView,
            HaltView<StartRequestView>,
        >(runtime::no_runtime()),
{
    launch_options::lemma_blocked_network_stays_blocked(args, prepared, silent, platform, answers);
    assert(proxy.active == proxy.deep_view().active);
}

/// A proxy is started with a strict filter exactly where the profile or the command line asks for
/// the network to be blocked, and on the port that the command line names, if it names one.
pub proof fn lemma_requested_block_reaches_the_filter(
    args: SandboxArgs,
    prepared: PreparedSandbox,
    silent: bool,
    platform: Platform,
    answers: LaunchAnswers,
    proxy: ProxyLaunchOptions,
    connect_ports: Seq<u16>,
    start_answers: StartAnswers,
)
    requires
        launched(args, prepared, silent, platform, answers, proxy),
    ensures
        runtime::start_config(proxy, connect_ports, platform, start_answers) matches Ok(config)
            ==> {
            &&& config.strict_filter == prepared.network_block_requested
            &&& args.proxy_port matches Some(port) ==> config.bind_port == port
        },
{
    runtime::lemma_proxy_starts_as_asked(proxy, connect_ports, platform, start_answers);
    assert(proxy.network_block == proxy.deep_view().network_block);
    assert(proxy.proxy_port == proxy.deep_view().proxy_port);
}

/// A route is looked for, for every credential that a tool sandbox is granted, whatever
/// credentials the network profile brings along.
pub proof fn lemma_granted_credentials_are_resolved(
    args: SandboxArgs,
    prepared: PreparedSandbox,
    silent: bool,
    platform: Platform,
    answers: LaunchAnswers,
    proxy: ProxyLaunchOptions,
    of_profile: Seq<Seq<char>>,
)
    requires
        launched(args, prepared, silent, platform, answers, proxy),
    ensures
        forall|name: Seq<char>| #[trigger]
            proxy.deep_view().tool_sandbox_proxy_credentials.contains(name)
                ==> config_build::with_missing(
                of_profile,
                proxy.deep_view().credentials,
            ).contains(name),
{
    launch_options::lemma_launch_keeps_what_was_there(args, prepared, silent, platform, answers);
    config_build::lemma_every_credential_is_resolved(of_profile, proxy.deep_view().credentials);
}

/// Where a wanted proxy was started, the session's programs get every variable that leads to the
/// proxy, and behind those every variable of the proxy's credentials with its value, in order,
/// but for exactly those whose name belongs to a credential of a tool sandbox; with no such
/// credential they get them all.
pub proof fn lemma_started_session_gets_every_other_variable(
    proxy: ProxyLaunchOptions,
    connect_ports: Seq<u16>,
    platform: Platform,
    answers: StartAnswers,
)
    requires
        proxy.active,
    ensures
        runtime::start_plan(proxy, connect_ports, platform, answers) matches Ok(session) ==> {
            &&& answers.started matches Some(Ok(started))
            &&& runtime::start_config(proxy, connect_ports, platform, answers) matches Ok(config)
            &&& ({
                let own = started.env_vars.deep_view();
                let of_credentials = started.credential_env_vars.deep_view();
                let kept = credential_env::tool_sandbox_variables(
                    proxy.deep_view(),
                    config.routes,
                );
                let shared = session.env_vars.skip(own.len() as int);
                &&& own.len() <= session.env_vars.len()
                &&& session.env_vars.take(own.len() as int) == own
                &&& forall|var: (Seq<char>, Seq<char>)| #[trigger]
                    shared.contains(var) <==> of_credentials.contains(var) && !kept.contains(var.0)
                &&& shared == of_credentials.filter(
                    |var: (Seq<char>, Seq<char>)| !kept.contains(var.0),
                )
                &&& (forall|name: Seq<char>|
                    !proxy.deep_view().tool_sandbox_proxy_credentials.contains(name))
                    ==> session.env_vars == own + of_credentials
            })
        },
{
    if let Ok(session) = runtime::start_plan(proxy, connect_ports, platform, answers) {
        runtime::lemma_start_is_the_session_between(proxy, connect_ports, platform, answers);
        runtime::lemma_start_goes_stage_by_stage(proxy, connect_ports, platform, answers);
        let config = runtime::start_config(proxy, connect_ports, platform, answers)->Ok_0;
        let started = answers.started->0->Ok_0;
        runtime::lemma_session_gets_what_no_tool_sandbox_has(proxy, config, started);
    }
}

/// A session's tool sandboxes get, for each credential that they are granted, the variable of its
/// route with the token that the proxy has for it, and where the launch options name a variable
/// for its address, that one with the address of the proxy that was started.
pub proof fn lemma_started_session_serves_every_tool_sandbox(
    proxy: ProxyLaunchOptions,
    connect_ports: Seq<u16>,
    platform: Platform,
    answers: StartAnswers,
    credential: Seq<char>,
)
    requires
        proxy.active,
        proxy.deep_view().tool_sandbox_proxy_credentials.contains(credential),
    ensures
        runtime::start_plan(proxy, connect_ports, platform, answers) matches Ok(session) ==> {
            &&& answers.started matches Some(Ok(started))
            &&& runtime::start_config(proxy, connect_ports, platform, answers) matches Ok(config)
            &&& session.tool_sandbox_credential_env_vars.contains_key(credential)
            &&& credential_env::route_of(config.routes, credential) matches Some(route)
            &&& route.env_var matches Some(variable)
            &&& credential_env::value_of(
                started.credential_env_vars.deep_view(),
                variable@,
            ) matches Some(token)
            &&& ({
                let vars = session.tool_sandbox_credential_env_vars[credential];
                let base_urls = proxy.deep_view().tool_sandbox_base_url_env_vars;
                &&& vars[0] == (variable@, token)
                &&& !base_urls.contains_key(credential) ==> vars.len() == 1
                &&& base_urls.contains_key(credential) ==> {
                    &&& vars.len() == 2
                    &&& vars[1].0 == base_urls[credential]
                    &&& vars[1].1 == "http://127.0.0.1:"@ + numerals::numeral(
                        started.port as nat,
                        10,
                    ) + "/"@ + text::without_outer_slashes(credential)
                }
            })
        },
{
    if let Ok(session) = runtime::start_plan(proxy, connect_ports, platform, answers) {
        runtime::lemma_start_is_the_session_between(proxy, connect_ports, platform, answers);
        runtime::lemma_start_goes_stage_by_stage(proxy, connect_ports, platform, answers);
        let config = runtime::start_config(proxy, connect_ports, platform, answers)->Ok_0;
        let started = answers.started->0->Ok_0;
        runtime::lemma_session_gives_each_sandbox_its_own(proxy, config, started);
        let listed = proxy.tool_sandbox_proxy_credentials.listed();
        let vars = started.credential_env_vars.deep_view();
        let view = proxy.deep_view();
        proxy.tool_sandbox_proxy_credentials.lemma_lists_its_names();
        assert(listed.to_set().contains(credential));
        assert(listed[listed.index_of(credential)] == credential);
        credential_env::lemma_scoping_is_all_or_the_first_failure(
            view,
            config.routes,
            vars,
            started.port,
            listed,
            0,
        );
        credential_env::lemma_sandbox_gets_token_and_address(
            view,
            config.routes,
            vars,
            started.port,
            credential,
        );
    }
}

} // verus!
