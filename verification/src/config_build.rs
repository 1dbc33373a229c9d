//! From launch options to the settings that the proxy is started with.
use vstd::prelude::*;

use crate::error::ProxyError;
use crate::host;
use crate::host::{Halt, HaltView};
use crate::names::NameMap;
use crate::profile::{
    AllowDomainEntry, AllowDomainEntryView, CustomCredentialDef, CustomCredentialDefView,
};
use crate::proxy_config::{
    ExternalProxyConfig, ExternalProxyConfigView, ProxyConfig, ProxyConfigView,
    ResolvedNetworkPolicy, ResolvedNetworkPolicyView, RouteConfig,
};
use crate::sandbox::{LaunchOptionsView, ProxyLaunchOptions};
use crate::text;
use crate::values;
use crate::values::DeepClone;

verus! {

/// A piece of work on the network policy that the program carries.
#[derive(Debug, PartialEq, Eq)]
pub enum PolicyRequest {
    /// Load the policy.
    LoadPolicy,
    /// Say what the network profile `name` stands for.
    ResolveProfile { name: String },
    /// Find the routes of the credentials `names`, given those that are not built in.
    ResolveCredentials { names: Vec<String>, custom_credentials: NameMap<CustomCredentialDef> },
    /// Part domains into plain hosts and routes for single endpoints.
    PartitionAllowDomain { allow_domain: Vec<AllowDomainEntry> },
    /// Make proxy settings out of what the profile and the routes stand for.
    BuildConfig { resolved: ResolvedNetworkPolicy, plain_hosts: Vec<String> },
}

/// What a `PolicyRequest` asks for.
#[verifier::ext_equal]
pub enum PolicyRequestView {
    LoadPolicy,
    ResolveProfile { name: Seq<char> },
    ResolveCredentials {
        names: Seq<Seq<char>>,
        custom_credentials: Map<Seq<char>, CustomCredentialDefView>,
    },
    PartitionAllowDomain { allow_domain: Seq<AllowDomainEntryView> },
    BuildConfig { resolved: ResolvedNetworkPolicyView, plain_hosts: Seq<Seq<char>> },
}

impl DeepView for PolicyRequest {
    type V = PolicyRequestView;

    open spec fn deep_view(&self) -> PolicyRequestView {
        match self {
            PolicyRequest::LoadPolicy => PolicyRequestView::LoadPolicy,
            PolicyRequest::ResolveProfile { name } => PolicyRequestView::ResolveProfile {
                name: name@,
            },
            PolicyRequest::ResolveCredentials { names, custom_credentials } => {
                PolicyRequestView::ResolveCredentials {
                    names: names.deep_view(),
                    custom_credentials: custom_credentials.deep_view(),
                }
            },
            PolicyRequest::PartitionAllowDomain { allow_domain } => {
                PolicyRequestView::PartitionAllowDomain { allow_domain: allow_domain.deep_view() }
            },
            PolicyRequest::BuildConfig { resolved, plain_hosts } => {
                PolicyRequestView::BuildConfig {
                    resolved: resolved.deep_view(),
                    plain_hosts: plain_hosts.deep_view(),
                }
            },
        }
    }
}

/// What has been answered so far.
#[derive(Debug, Clone, Default, PartialEq, Eq)]
pub struct PolicyAnswers {
    pub loaded: Option<Result<(), ProxyError>>,
    pub profile: Option<Result<ResolvedNetworkPolicy, ProxyError>>,
    pub routes: Option<Result<Vec<RouteConfig>, ProxyError>>,
    pub partition: Option<Result<(Vec<String>, Vec<RouteConfig>), ProxyError>>,
    pub config: Option<ProxyConfig>,
}

/// `list` with those of `names` behind it that it lacks, in order.
pub open spec fn with_missing(list: Seq<Seq<char>>, names: Seq<Seq<char>>) -> Seq<Seq<char>>
    decreases names.len(),
{
    if names.len() == 0 {
        list
    } else {
        with_missing(
            if list.contains(names[0]) {
                list
            } else {
                list.push(names[0])
            },
            names.drop_first(),
        )
    }
}

/// The credentials to find routes for: the profile's, then those of the launch options that it
/// lacks.
pub fn credentials_to_resolve(profile: &Vec<String>, requested: &Vec<String>) -> (all: Vec<String>)
    ensures
        all.deep_view() == with_missing(profile.deep_view(), requested.deep_view()),
{
    let mut all = profile.deep_clone();
    let ghost names = requested.deep_view();
    let mut i: usize = 0;
    assert(names.skip(0) =~= names);
    while i < requested.len()
        invariant
            i <= requested@.len(),
            names == requested.deep_view(),
            with_missing(profile.deep_view(), names) == with_missing(
                all.deep_view(),
                names.skip(i as int),
            ),
        decreases requested@.len() - i,
    {
        let ghost before = all.deep_view();
        assert(names.skip(i as int)[0] == requested@[i as int]@);
        assert(names.skip(i as int).drop_first() =~= names.skip(i + 1));
        if !values::holds_name(&all, requested[i].as_str()) {
            all.push(requested[i].clone());
            assert(all.deep_view() =~= before.push(requested@[i as int]@));
        }
        i = i + 1;
    }
    all
}

/// The host of an upstream that is reached over HTTP, with or without TLS.
pub open spec fn host_of(upstream: Seq<char>) -> Option<Seq<char>> {
    let secure = text::after_prefix(upstream, "https://"@);
    if secure is Some {
        secure
    } else {
        text::after_prefix(upstream, "http://"@)
    }
}

/// `hosts` followed by the hosts of `routes`. A route that is open at some endpoints only still
/// needs its host to be reachable, as the proxy connects before it sees the endpoint.
pub open spec fn with_hosts_of(hosts: Seq<Seq<char>>, routes: Seq<RouteConfig>) -> Seq<Seq<char>>
    decreases routes.len(),
{
    if routes.len() == 0 {
        hosts
    } else {
        with_hosts_of(
            match host_of(routes[0].upstream@) {
                Some(host) => hosts.push(host),
                None => hosts,
            },
            routes.drop_first(),
        )
    }
}

/// Adds the hosts of `routes` to `hosts`.
pub fn admit_route_hosts(hosts: &mut Vec<String>, routes: &Vec<RouteConfig>)
    ensures
        final(hosts).deep_view() == with_hosts_of(old(hosts).deep_view(), routes@),
{
    let ghost start = hosts.deep_view();
    let mut i: usize = 0;
    assert(routes@.skip(0) =~= routes@);
    while i < routes.len()
        invariant
            i <= routes@.len(),
            with_hosts_of(start, routes@) == with_hosts_of(
                hosts.deep_view(),
                routes@.skip(i as int),
            ),
        decreases routes@.len() - i,
    {
        let ghost before = hosts.deep_view();
        assert(routes@.skip(i as int)[0] == routes@[i as int]);
        assert(routes@.skip(i as int).drop_first() =~= routes@.skip(i + 1));
        let upstream = routes[i].upstream.as_str();
        let host = match text::strip_prefix(upstream, "https://") {
            Some(host) => Some(host),
            None => text::strip_prefix(upstream, "http://"),
        };
        if let Some(host) = host {
            let ghost host_view = host@;
            hosts.push(host);
            assert(hosts.deep_view() =~= before.push(host_view));
        }
        i = i + 1;
    }
}

/// `base` with the launch options' own settings in it.
pub open spec fn with_launch_settings(
    base: ProxyConfigView,
    proxy: LaunchOptionsView,
) -> ProxyConfigView {
    ProxyConfigView {
        strict_filter: proxy.network_block,
        external_proxy: match proxy.upstream_proxy {
            Some(address) => Some(
                ExternalProxyConfigView {
                    address,
                    auth: None,
                    bypass_hosts: proxy.upstream_bypass,
                },
            ),
            None => base.external_proxy,
        },
        bind_port: match proxy.proxy_port {
            Some(port) => port,
            None => base.bind_port,
        },
        ca_validity: proxy.proxy_ca_validity,
        leaf_validity: proxy.proxy_leaf_validity,
        ..base
    }
}

/// Puts the launch options' own settings into proxy settings.
pub fn apply_launch_settings(base: ProxyConfig, proxy: &ProxyLaunchOptions) -> (config: ProxyConfig)
    ensures
        config.deep_view() == with_launch_settings(base.deep_view(), proxy.deep_view()),
{
    let mut config = base;
    config.strict_filter = proxy.network_block;
    if let Some(address) = &proxy.upstream_proxy {
        config.external_proxy =
        Some(
            ExternalProxyConfig {
                address: address.clone(),
                auth: None,
                bypass_hosts: proxy.upstream_bypass.deep_clone(),
            },
        );
    }
    if let Some(port) = proxy.proxy_port {
        config.bind_port = port;
    }
    config.ca_validity = proxy.proxy_ca_validity;
    config.leaf_validity = proxy.proxy_leaf_validity;
    config
}

/// What a network profile stands for, where there is none.
pub open spec fn no_profile() -> ResolvedNetworkPolicyView {
    ResolvedNetworkPolicyView {
        hosts: seq![],
        suffixes: seq![],
        routes: seq![],
        profile_credentials: seq![],
    }
}

/// What the launch options' network profile stands for.
pub open spec fn profile_plan(
    proxy: LaunchOptionsView,
    answers: PolicyAnswers,
) -> Result<ResolvedNetworkPolicyView, HaltView<PolicyRequestView>> {
    match proxy.network_profile {
        None => Ok(no_profile()),
        Some(name) => match host::answered(
            answers.profile,
            PolicyRequestView::ResolveProfile { name },
        ) {
            Ok(resolved) => Ok(resolved.deep_view()),
            Err(halt) => Err(halt),
        },
    }
}

/// What building comes to, with the answers so far: the policy is loaded first, then the profile
/// is resolved, then the credentials, then the domains are parted, and then the settings are made
/// of all that and the launch options' own go into them.
pub open spec fn config_plan(
    proxy: LaunchOptionsView,
    answers: PolicyAnswers,
) -> Result<ProxyConfigView, HaltView<PolicyRequestView>> {
    match host::answered(answers.loaded, PolicyRequestView::LoadPolicy) {
        Err(halt) => Err(halt),
        Ok(_) => match profile_plan(proxy, answers) {
            Err(halt) => Err(halt),
            Ok(resolved) => match host::answered(
                answers.routes,
                PolicyRequestView::ResolveCredentials {
                    names: with_missing(resolved.profile_credentials, proxy.credentials),
                    custom_credentials: proxy.custom_credentials,
                },
            ) {
                Err(halt) => Err(halt),
                Ok(routes) => match host::answered(
                    answers.partition,
                    PolicyRequestView::PartitionAllowDomain { allow_domain: proxy.allow_domain },
                ) {
                    Err(halt) => Err(halt),
                    Ok((plain_hosts, endpoint_routes)) => match answers.config {
                        None => Err(
                            HaltView::Ask(
                                PolicyRequestView::BuildConfig {
                                    resolved: ResolvedNetworkPolicyView {
                                        routes: routes@ + endpoint_routes@,
                                        ..resolved
                                    },
                                    plain_hosts: with_hosts_of(
                                        plain_hosts.deep_view(),
                                        endpoint_routes@,
                                    ),
                                },
                            ),
                        ),
                        Some(base) => Ok(with_launch_settings(base.deep_view(), proxy)),
                    },
                },
            },
        },
    }
}

/// Builds the settings that the proxy is started with.
pub fn build_proxy_config_from_flags(
    proxy: &ProxyLaunchOptions,
    answers: PolicyAnswers,
) -> (config: Result<ProxyConfig, Halt<PolicyRequest>>)
    ensures
        host::told_deep(config) == config_plan(proxy.deep_view(), answers),
{
    host::take_answer(answers.loaded, PolicyRequest::LoadPolicy)?;
    let mut resolved = match &proxy.network_profile {
        Some(name) => host::take_answer(
            answers.profile,
            PolicyRequest::ResolveProfile { name: name.clone() },
        )?,
        None => ResolvedNetworkPolicy {
            hosts: Vec::new(),
            suffixes: Vec::new(),
            routes: Vec::new(),
            profile_credentials: Vec::new(),
        },
    };
    assert(proxy.network_profile is None ==> resolved.deep_view() =~= no_profile());
    let all_credentials = credentials_to_resolve(
        &resolved.profile_credentials,
        &proxy.credentials,
    );
    let mut routes = host::take_answer(
        answers.routes,
        PolicyRequest::ResolveCredentials {
            names: all_credentials,
            custom_credentials: proxy.custom_credentials.deep_clone(),
        },
    )?;
    let (mut plain_hosts, mut endpoint_routes) = host::take_answer(
        answers.partition,
        PolicyRequest::PartitionAllowDomain { allow_domain: proxy.allow_domain.deep_clone() },
    )?;
    admit_route_hosts(&mut plain_hosts, &endpoint_routes);
    routes.append(&mut endpoint_routes);
    resolved.routes = routes;
    match answers.config {
        None => Err(Halt::Ask(PolicyRequest::BuildConfig { resolved, plain_hosts })),
        Some(base) => Ok(apply_launch_settings(base, proxy)),
    }
}

/// Every credential of the profile and of the launch options gets a route looked for, and no
/// other; the profile's come first, and none of the launch options' comes twice.
pub proof fn lemma_every_credential_is_resolved(list: Seq<Seq<char>>, names: Seq<Seq<char>>)
    ensures
        list.is_prefix_of(with_missing(list, names)),
        forall|name: Seq<char>| #[trigger]
            with_missing(list, names).contains(name) <==> list.contains(name) || names.contains(
                name,
            ),
        list.no_duplicates() ==> with_missing(list, names).no_duplicates(),
    decreases names.len(),
{
    if names.len() == 0 {
        assert(list =~= list.subrange(0, list.len() as int));
    } else {
        let next = if list.contains(names[0]) {
            list
        } else {
            list.push(names[0])
        };
        let rest = names.drop_first();
        let all = with_missing(list, names);
        lemma_every_credential_is_resolved(next, rest);
        assert(list =~= next.subrange(0, list.len() as int));
        assert(list =~= all.subrange(0, list.len() as int)) by {
            assert forall|i: int| 0 <= i < list.len() implies list[i] == all[i] by {
                assert(all.subrange(0, next.len() as int)[i] == all[i]);
                assert(next[i] == list[i]);
            }
        }
        assert forall|name: Seq<char>| #[trigger] all.contains(name) <==> list.contains(name)
            || names.contains(name) by {
            assert(next.contains(name) <==> list.contains(name) || name == names[0]) by {
                if next.contains(name) {
                    let i = next.index_of(name);
                    if i < list.len() {
                        assert(list[i] == name);
                    }
                }
                if list.contains(name) {
                    let i = list.index_of(name);
                    assert(next[i] == name);
                }
                if !list.contains(names[0]) {
                    assert(next.last() == names[0]);
                }
            }
            assert(names.contains(name) <==> name == names[0] || rest.contains(name)) by {
                if names.contains(name) {
                    let i = names.index_of(name);
                    if i > 0 {
                        assert(rest[i - 1] == name);
                    }
                }
                if rest.contains(name) {
                    let i = rest.index_of(name);
                    assert(names[i + 1] == name);
                }
            }
        }
        if list.no_duplicates() && !list.contains(names[0]) {
            assert forall|i: int, j: int|
                0 <= i < next.len() && 0 <= j < next.len() && i != j implies next[i]
                != next[j] by {
                if i < list.len() {
                    assert(list.contains(list[i]));
                }
                if j < list.len() {
                    assert(list.contains(list[j]));
                }
            }
        }
    }
}

/// The host of every route that is open at some endpoints only can be reached, and so can every
/// host that could be reached without those routes.
pub proof fn lemma_endpoint_hosts_are_admitted(hosts: Seq<Seq<char>>, routes: Seq<RouteConfig>)
    ensures
        hosts.is_prefix_of(with_hosts_of(hosts, routes)),
        forall|i: int|
            0 <= i < routes.len() && host_of((#[trigger] routes[i]).upstream@) is Some
                ==> with_hosts_of(hosts, routes).contains(host_of(routes[i].upstream@)->0),
    decreases routes.len(),
{
    if routes.len() == 0 {
        assert(hosts =~= hosts.subrange(0, hosts.len() as int));
    } else {
        let next = match host_of(routes[0].upstream@) {
            Some(host) => hosts.push(host),
            None => hosts,
        };
        let rest = routes.drop_first();
        let all = with_hosts_of(hosts, routes);
        lemma_endpoint_hosts_are_admitted(next, rest);
        assert forall|i: int| 0 <= i < next.len() implies next[i] == all[i] by {
            assert(all.subrange(0, next.len() as int)[i] == all[i]);
        }
        assert(hosts =~= all.subrange(0, hosts.len() as int));
        assert forall|i: int|
            0 <= i < routes.len() && host_of((#[trigger] routes[i]).upstream@) is Some implies
            all.contains(host_of(routes[i].upstream@)->0) by {
            if i == 0 {
                assert(all[next.len() - 1] == next.last());
            } else {
                assert(rest[i - 1] == routes[i]);
            }
        }
    }
}

/// Whatever is answered, the proxy filters strictly exactly where the network is asked to be
/// blocked, and goes through another proxy where the launch options name one.
pub proof fn lemma_block_means_strict_filter(proxy: LaunchOptionsView, answers: PolicyAnswers)
    ensures
        config_plan(proxy, answers) matches Ok(config) ==> {
            &&& config.strict_filter == proxy.network_block
            &&& proxy.upstream_proxy matches Some(address) ==> config.external_proxy == Some(
                ExternalProxyConfigView {
                    address,
                    auth: None,
                    bypass_hosts: proxy.upstream_bypass,
                },
            )
            &&& proxy.proxy_port matches Some(port) ==> config.bind_port == port
        },
{
}

/// The list grows by one name at a time: without names it stays as it is, and a name more is put
/// at its end exactly where it holds that name nowhere yet.
pub proof fn lemma_missing_names_come_last_and_once(
    list: Seq<Seq<char>>,
    names: Seq<Seq<char>>,
    name: Seq<char>,
)
    ensures
        with_missing(list, Seq::empty()) == list,
        list.contains(name) || names.contains(name) ==> with_missing(list, names.push(name))
            == with_missing(list, names),
        !list.contains(name) && !names.contains(name) ==> with_missing(list, names.push(name))
            == with_missing(list, names).push(name),
    decreases names.len(),
{
    lemma_every_credential_is_resolved(list, names);
    let all = with_missing(list, names);
    assert(all.contains(name) <==> list.contains(name) || names.contains(name));
    lemma_one_more_name(list, names, name);
}

proof fn lemma_one_more_name(list: Seq<Seq<char>>, names: Seq<Seq<char>>, name: Seq<char>)
    ensures
        with_missing(list, names.push(name)) == if with_missing(list, names).contains(name) {
            with_missing(list, names)
        } else {
            with_missing(list, names).push(name)
        },
    decreases names.len(),
{
    let more = names.push(name);
    if names.len() == 0 {
        assert(more.drop_first() =~= Seq::empty());
        reveal_with_fuel(with_missing, 2);
    } else {
        let next = if list.contains(names[0]) {
            list
        } else {
            list.push(names[0])
        };
        assert(more.drop_first() =~= names.drop_first().push(name));
        lemma_one_more_name(next, names.drop_first(), name);
    }
}

/// The host of an upstream is what follows `https://` or `http://`, and an upstream that begins
/// with neither has none.
pub proof fn lemma_host_follows_the_scheme(upstream: Seq<char>, host: Seq<char>)
    ensures
        host_of(upstream) == Some(host) <==> upstream == "https://"@ + host || upstream
            == "http://"@ + host,
{
    text::lemma_prefix_and_rest_make_the_text(upstream, "https://"@, host);
    text::lemma_prefix_and_rest_make_the_text(upstream, "http://"@, host);
    reveal_strlit("https://");
    reveal_strlit("http://");
    if let Some(secure) = text::after_prefix(upstream, "https://"@) {
        text::lemma_prefix_and_rest_make_the_text(upstream, "https://"@, secure);
        assert(upstream[4] == 's');
        if upstream == "http://"@ + host {
            assert(upstream[4] == ':');
        }
    }
}

/// The hosts grow by one route at a time: without routes they stay as they are, and a route more
/// puts its host, if it has one, at their end.
pub proof fn lemma_hosts_come_in_the_order_of_routes(
    hosts: Seq<Seq<char>>,
    routes: Seq<RouteConfig>,
    route: RouteConfig,
    host: Seq<char>,
)
    ensures
        with_hosts_of(hosts, Seq::empty()) == hosts,
        route.upstream@ == "https://"@ + host || route.upstream@ == "http://"@ + host
            ==> with_hosts_of(hosts, routes.push(route)) == with_hosts_of(hosts, routes).push(host),
        (forall|other: Seq<char>|
            route.upstream@ != #[trigger] ("https://"@ + other) && route.upstream@ != "http://"@
                + other) ==> with_hosts_of(hosts, routes.push(route)) == with_hosts_of(
            hosts,
            routes,
        ),
{
    lemma_one_more_route(hosts, routes, route);
    lemma_host_follows_the_scheme(route.upstream@, host);
    if let Some(other) = host_of(route.upstream@) {
        lemma_host_follows_the_scheme(route.upstream@, other);
        assert(route.upstream@ == "https://"@ + other || route.upstream@ == "http://"@ + other);
    }
}

proof fn lemma_one_more_route(
    hosts: Seq<Seq<char>>,
    routes: Seq<RouteConfig>,
    route: RouteConfig,
)
    ensures
        with_hosts_of(hosts, routes.push(route)) == match host_of(route.upstream@) {
            Some(host) => with_hosts_of(hosts, routes).push(host),
            None => with_hosts_of(hosts, routes),
        },
    decreases routes.len(),
{
    let more = routes.push(route);
    if routes.len() == 0 {
        assert(more.drop_first() =~= Seq::empty());
        reveal_with_fuel(with_hosts_of, 2);
    } else {
        let next = match host_of(routes[0].upstream@) {
            Some(host) => hosts.push(host),
            None => hosts,
        };
        assert(more.drop_first() =~= routes.drop_first().push(route));
        lemma_one_more_route(next, routes.drop_first(), route);
    }
}

/// The settings are made of all routes that were found for the credentials, followed by all
/// routes for single endpoints, however many there are of either, and of no route of the profile.
/// The profile's hosts, suffixes and credentials go along as they are, and without a profile
/// there are none.
pub proof fn lemma_settings_are_made_of_all_routes(
    proxy: LaunchOptionsView,
    answers: PolicyAnswers,
    resolved: ResolvedNetworkPolicyView,
    plain_hosts: Seq<Seq<char>>,
)
    requires
        config_plan(proxy, answers) == Err::<ProxyConfigView, HaltView<PolicyRequestView>>(
            HaltView::Ask(PolicyRequestView::BuildConfig { resolved, plain_hosts }),
        ),
    ensures
        answers.routes matches Some(Ok(found)) && {
            &&& answers.partition matches Some(Ok((hosts, endpoints)))
            &&& resolved.routes.len() == found@.len() + endpoints@.len()
            &&& forall|i: int|
                0 <= i < found@.len() ==> #[trigger] resolved.routes[i] == found@[i]
            &&& forall|i: int|
                0 <= i < endpoints@.len() ==> resolved.routes[found@.len() + i]
                    == #[trigger] endpoints@[i]
            &&& plain_hosts == with_hosts_of(hosts.deep_view(), endpoints@)
        },
        proxy.network_profile is None ==> resolved.hosts.len() == 0 && resolved.suffixes.len() == 0
            && resolved.profile_credentials.len() == 0,
        proxy.network_profile is Some ==> (answers.profile matches Some(Ok(profile)) && {
            &&& resolved.hosts == profile.hosts.deep_view()
            &&& resolved.suffixes == profile.suffixes.deep_view()
            &&& resolved.profile_credentials == profile.profile_credentials.deep_view()
        }),
{
}

/// The policy is asked for one thing after the other, each with what is known by then: to be
/// loaded, to resolve the profile if there is one, to find the routes of the profile's and the
/// launch options' credentials, to part the domains, and to make the settings. A refusal is what
/// building fails with, and nothing else makes it fail.
pub proof fn lemma_policy_is_asked_in_order(proxy: LaunchOptionsView, answers: PolicyAnswers)
    ensures
        ({
            let plan = config_plan(proxy, answers);
            let of_profile = match answers.profile {
                Some(Ok(profile)) => profile.profile_credentials.deep_view(),
                _ => seq![],
            };
            let credentials = if proxy.network_profile is Some {
                of_profile
            } else {
                seq![]
            };
            let profile_known = answers.loaded matches Some(Ok(_)) && (proxy.network_profile is None
                || answers.profile matches Some(Ok(_)));
            &&& answers.loaded is None ==> plan == Err::<
                ProxyConfigView,
                HaltView<PolicyRequestView>,
            >(HaltView::Ask(PolicyRequestView::LoadPolicy))
            &&& answers.loaded matches Some(Err(error)) ==> plan == Err::<
                ProxyConfigView,
                HaltView<PolicyRequestView>,
            >(HaltView::Failed(error.deep_view()))
            &&& answers.loaded matches Some(Ok(_)) ==> (proxy.network_profile matches Some(name)
                ==> {
                &&& answers.profile is None ==> plan == Err::<
                    ProxyConfigView,
                    HaltView<PolicyRequestView>,
                >(HaltView::Ask(PolicyRequestView::ResolveProfile { name }))
                &&& answers.profile matches Some(Err(error)) ==> plan == Err::<
                    ProxyConfigView,
                    HaltView<PolicyRequestView>,
                >(HaltView::Failed(error.deep_view()))
            })
            &&& profile_known ==> {
                &&& answers.routes is None ==> plan == Err::<
                    ProxyConfigView,
                    HaltView<PolicyRequestView>,
                >(
                    HaltView::Ask(
                        PolicyRequestView::ResolveCredentials {
                            names: with_missing(credentials, proxy.credentials),
                            custom_credentials: proxy.custom_credentials,
                        },
                    ),
                )
                &&& answers.routes matches Some(Err(error)) ==> plan == Err::<
                    ProxyConfigView,
                    HaltView<PolicyRequestView>,
                >(HaltView::Failed(error.deep_view()))
            }
            &&& profile_known && (answers.routes matches Some(Ok(_))) ==> {
                &&& answers.partition is None ==> plan == Err::<
                    ProxyConfigView,
                    HaltView<PolicyRequestView>,
                >(
                    HaltView::Ask(
                        PolicyRequestView::PartitionAllowDomain {
                            allow_domain: proxy.allow_domain,
                        },
                    ),
                )
                &&& answers.partition matches Some(Err(error)) ==> plan == Err::<
                    ProxyConfigView,
                    HaltView<PolicyRequestView>,
                >(HaltView::Failed(error.deep_view()))
            }
            &&& profile_known && (answers.routes matches Some(Ok(_))) && (
            answers.partition matches Some(Ok(_))) ==> {
                &&& answers.config is None ==> (plan matches Err(HaltView::Ask(request))
                    && request is BuildConfig)
                &&& answers.config is Some <==> plan is Ok
            }
        }),
{
}

/// The settings that come out are those that were made, with these changes alone: the filter is
/// strict exactly where the network is to be blocked; the launch options' external proxy, without
/// credentials and with their bypass, and their port, where they have them; and their lengths of
/// time, set or not.
pub proof fn lemma_launch_settings_change_nothing_else(
    proxy: LaunchOptionsView,
    answers: PolicyAnswers,
)
    ensures
        config_plan(proxy, answers) matches Ok(config) ==> {
            &&& answers.config matches Some(base)
            &&& config.routes == base.routes@
            &&& config.strict_filter <==> proxy.network_block
            &&& proxy.upstream_proxy matches Some(address) ==> (
            config.external_proxy matches Some(external) && {
                &&& external.address == address
                &&& external.auth is None
                &&& external.bypass_hosts == proxy.upstream_bypass
            })
            &&& proxy.upstream_proxy is None ==> config.external_proxy
                == base.external_proxy.deep_view()
            &&& proxy.proxy_port matches Some(port) ==> config.bind_port == port
            &&& proxy.proxy_port is None ==> config.bind_port == base.bind_port
            &&& config.ca_validity == proxy.proxy_ca_validity
            &&& config.leaf_validity == proxy.proxy_leaf_validity
            &&& config.direct_connect_ports == base.direct_connect_ports@
            &&& config.intercept_ca_dir == base.intercept_ca_dir.deep_view()
            &&& config.intercept_parent_ca_pems == base.intercept_parent_ca_pems.deep_view()
        },
{
}

} // verus!
