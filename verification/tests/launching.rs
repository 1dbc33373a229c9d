use std::collections::VecDeque;

use proxy_runtime::config_build::{
    admit_route_hosts, apply_launch_settings, build_proxy_config_from_flags,
    credentials_to_resolve, PolicyAnswers, PolicyRequest,
};
use proxy_runtime::error::ProxyError;
use proxy_runtime::host::Halt;
use proxy_runtime::launch_options::{prepare_proxy_launch_options, LaunchAnswers, LaunchRequest};
use proxy_runtime::names::NameMap;
use proxy_runtime::profile::{AllowDomainEntry, CustomCredentialDef, TlsCaLifecycle, TlsInterceptConfig};
use proxy_runtime::proxy_config::{
    ExternalProxyConfig, InjectMode, ProxyConfig, ResolvedNetworkPolicy, RouteConfig, TimeSpan,
};
use proxy_runtime::sandbox::{
    NetworkMode, Platform, PreparedSandbox, ProxyLaunchOptions, SandboxArgs,
};
use proxy_runtime::tls::{
    resolve_tls_intercept_options, CertificateKind, DurationRequest, ResolvedTlsInterceptOptions,
    TlsAnswers,
};

fn texts(items: &[&str]) -> Vec<String> {
    items.iter().map(|item| item.to_string()).collect()
}

fn prepared(network_mode: NetworkMode) -> PreparedSandbox {
    PreparedSandbox {
        network_mode,
        network_profile: None,
        allow_domain: Vec::new(),
        credentials: Vec::new(),
        custom_credentials: NameMap::new(),
        command_policies: None,
        listen_ports: vec![9000],
        upstream_proxy: None,
        upstream_bypass: Vec::new(),
        open_url_origins: texts(&["https://login.example"]),
        open_url_allow_localhost: true,
        allow_launch_services_active: true,
        network_block_requested: false,
        tls_intercept: None,
    }
}

fn valid_bypass() -> LaunchAnswers {
    LaunchAnswers { bypass: Some(Ok(())), ..LaunchAnswers::default() }
}

fn tls(ca_lifecycle: TlsCaLifecycle, ca: Option<&str>, leaf: Option<&str>) -> TlsInterceptConfig {
    TlsInterceptConfig {
        ca_lifecycle,
        ca_validity: ca.map(|text| text.to_string()),
        leaf_validity: leaf.map(|text| text.to_string()),
    }
}

fn with_tls(tls: TlsInterceptConfig) -> PreparedSandbox {
    PreparedSandbox { tls_intercept: Some(tls), ..prepared(NetworkMode::AllowAll) }
}

fn route(prefix: &str, upstream: &str) -> RouteConfig {
    RouteConfig {
        prefix: prefix.to_string(),
        upstream: upstream.to_string(),
        credential_key: None,
        inject_mode: InjectMode::Header,
        inject_header: "Authorization".to_string(),
        credential_format: None,
        path_pattern: None,
        path_replacement: None,
        query_param_name: None,
        proxy: None,
        env_var: None,
        endpoint_rules: Vec::new(),
        endpoint_policy: None,
        tls_ca: None,
        tls_client_cert: None,
        tls_client_key: None,
        oauth2: None,
    }
}

fn custom() -> CustomCredentialDef {
    CustomCredentialDef {
        upstream: "https://x.example".to_string(),
        credential_key: Some("x-key".to_string()),
        auth: None,
        inject_mode: InjectMode::Header,
        inject_header: "Authorization".to_string(),
        credential_format: None,
        path_pattern: None,
        path_replacement: None,
        query_param_name: None,
        proxy: None,
        env_var: Some("X_TOKEN".to_string()),
        endpoint_rules: Vec::new(),
        endpoint_policy: None,
        tls_ca: None,
        tls_client_cert: None,
        tls_client_key: None,
    }
}

#[test]
fn the_bypass_is_validated_first() {
    let args = SandboxArgs::default();
    let prepared = prepared(NetworkMode::AllowAll);
    let asked =
        prepare_proxy_launch_options(&args, &prepared, true, Platform::Other, LaunchAnswers::default());
    assert_eq!(
        asked.err().expect("a question"),
        Halt::Ask(LaunchRequest::ValidateExternalProxyBypass { args: &args, prepared: &prepared })
    );
    let refused = prepare_proxy_launch_options(
        &args,
        &prepared,
        true,
        Platform::Other,
        LaunchAnswers {
            bypass: Some(Err(ProxyError::Host("no proxy to bypass".to_string()))),
            grants: VecDeque::new(),
            tls: TlsAnswers::default(),
        },
    );
    assert_eq!(
        refused.err().expect("a failure"),
        Halt::Failed(ProxyError::Host("no proxy to bypass".to_string()))
    );
}

#[test]
fn a_blocked_network_stays_blocked() {
    let args = SandboxArgs { proxy_credential: texts(&["github"]), ..SandboxArgs::default() };
    let prepared = prepared(NetworkMode::Blocked);
    for silent in [true, false] {
        let launch =
            prepare_proxy_launch_options(&args, &prepared, silent, Platform::Other, valid_bypass())
                .ok()
                .expect("launch options");
        assert!(!launch.options.active);
        assert!(launch.log_override);
        assert_eq!(launch.print_override, !silent);
    }
    let quiet = SandboxArgs::default();
    let launch =
        prepare_proxy_launch_options(&quiet, &prepared, false, Platform::Other, valid_bypass())
            .ok()
            .expect("launch options");
    assert!(!launch.options.active);
    assert!(!launch.log_override);
    assert!(!launch.print_override);
}

#[test]
fn the_proxy_runs_where_something_needs_it() {
    let open = prepared(NetworkMode::AllowAll);
    let active = |args: &SandboxArgs, prepared: &PreparedSandbox| {
        prepare_proxy_launch_options(args, prepared, true, Platform::Other, valid_bypass())
            .ok()
            .expect("launch options")
            .options
            .active
    };
    assert!(!active(&SandboxArgs::default(), &open));
    let proxied = prepared(NetworkMode::ProxyOnly { port: 0, bind_ports: Vec::new() });
    assert!(active(&SandboxArgs::default(), &proxied));
    assert!(active(
        &SandboxArgs { proxy_credential: texts(&["c"]), ..SandboxArgs::default() },
        &open
    ));
    assert!(active(
        &SandboxArgs { network_profile: Some("p".to_string()), ..SandboxArgs::default() },
        &open
    ));
    assert!(active(&SandboxArgs { allow_proxy: texts(&["d"]), ..SandboxArgs::default() }, &open));
    assert!(active(
        &SandboxArgs { external_proxy: Some("e:1".to_string()), ..SandboxArgs::default() },
        &open
    ));
}

#[test]
fn launch_options_carry_everything_over() {
    let mut prepared = prepared(NetworkMode::AllowAll);
    prepared.upstream_proxy = Some("profile:3128".to_string());
    prepared.upstream_bypass = texts(&["a.example"]);
    prepared.network_block_requested = true;
    let mut args = SandboxArgs {
        external_proxy_bypass: texts(&["b.example"]),
        allow_bind: vec![80, 9000],
        proxy_port: Some(7777),
        proxy_ca_validity: Some(2),
        allow_proxy: texts(&["github.com"]),
        ..SandboxArgs::default()
    };
    let launch =
        prepare_proxy_launch_options(&args, &prepared, true, Platform::Other, valid_bypass())
            .ok()
            .expect("launch options");
    let options = launch.options;
    assert!(options.active);
    assert_eq!(options.upstream_proxy, Some("profile:3128".to_string()));
    assert_eq!(options.upstream_bypass, texts(&["a.example", "b.example"]));
    assert_eq!(options.allow_bind_ports, vec![80, 9000]);
    assert_eq!(options.proxy_port, Some(7777));
    assert_eq!(options.proxy_ca_validity, Some(TimeSpan { secs: 172800, nanos: 0 }));
    assert_eq!(options.proxy_leaf_validity, None);
    assert_eq!(options.allow_domain, vec![AllowDomainEntry::Plain("github.com".to_string())]);
    assert_eq!(options.open_url_origins, texts(&["https://login.example"]));
    assert!(options.open_url_allow_localhost);
    assert!(options.allow_launch_services_active);
    assert!(options.network_block);
    assert!(!launch.log_override);

    args.external_proxy = Some("args:1".to_string());
    let launch =
        prepare_proxy_launch_options(&args, &prepared, true, Platform::Other, valid_bypass())
            .ok()
            .expect("launch options");
    assert_eq!(launch.options.upstream_proxy, Some("args:1".to_string()));
    assert_eq!(launch.options.upstream_bypass, texts(&["b.example"]));

    args.allow_net = true;
    let launch =
        prepare_proxy_launch_options(&args, &prepared, true, Platform::Other, valid_bypass())
            .ok()
            .expect("launch options");
    assert_eq!(launch.options.upstream_proxy, None);
    assert!(launch.options.upstream_bypass.is_empty());
    assert!(!launch.options.active);
}

#[test]
fn lengths_of_time_are_read_by_the_host() {
    let args = SandboxArgs::default();
    let profile = with_tls(tls(TlsCaLifecycle::Session, Some("30d"), Some("1h")));
    let ca = TimeSpan { secs: 2592000, nanos: 0 };
    let leaf = TimeSpan { secs: 3600, nanos: 0 };
    assert_eq!(
        resolve_tls_intercept_options(&args, &profile, Platform::Other, TlsAnswers::default()),
        Err(Halt::Ask(DurationRequest {
            kind: CertificateKind::Authority,
            field: "network.tls_intercept.ca_validity".to_string(),
            value: "30d".to_string(),
        }))
    );
    assert_eq!(
        resolve_tls_intercept_options(
            &args,
            &profile,
            Platform::Other,
            TlsAnswers { ca_validity: Some(Ok(ca)), leaf_validity: None }
        ),
        Err(Halt::Ask(DurationRequest {
            kind: CertificateKind::Leaf,
            field: "network.tls_intercept.leaf_validity".to_string(),
            value: "1h".to_string(),
        }))
    );
    let both = TlsAnswers { ca_validity: Some(Ok(ca)), leaf_validity: Some(Ok(leaf)) };
    assert_eq!(
        resolve_tls_intercept_options(&args, &profile, Platform::Other, both.clone()),
        Ok(ResolvedTlsInterceptOptions {
            trust_proxy_ca: false,
            ca_validity: Some(ca),
            leaf_validity: Some(leaf),
        })
    );
    let days = SandboxArgs { proxy_ca_validity: Some(1), ..SandboxArgs::default() };
    assert_eq!(
        resolve_tls_intercept_options(&days, &profile, Platform::Other, both)
            .expect("options")
            .ca_validity,
        Some(TimeSpan { secs: 86400, nanos: 0 })
    );
    let unreadable = TlsAnswers {
        ca_validity: Some(Err(ProxyError::ConfigParse("bad".to_string()))),
        leaf_validity: None,
    };
    assert_eq!(
        resolve_tls_intercept_options(&days, &profile, Platform::Other, unreadable),
        Err(Halt::Failed(ProxyError::ConfigParse("bad".to_string())))
    );
}

#[test]
fn lifecycles_that_cannot_be_had_are_refused() {
    let args = SandboxArgs { trust_proxy_ca: true, ..SandboxArgs::default() };
    let session = with_tls(tls(TlsCaLifecycle::Session, None, None));
    let trusted = with_tls(tls(TlsCaLifecycle::Trusted, None, None));
    assert_eq!(
        resolve_tls_intercept_options(&args, &session, Platform::MacOs, TlsAnswers::default()),
        Err(Halt::Failed(ProxyError::ConfigParse(
            "profile requests network.tls_intercept.ca_lifecycle=session but --trust-proxy-ca requests trusted"
                .to_string()
        )))
    );
    assert_eq!(
        resolve_tls_intercept_options(&args, &trusted, Platform::Other, TlsAnswers::default()),
        Err(Halt::Failed(ProxyError::ConfigParse(
            "network.tls_intercept.ca_lifecycle=trusted is currently only supported on macOS"
                .to_string()
        )))
    );
    let none = SandboxArgs::default();
    assert!(
        resolve_tls_intercept_options(&none, &trusted, Platform::MacOs, TlsAnswers::default())
            .expect("options")
            .trust_proxy_ca
    );
    assert!(
        resolve_tls_intercept_options(&args, &prepared(NetworkMode::AllowAll), Platform::MacOs, TlsAnswers::default())
            .expect("options")
            .trust_proxy_ca
    );
}

#[test]
fn credentials_are_resolved_once_each() {
    assert_eq!(
        credentials_to_resolve(&texts(&["a", "b"]), &texts(&["c", "b", "c"])),
        texts(&["a", "b", "c"])
    );
    assert_eq!(credentials_to_resolve(&texts(&["a", "a"]), &texts(&[])), texts(&["a", "a"]));
}

#[test]
fn hosts_of_endpoint_routes_are_admitted() {
    let mut hosts = texts(&["x.example"]);
    admit_route_hosts(
        &mut hosts,
        &vec![
            route("a", "https://a.example:8443"),
            route("b", "http://b.example"),
            route("c", "ftp://c.example"),
        ],
    );
    assert_eq!(hosts, texts(&["x.example", "a.example:8443", "b.example"]));
}

#[test]
fn launch_settings_go_over_the_rest() {
    let base = ProxyConfig {
        routes: vec![route("a", "https://a.example")],
        strict_filter: true,
        external_proxy: Some(ExternalProxyConfig {
            address: "old:1".to_string(),
            auth: Some("basic".to_string()),
            bypass_hosts: Vec::new(),
        }),
        bind_port: 1,
        ca_validity: Some(TimeSpan { secs: 5, nanos: 0 }),
        ..ProxyConfig::default()
    };
    let plain = apply_launch_settings(base.clone(), &ProxyLaunchOptions::default());
    assert_eq!(
        plain,
        ProxyConfig { strict_filter: false, ca_validity: None, ..base.clone() }
    );
    let proxy = ProxyLaunchOptions {
        upstream_proxy: Some("new:2".to_string()),
        upstream_bypass: texts(&["h"]),
        proxy_port: Some(2),
        proxy_leaf_validity: Some(TimeSpan { secs: 6, nanos: 7 }),
        network_block: true,
        ..ProxyLaunchOptions::default()
    };
    let full = apply_launch_settings(base.clone(), &proxy);
    assert_eq!(
        full,
        ProxyConfig {
            external_proxy: Some(ExternalProxyConfig {
                address: "new:2".to_string(),
                auth: None,
                bypass_hosts: texts(&["h"]),
            }),
            bind_port: 2,
            ca_validity: None,
            leaf_validity: Some(TimeSpan { secs: 6, nanos: 7 }),
            ..base
        }
    );
}

#[test]
fn the_policy_is_worked_through_in_order() {
    let mut proxy = ProxyLaunchOptions {
        network_profile: Some("dev".to_string()),
        credentials: texts(&["x", "y"]),
        allow_domain: vec![AllowDomainEntry::Plain("d.example".to_string())],
        ..ProxyLaunchOptions::default()
    };
    proxy.custom_credentials.insert("x".to_string(), custom());
    let mut customs = NameMap::new();
    customs.insert("x".to_string(), custom());
    let resolved = ResolvedNetworkPolicy {
        hosts: texts(&["h"]),
        suffixes: texts(&["s"]),
        routes: vec![route("gone", "https://gone")],
        profile_credentials: texts(&["y", "z"]),
    };
    let mut answers = PolicyAnswers::default();
    assert_eq!(
        build_proxy_config_from_flags(&proxy, answers.clone()),
        Err(Halt::Ask(PolicyRequest::LoadPolicy))
    );
    answers.loaded = Some(Ok(()));
    assert_eq!(
        build_proxy_config_from_flags(&proxy, answers.clone()),
        Err(Halt::Ask(PolicyRequest::ResolveProfile { name: "dev".to_string() }))
    );
    answers.profile = Some(Ok(resolved.clone()));
    assert_eq!(
        build_proxy_config_from_flags(&proxy, answers.clone()),
        Err(Halt::Ask(PolicyRequest::ResolveCredentials {
            names: texts(&["y", "z", "x"]),
            custom_credentials: customs,
        }))
    );
    answers.routes = Some(Ok(vec![route("y", "https://y")]));
    assert_eq!(
        build_proxy_config_from_flags(&proxy, answers.clone()),
        Err(Halt::Ask(PolicyRequest::PartitionAllowDomain {
            allow_domain: vec![AllowDomainEntry::Plain("d.example".to_string())],
        }))
    );
    answers.partition = Some(Ok((texts(&["p"]), vec![route("e", "https://e")])));
    assert_eq!(
        build_proxy_config_from_flags(&proxy, answers.clone()),
        Err(Halt::Ask(PolicyRequest::BuildConfig {
            resolved: ResolvedNetworkPolicy {
                routes: vec![route("y", "https://y"), route("e", "https://e")],
                ..resolved
            },
            plain_hosts: texts(&["p", "e"]),
        }))
    );
    answers.config = Some(ProxyConfig { bind_port: 9, ..ProxyConfig::default() });
    assert_eq!(
        build_proxy_config_from_flags(&proxy, answers.clone()),
        Ok(ProxyConfig { bind_port: 9, ..ProxyConfig::default() })
    );
    answers.routes = Some(Err(ProxyError::Host("unknown credential".to_string())));
    assert_eq!(
        build_proxy_config_from_flags(&proxy, answers),
        Err(Halt::Failed(ProxyError::Host("unknown credential".to_string())))
    );
}

#[test]
fn without_a_profile_only_own_credentials_count() {
    let proxy =
        ProxyLaunchOptions { credentials: texts(&["x"]), ..ProxyLaunchOptions::default() };
    let answers = PolicyAnswers { loaded: Some(Ok(())), ..PolicyAnswers::default() };
    assert_eq!(
        build_proxy_config_from_flags(&proxy, answers),
        Err(Halt::Ask(PolicyRequest::ResolveCredentials {
            names: texts(&["x"]),
            custom_credentials: NameMap::new(),
        }))
    );
}
