use proxy_runtime::allow_domain::{
    allow_domain_from_parts, parse_allow_domain_arg, resolve_effective_proxy_settings,
};
use proxy_runtime::command_policy::{
    ApprovalBackendConfig, CommandPoliciesConfig, EndpointPolicyConfig, EndpointRuleConfig,
    PolicyDecision, PolicyDecisionConfig, RoutedApprovalConfig,
};
use proxy_runtime::endpoint_policy::{
    default_backend_name, endpoint_decision_is_approve, endpoint_default_to_proxy,
    endpoint_rule_to_proxy, policy_decision_to_proxy, resolve_approval_timeout,
    validate_endpoint_approval_backend, validate_endpoint_policy_approval_routes,
};
use proxy_runtime::error::ProxyError;
use proxy_runtime::names::{NameMap, NameSet};
use proxy_runtime::numerals::{decimal, lower_hex, padded_decimal};
use proxy_runtime::ports::merge_dedup_ports;
use proxy_runtime::profile::AllowDomainEntry;
use proxy_runtime::proxy_config::{
    EndpointRule, ProxyEndpointPolicyDecision, ProxyEndpointPolicyDefault,
};
use proxy_runtime::sandbox::{NetworkMode, PreparedSandbox, SandboxArgs};
use proxy_runtime::source_env::proxy_source_env_var;
use proxy_runtime::text::{
    has_scheme_separator, same_text, strip_prefix, text_before, trim_line_end, trim_slashes,
};

fn texts(items: &[&str]) -> Vec<String> {
    items.iter().map(|item| item.to_string()).collect()
}

fn prepared() -> PreparedSandbox {
    PreparedSandbox {
        network_mode: NetworkMode::AllowAll,
        network_profile: None,
        allow_domain: Vec::new(),
        credentials: Vec::new(),
        custom_credentials: NameMap::new(),
        command_policies: None,
        listen_ports: Vec::new(),
        upstream_proxy: None,
        upstream_bypass: Vec::new(),
        open_url_origins: Vec::new(),
        open_url_allow_localhost: false,
        allow_launch_services_active: false,
        network_block_requested: false,
        tls_intercept: None,
    }
}

fn rule(backend: Option<&str>, timeout_secs: Option<u64>) -> EndpointRuleConfig {
    EndpointRuleConfig {
        method: "POST".to_string(),
        path: "/v1/**".to_string(),
        backend: backend.map(|name| name.to_string()),
        reason: Some("writes".to_string()),
        timeout_secs,
    }
}

/// Policies with the backends `slow`, which has a timeout, and `plain`, which has none.
fn policies(backend: Option<&str>, timeout_secs: Option<u64>) -> CommandPoliciesConfig {
    let mut policies = CommandPoliciesConfig::default();
    policies.approval_defaults.backend = backend.map(|name| name.to_string());
    policies.approval_defaults.timeout_secs = timeout_secs;
    policies
        .approval_backends
        .insert("slow".to_string(), ApprovalBackendConfig { timeout_secs: Some(90) });
    policies
        .approval_backends
        .insert("plain".to_string(), ApprovalBackendConfig { timeout_secs: None });
    policies
}

#[test]
fn names_come_in_dictionary_order() {
    let mut map: NameMap<u16> = NameMap::new();
    map.insert("b".to_string(), 1);
    map.insert("a".to_string(), 2);
    map.insert("ab".to_string(), 3);
    map.insert("B".to_string(), 4);
    map.insert("a".to_string(), 5);
    let listed: Vec<(String, u16)> = (0..map.len())
        .map(|at| (map.name_at(at).clone(), *map.value_at(at)))
        .collect();
    assert_eq!(
        listed,
        vec![
            ("B".to_string(), 4),
            ("a".to_string(), 5),
            ("ab".to_string(), 3),
            ("b".to_string(), 1),
        ]
    );
    assert_eq!(map.get("ab"), Some(&3));
    assert_eq!(map.get("abc"), None);
    assert!(map.contains_key("B"));
    assert_eq!(map.copied(), map);
}

#[test]
fn a_name_is_in_a_set_once() {
    let mut set = NameSet::new();
    set.insert("x".to_string());
    set.insert("x".to_string());
    set.insert("w".to_string());
    assert_eq!(set.len(), 2);
    assert_eq!(set.name_at(0), "w");
    assert_eq!(set.name_at(1), "x");
    assert!(!set.contains(""));
}

#[test]
fn numerals_have_the_usual_digits() {
    assert_eq!(decimal(0), "0");
    assert_eq!(decimal(10203), "10203");
    assert_eq!(decimal(u128::MAX), format!("{}", u128::MAX));
    assert_eq!(padded_decimal(7, 9), "000000007");
    assert_eq!(padded_decimal(1234567890, 9), "1234567890");
    assert_eq!(padded_decimal(0, 3), "000");
    assert_eq!(lower_hex(0), "0");
    assert_eq!(lower_hex(0xdeadbeef), "deadbeef");
    assert_eq!(lower_hex(u64::MAX), "ffffffffffffffff");
}

#[test]
fn texts_are_trimmed_and_compared() {
    assert_eq!(trim_slashes("//a/b//"), "a/b");
    assert_eq!(trim_slashes("///"), "");
    assert_eq!(trim_slashes(""), "");
    assert_eq!(trim_line_end("token\r\n\n"), "token");
    assert_eq!(trim_line_end("\n"), "");
    assert_eq!(trim_line_end(" a\nb "), " a\nb ");
    assert!(has_scheme_separator("env://X"));
    assert!(!has_scheme_separator("env:/X"));
    assert_eq!(strip_prefix("https://h", "https://"), Some("h".to_string()));
    assert_eq!(strip_prefix("http://h", "https://"), None);
    assert_eq!(strip_prefix("https://", "https://"), Some(String::new()));
    assert!(same_text("äö", "äö"));
    assert!(text_before("a", "ab"));
    assert!(!text_before("b", "ab"));
}

#[test]
fn merged_ports_ascend_without_repeats() {
    assert_eq!(merge_dedup_ports(&[443, 80, 80], &[8080, 443, 1]), vec![1, 80, 443, 8080]);
    assert_eq!(merge_dedup_ports(&[], &[]), Vec::<u16>::new());
    assert_eq!(merge_dedup_ports(&[65535, 0], &[]), vec![0, 65535]);
}

#[test]
fn merging_ports_twice_changes_nothing() {
    let once = merge_dedup_ports(&[3, 1, 2], &[2, 9]);
    assert_eq!(merge_dedup_ports(&once, &once), once);
    assert_eq!(merge_dedup_ports(&[2, 9], &[3, 1, 2]), once);
}

#[test]
fn source_variables_are_names() {
    assert_eq!(
        proxy_source_env_var("github-api"),
        "NONO_TOOL_SANDBOX_PROXY_CREDENTIAL_GITHUB_API"
    );
    assert_eq!(
        proxy_source_env_var("aZ09é/"),
        "NONO_TOOL_SANDBOX_PROXY_CREDENTIAL_AZ09___"
    );
    assert_eq!(proxy_source_env_var(""), "NONO_TOOL_SANDBOX_PROXY_CREDENTIAL_");
}

#[test]
fn hosts_of_urls_are_normalised() {
    assert_eq!(
        parse_allow_domain_arg("HTTPS://API.Example.COM"),
        AllowDomainEntry::Plain("api.example.com".to_string())
    );
    assert_eq!(
        parse_allow_domain_arg("https://example.com:8443/a/../b"),
        AllowDomainEntry::WithEndpoints {
            domain: "example.com".to_string(),
            endpoints: vec![EndpointRule { method: "*".to_string(), path: "/b".to_string() }],
        }
    );
}

#[test]
fn urls_without_a_host_stand_for_themselves() {
    assert_eq!(
        parse_allow_domain_arg("mailto:someone@example.com"),
        AllowDomainEntry::WithEndpoints {
            domain: "mailto:someone@example.com".to_string(),
            endpoints: vec![EndpointRule {
                method: "*".to_string(),
                path: "someone@example.com".to_string(),
            }],
        }
    );
    assert_eq!(parse_allow_domain_arg(""), AllowDomainEntry::Plain(String::new()));
    assert_eq!(
        parse_allow_domain_arg("https://"),
        AllowDomainEntry::Plain("https://".to_string())
    );
}

#[test]
fn the_parts_of_a_url_decide() {
    assert_eq!(
        allow_domain_from_parts("in", None),
        AllowDomainEntry::Plain("in".to_string())
    );
    assert_eq!(
        allow_domain_from_parts("in", Some((None, String::new()))),
        AllowDomainEntry::Plain("in".to_string())
    );
    assert_eq!(
        allow_domain_from_parts("in", Some((Some("h".to_string()), "/p".to_string()))),
        AllowDomainEntry::WithEndpoints {
            domain: "h".to_string(),
            endpoints: vec![EndpointRule { method: "*".to_string(), path: "/p".to_string() }],
        }
    );
}

#[test]
fn the_command_line_adds_to_the_profile() {
    let mut prepared = prepared();
    prepared.network_profile = Some("from-profile".to_string());
    prepared.allow_domain = vec![AllowDomainEntry::Plain("a.example".to_string())];
    prepared.credentials = texts(&["one"]);
    let mut args = SandboxArgs {
        allow_proxy: texts(&["https://b.example/x"]),
        proxy_credential: texts(&["two", "one"]),
        ..SandboxArgs::default()
    };
    let settings = resolve_effective_proxy_settings(&args, &prepared);
    assert_eq!(settings.network_profile, Some("from-profile".to_string()));
    assert_eq!(settings.credentials, texts(&["one", "two", "one"]));
    assert_eq!(settings.allow_domain.len(), 2);
    assert_eq!(settings.allow_domain[0], AllowDomainEntry::Plain("a.example".to_string()));
    args.network_profile = Some("from-args".to_string());
    assert_eq!(
        resolve_effective_proxy_settings(&args, &prepared).network_profile,
        Some("from-args".to_string())
    );
    args.allow_net = true;
    let open = resolve_effective_proxy_settings(&args, &prepared);
    assert_eq!(open.network_profile, None);
    assert!(open.allow_domain.is_empty());
    assert!(open.credentials.is_empty());
}

#[test]
fn timeouts_come_from_the_nearest_place() {
    let config = policies(Some("slow"), Some(7));
    assert_eq!(resolve_approval_timeout(&config, Some("plain"), Some(3)), Some(3));
    assert_eq!(resolve_approval_timeout(&config, Some("slow"), None), Some(90));
    assert_eq!(resolve_approval_timeout(&config, Some("plain"), None), Some(7));
    assert_eq!(resolve_approval_timeout(&config, Some("unknown"), None), Some(7));
    assert_eq!(resolve_approval_timeout(&config, None, None), Some(90));
    assert_eq!(resolve_approval_timeout(&policies(None, None), None, None), None);
}

#[test]
fn decisions_keep_their_meaning() {
    assert_eq!(
        policy_decision_to_proxy(&PolicyDecision::Deny),
        ProxyEndpointPolicyDecision::Deny
    );
    assert_eq!(
        policy_decision_to_proxy(&PolicyDecision::Approve),
        ProxyEndpointPolicyDecision::Approve
    );
    assert_eq!(
        policy_decision_to_proxy(&PolicyDecision::Allow),
        ProxyEndpointPolicyDecision::Allow
    );
    let routed = PolicyDecisionConfig::RoutedApproval(RoutedApprovalConfig {
        decision: PolicyDecision::Approve,
        backend: Some("slow".to_string()),
        timeout_secs: None,
    });
    assert!(endpoint_decision_is_approve(&routed));
    assert!(!endpoint_decision_is_approve(&PolicyDecisionConfig::Decision(PolicyDecision::Allow)));
    assert_eq!(default_backend_name(&routed), Some("slow"));
    assert_eq!(
        default_backend_name(&PolicyDecisionConfig::Decision(PolicyDecision::Approve)),
        None
    );
    let config = policies(None, Some(7));
    assert_eq!(
        endpoint_default_to_proxy(&config, &routed),
        ProxyEndpointPolicyDefault {
            decision: ProxyEndpointPolicyDecision::Approve,
            backend: Some("slow".to_string()),
            timeout_secs: Some(90),
        }
    );
    assert_eq!(
        endpoint_default_to_proxy(
            &policies(Some("slow"), Some(7)),
            &PolicyDecisionConfig::Decision(PolicyDecision::Deny)
        ),
        ProxyEndpointPolicyDefault {
            decision: ProxyEndpointPolicyDecision::Deny,
            backend: None,
            timeout_secs: Some(7),
        }
    );
    let out = endpoint_rule_to_proxy(&config, &rule(None, None));
    assert_eq!(out.method, "POST");
    assert_eq!(out.path, "/v1/**");
    assert_eq!(out.backend, None);
    assert_eq!(out.reason, Some("writes".to_string()));
    assert_eq!(out.timeout_secs, Some(7));
}

#[test]
fn approvals_need_a_known_backend() {
    let config = policies(None, None);
    assert_eq!(validate_endpoint_approval_backend(&config, "c", Some("slow")), Ok(()));
    assert_eq!(
        validate_endpoint_approval_backend(&config, "c", None),
        Err(ProxyError::ConfigParse(
            "tool-sandbox proxy credential 'c' endpoint_policy approve route requires an approval backend"
                .to_string()
        ))
    );
    assert_eq!(
        validate_endpoint_approval_backend(&config, "c", Some("x")),
        Err(ProxyError::ConfigParse(
            "tool-sandbox proxy credential 'c' endpoint_policy references unknown approval backend 'x'"
                .to_string()
        ))
    );
    assert_eq!(
        validate_endpoint_approval_backend(&policies(Some("plain"), None), "c", None),
        Ok(())
    );
}

#[test]
fn every_approval_of_a_policy_is_checked() {
    let config = policies(None, None);
    let mut policy = EndpointPolicyConfig {
        default: PolicyDecisionConfig::Decision(PolicyDecision::Deny),
        deny: vec![rule(Some("x"), None)],
        approve: vec![rule(Some("slow"), None)],
        allow: vec![rule(None, None)],
    };
    assert_eq!(validate_endpoint_policy_approval_routes(&config, "c", &policy), Ok(()));
    policy.approve.push(rule(Some("x"), None));
    assert!(validate_endpoint_policy_approval_routes(&config, "c", &policy).is_err());
    policy.approve.pop();
    policy.default = PolicyDecisionConfig::Decision(PolicyDecision::Approve);
    let err = validate_endpoint_policy_approval_routes(&config, "c", &policy)
        .err()
        .expect("the default has no backend");
    assert!(err.message().contains("requires an approval backend"));
}
