use std::collections::VecDeque;

use proxy_runtime::allow_domain::parse_allow_domain_arg;
use proxy_runtime::command_policy::{
    ApprovalBackendConfig, CommandCredentialConfig, CommandCredentialGrantConfig,
    CommandCredentialGrantPolicyConfig, CommandCredentialType, CommandPoliciesConfig,
    CommandPolicyConfig, CommandSandboxConfig, EndpointPolicyConfig, EndpointRuleConfig,
    PolicyDecision, PolicyDecisionConfig,
};
use proxy_runtime::config_build::{build_proxy_config_from_flags, PolicyAnswers};
use proxy_runtime::credential_env::{
    scoped_tool_sandbox_proxy_credential_env_vars, tool_sandbox_proxy_env_var_names,
};
use proxy_runtime::endpoint_policy::endpoint_policy_to_proxy_policy;
use proxy_runtime::error::ProxyError;
use proxy_runtime::grants::{
    extend_proxy_settings_with_tool_sandbox_credentials, Answer, GrantRequest, ToolSandboxSettings,
};
use proxy_runtime::host::Halt;
use proxy_runtime::names::NameMap;
use proxy_runtime::profile::AllowDomainEntry;
use proxy_runtime::proxy_config::{InjectMode, ProxyConfig, RouteConfig};
use proxy_runtime::sandbox::ProxyLaunchOptions;
use proxy_runtime::session_files::{settle_intercept_dir, InterceptDirOutcome};

/// Grants what `policies` grant on a host that takes every name and leaves paths as they are.
fn grant(policies: &CommandPoliciesConfig) -> Result<ToolSandboxSettings, ProxyError> {
    let mut given: Vec<Answer> = Vec::new();
    loop {
        let mut settings = ToolSandboxSettings::new(Vec::new(), NameMap::new());
        let mut answers: VecDeque<Answer> = given.iter().cloned().collect();
        match extend_proxy_settings_with_tool_sandbox_credentials(
            Some(policies),
            &mut settings,
            &mut answers,
        ) {
            Ok(()) => return Ok(settings),
            Err(Halt::Failed(error)) => return Err(error),
            Err(Halt::Ask(request)) => given.push(match request {
                GrantRequest::CheckEnvVar { .. } => Ok(String::new()),
                GrantRequest::ExpandPath { path } => Ok(path),
                GrantRequest::LoadSecret { key } => Err(ProxyError::Host(key)),
                GrantRequest::RunCommand { command, .. } => Err(ProxyError::Host(command)),
            }),
        }
    }
}

fn policy_answers() -> PolicyAnswers {
    PolicyAnswers {
        loaded: Some(Ok(())),
        profile: None,
        routes: Some(Ok(Vec::new())),
        partition: Some(Ok((Vec::new(), Vec::new()))),
        config: Some(ProxyConfig::default()),
    }
}

#[test]
fn set_intercept_ca_dir_permissions_fails_closed() {
    let err = settle_intercept_dir(
        "missing".to_string(),
        InterceptDirOutcome::NotSecured {
            cause: "No such file or directory (os error 2)".to_string(),
        },
    )
    .err()
    .expect("expected missing intercept dir to fail");

    assert!(matches!(err, ProxyError::SandboxInit(_)));
    assert!(err.message().contains("TLS-intercept dir"));
}

#[test]
fn test_parse_allow_domain_arg_plain_hostname() {
    let entry = parse_allow_domain_arg("github.com");
    assert_eq!(entry, AllowDomainEntry::Plain("github.com".to_string()));
}

#[test]
fn test_parse_allow_domain_arg_url_with_path() {
    let entry = parse_allow_domain_arg("https://github.com/atko-cic/**");
    match entry {
        AllowDomainEntry::WithEndpoints { domain, endpoints } => {
            assert_eq!(domain, "github.com");
            assert_eq!(endpoints.len(), 1);
            assert_eq!(endpoints[0].method, "*");
            assert_eq!(endpoints[0].path, "/atko-cic/**");
        }
        _ => panic!("expected WithEndpoints, got: {:?}", entry),
    }
}

#[test]
fn test_parse_allow_domain_arg_url_root_is_plain() {
    let entry = parse_allow_domain_arg("https://api.example.com/");
    assert_eq!(entry, AllowDomainEntry::Plain("api.example.com".to_string()));
}

#[test]
fn test_parse_allow_domain_arg_url_no_path_is_plain() {
    let entry = parse_allow_domain_arg("https://api.example.com");
    assert_eq!(entry, AllowDomainEntry::Plain("api.example.com".to_string()));
}

#[test]
fn test_parse_allow_domain_arg_deep_path() {
    let entry = parse_allow_domain_arg("https://github.com/org/repo/tree/**");
    match entry {
        AllowDomainEntry::WithEndpoints { domain, endpoints } => {
            assert_eq!(domain, "github.com");
            assert_eq!(endpoints[0].path, "/org/repo/tree/**");
        }
        _ => panic!("expected WithEndpoints"),
    }
}

/// `network_block: true` must set `strict_filter` on the generated `ProxyConfig`.
#[test]
fn test_build_proxy_config_propagates_network_block_to_strict_filter() {
    let proxy = ProxyLaunchOptions {
        active: true,
        network_block: true,
        ..ProxyLaunchOptions::default()
    };
    let config = build_proxy_config_from_flags(&proxy, policy_answers())
        .expect("build_proxy_config_from_flags");
    assert!(
        config.strict_filter,
        "network_block: true must set strict_filter on ProxyConfig"
    );
}

#[test]
fn test_build_proxy_config_strict_filter_off_when_no_block() {
    let proxy = ProxyLaunchOptions {
        active: true,
        network_block: false,
        ..ProxyLaunchOptions::default()
    };
    let config = build_proxy_config_from_flags(&proxy, policy_answers())
        .expect("build_proxy_config_from_flags");
    assert!(
        !config.strict_filter,
        "strict_filter must default off when network_block is false"
    );
}

#[test]
fn tool_sandbox_proxy_credentials_create_endpoint_filtered_route() {
    let mut policies = CommandPoliciesConfig {
        active: true,
        ..CommandPoliciesConfig::default()
    };
    policies.credentials.insert(
        "github-api".to_string(),
        CommandCredentialConfig {
            credential_type: CommandCredentialType::Proxy,
            upstream: Some("https://api.github.com".to_string()),
            credential_key: Some("github-token".to_string()),
            env_var: Some("GITHUB_TOKEN".to_string()),
            base_url_env_var: Some("GITHUB_API_BASE_URL".to_string()),
            inject_header: Some("Authorization".to_string()),
            credential_format: Some("Bearer {}".to_string()),
            tls_ca: Some("/tmp/github-ca.pem".to_string()),
            ..CommandCredentialConfig::default()
        },
    );
    policies.commands.insert(
        "agent".to_string(),
        CommandPolicyConfig {
            sandbox: Some(CommandSandboxConfig {
                credentials: vec![CommandCredentialGrantConfig::Policy(
                    CommandCredentialGrantPolicyConfig {
                        name: "github-api".to_string(),
                        endpoint_policy: Some(EndpointPolicyConfig {
                            default: PolicyDecisionConfig::Decision(PolicyDecision::Deny),
                            deny: Vec::new(),
                            approve: Vec::new(),
                            allow: vec![EndpointRuleConfig {
                                method: "GET".to_string(),
                                path: "/repos/example/**".to_string(),
                                backend: None,
                                reason: None,
                                timeout_secs: None,
                            }],
                        }),
                    },
                )],
                ..CommandSandboxConfig::default()
            }),
            ..CommandPolicyConfig::default()
        },
    );

    let settings = grant(&policies).expect("granting the credential");

    assert_eq!(settings.credentials, vec!["github-api".to_string()]);
    assert!(settings.tool_sandbox_proxy_credentials.contains("github-api"));
    assert_eq!(
        settings.base_url_env_vars.get("github-api"),
        Some(&"GITHUB_API_BASE_URL".to_string())
    );
    let route = settings
        .custom_credentials
        .get("github-api")
        .expect("missing github-api route");
    assert_eq!(route.upstream, "https://api.github.com");
    assert_eq!(route.credential_key, Some("github-token".to_string()));
    assert_eq!(route.env_var, Some("GITHUB_TOKEN".to_string()));
    assert_eq!(route.tls_ca, Some("/tmp/github-ca.pem".to_string()));
    assert!(route.endpoint_rules.is_empty());
    let endpoint_policy = route
        .endpoint_policy
        .as_ref()
        .expect("missing endpoint policy");
    assert_eq!(endpoint_policy.allow.len(), 1);
    assert_eq!(endpoint_policy.allow[0].method, "GET");
    assert_eq!(endpoint_policy.allow[0].path, "/repos/example/**");
}

#[test]
fn tool_sandbox_proxy_credentials_require_policy_grants() {
    let mut policies = CommandPoliciesConfig {
        active: true,
        ..CommandPoliciesConfig::default()
    };
    policies.credentials.insert(
        "github-api".to_string(),
        CommandCredentialConfig {
            credential_type: CommandCredentialType::Proxy,
            upstream: Some("https://api.github.com".to_string()),
            env_var: Some("GITHUB_TOKEN".to_string()),
            ..CommandCredentialConfig::default()
        },
    );
    policies.commands.insert(
        "agent".to_string(),
        CommandPolicyConfig {
            sandbox: Some(CommandSandboxConfig {
                credentials: vec![CommandCredentialGrantConfig::Name("github-api".to_string())],
                ..CommandSandboxConfig::default()
            }),
            ..CommandPolicyConfig::default()
        },
    );

    let err = grant(&policies).err().expect("expected proxy grant failure");

    assert!(err.message().contains("must include endpoint_policy"));
}

#[test]
fn tool_sandbox_proxy_endpoint_policy_preserves_deny_and_approve_routes() {
    let policy = EndpointPolicyConfig {
        default: PolicyDecisionConfig::Decision(PolicyDecision::Deny),
        deny: vec![EndpointRuleConfig {
            method: "DELETE".to_string(),
            path: "/repos/example/**".to_string(),
            backend: None,
            reason: Some("destructive endpoint".to_string()),
            timeout_secs: None,
        }],
        approve: vec![EndpointRuleConfig {
            method: "POST".to_string(),
            path: "/repos/example/*/issues".to_string(),
            backend: Some("terminal".to_string()),
            reason: None,
            timeout_secs: None,
        }],
        allow: vec![EndpointRuleConfig {
            method: "GET".to_string(),
            path: "/repos/example/**".to_string(),
            backend: None,
            reason: None,
            timeout_secs: None,
        }],
    };

    let proxy_policy = endpoint_policy_to_proxy_policy(&CommandPoliciesConfig::default(), &policy);

    assert_eq!(proxy_policy.deny.len(), 1);
    assert_eq!(proxy_policy.deny[0].method, "DELETE");
    assert_eq!(proxy_policy.approve.len(), 1);
    assert_eq!(proxy_policy.approve[0].method, "POST");
    assert_eq!(
        proxy_policy.approve[0].backend,
        Some("terminal".to_string())
    );
    assert_eq!(proxy_policy.allow.len(), 1);
}

#[test]
fn tool_sandbox_proxy_approve_routes_accept_configured_backend() {
    let mut policies = CommandPoliciesConfig {
        active: true,
        ..CommandPoliciesConfig::default()
    };
    policies.approval_defaults.backend = Some("security-review".to_string());
    policies.approval_backends.insert(
        "security-review".to_string(),
        ApprovalBackendConfig {
            timeout_secs: Some(10),
        },
    );
    policies.credentials.insert(
        "internal-api".to_string(),
        CommandCredentialConfig {
            credential_type: CommandCredentialType::Proxy,
            upstream: Some("https://api.internal.example".to_string()),
            credential_key: Some("internal-token".to_string()),
            env_var: Some("INTERNAL_API_TOKEN".to_string()),
            ..CommandCredentialConfig::default()
        },
    );
    policies.commands.insert(
        "agent".to_string(),
        CommandPolicyConfig {
            sandbox: Some(CommandSandboxConfig {
                credentials: vec![CommandCredentialGrantConfig::Policy(
                    CommandCredentialGrantPolicyConfig {
                        name: "internal-api".to_string(),
                        endpoint_policy: Some(EndpointPolicyConfig {
                            default: PolicyDecisionConfig::Decision(PolicyDecision::Deny),
                            deny: Vec::new(),
                            approve: vec![EndpointRuleConfig {
                                method: "POST".to_string(),
                                path: "/v1/tasks/*/comments".to_string(),
                                backend: None,
                                reason: Some("comment write".to_string()),
                                timeout_secs: Some(5),
                            }],
                            allow: Vec::new(),
                        }),
                    },
                )],
                ..CommandSandboxConfig::default()
            }),
            ..CommandPolicyConfig::default()
        },
    );

    let settings = grant(&policies).expect("granting the credential");

    let route = settings
        .custom_credentials
        .get("internal-api")
        .expect("missing internal-api route");
    let endpoint_policy = route
        .endpoint_policy
        .as_ref()
        .expect("missing endpoint policy");
    assert_eq!(endpoint_policy.approve.len(), 1);
    assert_eq!(endpoint_policy.approve[0].timeout_secs, Some(5));
}

#[test]
fn tool_sandbox_proxy_env_vars_are_scoped_out_of_global_env() {
    let mut proxy = ProxyLaunchOptions::default();
    proxy
        .tool_sandbox_proxy_credentials
        .insert("github-api".to_string());
    proxy
        .tool_sandbox_base_url_env_vars
        .insert("github-api".to_string(), "GITHUB_API_BASE_URL".to_string());

    let mut proxy_config = ProxyConfig::default();
    proxy_config.routes.push(RouteConfig {
        prefix: "github-api".to_string(),
        upstream: "https://api.github.com".to_string(),
        credential_key: Some("github-token".to_string()),
        inject_mode: InjectMode::Header,
        inject_header: "Authorization".to_string(),
        credential_format: Some("Bearer {}".to_string()),
        path_pattern: None,
        path_replacement: None,
        query_param_name: None,
        proxy: None,
        env_var: Some("GITHUB_TOKEN".to_string()),
        endpoint_rules: Vec::new(),
        endpoint_policy: None,
        tls_ca: None,
        tls_client_cert: None,
        tls_client_key: None,
        oauth2: None,
    });
    let credential_env_vars = vec![
        (
            "GITHUB-API_BASE_URL".to_string(),
            "http://127.0.0.1:7777/github-api".to_string(),
        ),
        ("GITHUB_TOKEN".to_string(), "phantom-token".to_string()),
    ];

    let scoped = scoped_tool_sandbox_proxy_credential_env_vars(
        &proxy,
        &proxy_config,
        &credential_env_vars,
        7777,
    )
    .expect("scoping the credential");
    let env_names = tool_sandbox_proxy_env_var_names(&proxy, &proxy_config);

    assert!(env_names.contains("GITHUB-API_BASE_URL"));
    assert!(env_names.contains("GITHUB_API_BASE_URL"));
    assert!(env_names.contains("GITHUB_TOKEN"));
    assert_eq!(
        scoped.get("github-api"),
        Some(&vec![
            ("GITHUB_TOKEN".to_string(), "phantom-token".to_string()),
            (
                "GITHUB_API_BASE_URL".to_string(),
                "http://127.0.0.1:7777/github-api".to_string()
            ),
        ])
    );
}
