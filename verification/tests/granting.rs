use std::collections::VecDeque;

use proxy_runtime::command_policy::{
    AmbientCredentialSourceConfig, CommandCredentialConfig, CommandCredentialGrantConfig,
    CommandCredentialGrantPolicyConfig, CommandCredentialType, CommandEdgeConfig,
    CommandFromConfig, CommandPoliciesConfig, CommandPolicyConfig, CommandSandboxConfig,
    EndpointPolicyConfig, EndpointRuleConfig, PolicyDecision, PolicyDecisionConfig,
};
use proxy_runtime::error::ProxyError;
use proxy_runtime::grants::{
    collect_tool_sandbox_proxy_grants, extend_proxy_settings_with_tool_sandbox_credentials,
    load_supervisor_credential_source, Answer, GrantRequest, ToolSandboxSettings,
};
use proxy_runtime::host::Halt;
use proxy_runtime::names::NameMap;

fn credential() -> CommandCredentialConfig {
    CommandCredentialConfig {
        credential_type: CommandCredentialType::Proxy,
        upstream: Some("https://api.example".to_string()),
        credential_key: Some("key".to_string()),
        env_var: Some("TOKEN".to_string()),
        ..CommandCredentialConfig::default()
    }
}

fn allowing(paths: &[&str]) -> EndpointPolicyConfig {
    EndpointPolicyConfig {
        default: PolicyDecisionConfig::Decision(PolicyDecision::Deny),
        deny: Vec::new(),
        approve: Vec::new(),
        allow: paths
            .iter()
            .map(|path| EndpointRuleConfig {
                method: "GET".to_string(),
                path: path.to_string(),
                backend: None,
                reason: None,
                timeout_secs: None,
            })
            .collect(),
    }
}

fn sandbox(name: &str, policy: Option<EndpointPolicyConfig>) -> CommandSandboxConfig {
    CommandSandboxConfig {
        use_credentials: Vec::new(),
        credentials: vec![CommandCredentialGrantConfig::Policy(
            CommandCredentialGrantPolicyConfig { name: name.to_string(), endpoint_policy: policy },
        )],
    }
}

fn config(credential: CommandCredentialConfig) -> CommandPoliciesConfig {
    let mut config = CommandPoliciesConfig { active: true, ..CommandPoliciesConfig::default() };
    config.credentials.insert("api".to_string(), credential);
    config
}

fn blank() -> ToolSandboxSettings {
    ToolSandboxSettings::new(Vec::new(), NameMap::new())
}

fn fine() -> Answer {
    Ok(String::new())
}

fn collect(
    config: &CommandPoliciesConfig,
    sandbox: &CommandSandboxConfig,
    settings: &mut ToolSandboxSettings,
    answers: Vec<Answer>,
) -> Result<(), Halt<GrantRequest>> {
    let mut answers: VecDeque<Answer> = answers.into_iter().collect();
    collect_tool_sandbox_proxy_grants(config, sandbox, settings, &mut answers)
}

fn complaint(result: Result<(), Halt<GrantRequest>>) -> String {
    match result {
        Err(Halt::Failed(error)) => error.message().clone(),
        other => panic!("expected a failure, got {:?}", other),
    }
}

#[test]
fn each_request_waits_for_its_answer() {
    let mut full = credential();
    full.base_url_env_var = Some("BASE".to_string());
    full.source = Some(AmbientCredentialSourceConfig::Keystore { key: "k".to_string() });
    full.tls_ca = Some("~/ca".to_string());
    full.tls_client_cert = Some("~/cert".to_string());
    full.tls_client_key = Some("~/key".to_string());
    let config = config(full);
    let sandbox = sandbox("api", Some(allowing(&["/a"])));
    let replies = vec![
        fine(),
        fine(),
        Ok("secret".to_string()),
        Ok("/h/ca".to_string()),
        Ok("/h/cert".to_string()),
        Ok("/h/key".to_string()),
    ];
    let expected = vec![
        GrantRequest::CheckEnvVar { name: "TOKEN".to_string() },
        GrantRequest::CheckEnvVar { name: "BASE".to_string() },
        GrantRequest::LoadSecret { key: "k".to_string() },
        GrantRequest::ExpandPath { path: "~/ca".to_string() },
        GrantRequest::ExpandPath { path: "~/cert".to_string() },
        GrantRequest::ExpandPath { path: "~/key".to_string() },
    ];
    for given in 0..expected.len() {
        assert_eq!(
            collect(&config, &sandbox, &mut blank(), replies[..given].to_vec()),
            Err(Halt::Ask(expected[given].clone()))
        );
    }
    let mut settings = blank();
    assert_eq!(collect(&config, &sandbox, &mut settings, replies), Ok(()));
    let route = settings.custom_credentials.get("api").expect("a route");
    let variable = "NONO_TOOL_SANDBOX_PROXY_CREDENTIAL_API";
    assert_eq!(route.credential_key, Some(format!("env://{}", variable)));
    assert_eq!(settings.proxy_source_env_vars.get(variable), Some(&"secret".to_string()));
    assert_eq!(route.inject_header, "Authorization");
    assert_eq!(route.tls_ca, Some("/h/ca".to_string()));
    assert_eq!(route.tls_client_cert, Some("/h/cert".to_string()));
    assert_eq!(route.tls_client_key, Some("/h/key".to_string()));
    assert_eq!(settings.base_url_env_vars.get("api"), Some(&"BASE".to_string()));
}

#[test]
fn sources_ask_for_what_they_need() {
    let mut none: VecDeque<Answer> = VecDeque::new();
    let command = AmbientCredentialSourceConfig::Command {
        command: "pass".to_string(),
        args: vec!["show".to_string()],
        timeout_secs: Some(2),
    };
    assert_eq!(
        load_supervisor_credential_source(&command, &mut none),
        Err(Halt::Ask(GrantRequest::RunCommand {
            command: "pass".to_string(),
            args: vec!["show".to_string()],
            timeout_secs: Some(2),
        }))
    );
    let mut told: VecDeque<Answer> = VecDeque::from(vec![Ok("s".to_string()), fine()]);
    assert_eq!(load_supervisor_credential_source(&command, &mut told), Ok("s".to_string()));
    assert_eq!(told.len(), 1);
    let mut refused: VecDeque<Answer> =
        VecDeque::from(vec![Err(ProxyError::Host("locked".to_string()))]);
    assert_eq!(
        load_supervisor_credential_source(&command, &mut refused),
        Err(Halt::Failed(ProxyError::Host("locked".to_string())))
    );
}

#[test]
fn plain_uses_of_proxy_credentials_are_refused() {
    let config = config(credential());
    let used = CommandSandboxConfig {
        use_credentials: vec!["other".to_string(), "api".to_string()],
        credentials: Vec::new(),
    };
    assert_eq!(
        complaint(collect(&config, &used, &mut blank(), Vec::new())),
        "tool-sandbox proxy credential 'api' must be granted with sandbox.credentials and endpoint_policy"
    );
    let named = CommandSandboxConfig {
        use_credentials: Vec::new(),
        credentials: vec![CommandCredentialGrantConfig::Name("api".to_string())],
    };
    assert_eq!(
        complaint(collect(&config, &named, &mut blank(), Vec::new())),
        "tool-sandbox proxy credential 'api' must include endpoint_policy"
    );
}

#[test]
fn incomplete_credentials_are_refused() {
    assert_eq!(
        complaint(collect(&config(credential()), &sandbox("api", None), &mut blank(), Vec::new())),
        "tool-sandbox proxy credential 'api' requires endpoint_policy"
    );
    let mut homeless = credential();
    homeless.upstream = None;
    assert_eq!(
        complaint(collect(
            &config(homeless),
            &sandbox("api", Some(allowing(&[]))),
            &mut blank(),
            Vec::new()
        )),
        "tool-sandbox proxy credential 'api' missing upstream"
    );
    let mut nameless = credential();
    nameless.env_var = None;
    assert_eq!(
        complaint(collect(
            &config(nameless),
            &sandbox("api", Some(allowing(&[]))),
            &mut blank(),
            Vec::new()
        )),
        "tool-sandbox proxy credential 'api' missing env_var"
    );
}

#[test]
fn bad_variable_names_are_refused() {
    let mut based = credential();
    based.base_url_env_var = Some("B".to_string());
    let config = config(based);
    let sandbox = sandbox("api", Some(allowing(&[])));
    let bad: Answer = Err(ProxyError::Host("reserved".to_string()));
    assert_eq!(
        complaint(collect(&config, &sandbox, &mut blank(), vec![bad.clone()])),
        "tool-sandbox proxy credential 'api' has invalid env_var: reserved"
    );
    assert_eq!(
        complaint(collect(&config, &sandbox, &mut blank(), vec![fine(), bad])),
        "tool-sandbox proxy credential 'api' has invalid base_url_env_var: reserved"
    );
}

#[test]
fn grants_of_other_credentials_are_passed_over() {
    let mut other = credential();
    other.credential_type = CommandCredentialType::Other;
    let config = config(other);
    let mut settings = blank();
    assert_eq!(
        collect(&config, &sandbox("api", None), &mut settings, Vec::new()),
        Ok(())
    );
    assert_eq!(
        collect(&config, &sandbox("unknown", None), &mut settings, Vec::new()),
        Ok(())
    );
    assert!(settings.credentials.is_empty());
}

#[test]
fn the_same_grant_twice_is_one_grant() {
    let config = config(credential());
    let sandbox = sandbox("api", Some(allowing(&["/a"])));
    let mut settings = blank();
    assert_eq!(collect(&config, &sandbox, &mut settings, vec![fine()]), Ok(()));
    assert_eq!(collect(&config, &sandbox, &mut settings, vec![fine()]), Ok(()));
    assert_eq!(settings.credentials, vec!["api".to_string()]);
    assert_eq!(settings.tool_sandbox_proxy_credentials.len(), 1);
    assert_eq!(settings.custom_credentials.len(), 1);
}

#[test]
fn conflicting_grants_fail() {
    let config = config(credential());
    let mut settings = blank();
    let first = sandbox("api", Some(allowing(&["/a"])));
    let second = sandbox("api", Some(allowing(&["/b"])));
    assert_eq!(collect(&config, &first, &mut settings, vec![fine()]), Ok(()));
    assert_eq!(
        complaint(collect(&config, &second, &mut settings, vec![fine()])),
        "tool-sandbox proxy credential 'api' has conflicting endpoint policies across command grants"
    );
}

#[test]
fn grants_do_not_take_over_built_in_routes() {
    let mut settings = ToolSandboxSettings::new(vec!["api".to_string()], NameMap::new());
    assert_eq!(
        complaint(collect(
            &config(credential()),
            &sandbox("api", Some(allowing(&[]))),
            &mut settings,
            vec![fine()]
        )),
        "tool-sandbox proxy credential 'api' collides with an existing proxy credential route"
    );
}

#[test]
fn every_sandbox_of_every_command_is_served() {
    let mut config = config(credential());
    let mut second = credential();
    second.env_var = Some("TOKEN_TWO".to_string());
    config.credentials.insert("second".to_string(), second);
    let mut third = credential();
    third.env_var = Some("TOKEN_THREE".to_string());
    config.credentials.insert("third".to_string(), third);
    let mut policy = CommandPolicyConfig {
        sandbox: Some(sandbox("api", Some(allowing(&[])))),
        from: NameMap::new(),
    };
    policy.from.insert(
        "x".to_string(),
        CommandFromConfig::Edge(CommandEdgeConfig {
            sandbox: sandbox("second", Some(allowing(&[]))),
        }),
    );
    policy.from.insert("y".to_string(), CommandFromConfig::Deny);
    policy.from.insert(
        "z".to_string(),
        CommandFromConfig::Policy(sandbox("third", Some(allowing(&[])))),
    );
    config.commands.insert("git".to_string(), policy);
    let mut settings = blank();
    let mut answers: VecDeque<Answer> = VecDeque::from(vec![fine(), fine(), fine()]);
    assert_eq!(
        extend_proxy_settings_with_tool_sandbox_credentials(
            Some(&config),
            &mut settings,
            &mut answers
        ),
        Ok(())
    );
    assert!(answers.is_empty());
    assert_eq!(
        settings.credentials,
        vec!["api".to_string(), "second".to_string(), "third".to_string()]
    );

    let mut again: VecDeque<Answer> = VecDeque::from(vec![fine(), fine(), fine()]);
    assert_eq!(
        extend_proxy_settings_with_tool_sandbox_credentials(
            Some(&config),
            &mut settings,
            &mut again
        ),
        Ok(())
    );
    assert_eq!(settings.credentials.len(), 3);
    assert_eq!(settings.custom_credentials.len(), 3);

    config.active = false;
    let mut untouched = blank();
    let mut no_answers: VecDeque<Answer> = VecDeque::new();
    assert_eq!(
        extend_proxy_settings_with_tool_sandbox_credentials(
            Some(&config),
            &mut untouched,
            &mut no_answers
        ),
        Ok(())
    );
    assert!(untouched.credentials.is_empty());
    assert_eq!(
        extend_proxy_settings_with_tool_sandbox_credentials(None, &mut untouched, &mut no_answers),
        Ok(())
    );
}
