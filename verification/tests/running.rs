use proxy_runtime::command_policy::CommandPoliciesConfig;
use proxy_runtime::command_source::{
    credential_from, load_command_credential_source, SourceAction, SourceEvent, SourceOutput,
};
use proxy_runtime::config_build::{PolicyAnswers, PolicyRequest};
use proxy_runtime::credential_env::{
    base_url_env_var, route_env_var, scoped_tool_sandbox_proxy_credential_env_vars,
    tool_sandbox_proxy_env_var_names,
};
use proxy_runtime::error::ProxyError;
use proxy_runtime::host::Halt;
use proxy_runtime::names::NameMap;
use proxy_runtime::proxy_config::{InjectMode, ProxyConfig, RouteConfig, TimeSpan};
use proxy_runtime::runtime::{
    start_proxy_runtime, ActiveProxyRuntime, BundleAction, StartAnswers, StartRequest,
    StartedProxy,
};
use proxy_runtime::sandbox::{NetworkMode, Platform, ProxyLaunchOptions};
use proxy_runtime::scoped_env::{EnvStep, ScopedEnvVars};
use proxy_runtime::session_files::{
    exit_status_code, intercept_dir_parts, launcher_env, name_runtime_file, settle_intercept_dir,
    unique_runtime_name, InterceptDirOutcome,
};

fn pair(name: &str, value: &str) -> (String, String) {
    (name.to_string(), value.to_string())
}

fn route(prefix: &str, env_var: Option<&str>, key: Option<&str>) -> RouteConfig {
    RouteConfig {
        prefix: prefix.to_string(),
        upstream: "https://api.example".to_string(),
        credential_key: key.map(|text| text.to_string()),
        inject_mode: InjectMode::Header,
        inject_header: "Authorization".to_string(),
        credential_format: None,
        path_pattern: None,
        path_replacement: None,
        query_param_name: None,
        proxy: None,
        env_var: env_var.map(|text| text.to_string()),
        endpoint_rules: Vec::new(),
        endpoint_policy: None,
        tls_ca: None,
        tls_client_cert: None,
        tls_client_key: None,
        oauth2: None,
    }
}

fn config(routes: Vec<RouteConfig>) -> ProxyConfig {
    ProxyConfig { routes, ..ProxyConfig::default() }
}

fn granted(names: &[&str]) -> ProxyLaunchOptions<'static> {
    let mut proxy = ProxyLaunchOptions { active: true, ..ProxyLaunchOptions::default() };
    for name in names {
        proxy.tool_sandbox_proxy_credentials.insert(name.to_string());
    }
    proxy
}

fn span(secs: u64, nanos: u32) -> TimeSpan {
    TimeSpan { secs, nanos }
}

#[test]
fn variables_are_named_after_routes() {
    assert_eq!(base_url_env_var("GITHUB".to_string()), "GITHUB_BASE_URL");
    assert_eq!(
        route_env_var(&route("p", Some("TOKEN"), Some("key")), "KEY".to_string()),
        Some("TOKEN".to_string())
    );
    assert_eq!(
        route_env_var(&route("p", None, Some("key")), "KEY".to_string()),
        Some("KEY".to_string())
    );
    assert_eq!(route_env_var(&route("p", None, Some("op://v/k")), "X".to_string()), None);
    assert_eq!(route_env_var(&route("p", None, None), "X".to_string()), None);
}

#[test]
fn names_are_in_upper_case_beyond_ascii() {
    let names = tool_sandbox_proxy_env_var_names(
        &granted(&["/straße/"]),
        &config(vec![
            route("straße", None, Some("schlüssel")),
            route("straße/", None, Some("env://x")),
            route("other", Some("OTHER"), None),
        ]),
    );
    assert!(names.contains("STRASSE_BASE_URL"));
    assert!(names.contains("SCHLÜSSEL"));
    assert!(!names.contains("OTHER"));
    assert_eq!(names.len(), 2);
}

#[test]
fn credentials_that_cannot_be_served_fail() {
    let vars = vec![pair("TOKEN", "t")];
    let scoped = |proxy: &ProxyLaunchOptions, routes: Vec<RouteConfig>| {
        scoped_tool_sandbox_proxy_credential_env_vars(proxy, &config(routes), &vars, 1)
    };
    assert_eq!(
        scoped(&granted(&["api"]), Vec::new()),
        Err(ProxyError::SandboxInit(
            "tool-sandbox proxy credential 'api' did not produce a proxy route".to_string()
        ))
    );
    assert_eq!(
        scoped(&granted(&["api"]), vec![route("api", None, Some("TOKEN"))]),
        Err(ProxyError::ConfigParse(
            "tool-sandbox proxy credential 'api' missing env_var".to_string()
        ))
    );
    assert_eq!(
        scoped(&granted(&["api"]), vec![route("api", Some("NONE"), None)]),
        Err(ProxyError::SandboxInit(
            "tool-sandbox proxy credential 'api' is unavailable to the proxy".to_string()
        ))
    );
    assert_eq!(
        scoped(&granted(&["b", "a"]), Vec::new())
            .err()
            .expect("a failure")
            .message(),
        "tool-sandbox proxy credential 'a' did not produce a proxy route"
    );
}

#[test]
fn the_first_route_and_the_first_value_count() {
    let mut proxy = granted(&["/api/"]);
    proxy
        .tool_sandbox_base_url_env_vars
        .insert("/api/".to_string(), "BASE".to_string());
    let scoped = scoped_tool_sandbox_proxy_credential_env_vars(
        &proxy,
        &config(vec![
            route("x", Some("X"), None),
            route("/api", Some("ONE"), None),
            route("api", Some("TWO"), None),
        ]),
        &vec![pair("TWO", "2"), pair("ONE", "1"), pair("ONE", "0")],
        65535,
    )
    .expect("scoped variables");
    assert_eq!(scoped.len(), 1);
    assert_eq!(
        scoped.get("/api/"),
        Some(&vec![pair("ONE", "1"), pair("BASE", "http://127.0.0.1:65535/api")])
    );
}

#[test]
fn an_unwanted_proxy_leaves_no_trace() {
    assert_eq!(
        start_proxy_runtime(
            &ProxyLaunchOptions::default(),
            &vec![22],
            Platform::Other,
            StartAnswers::default()
        ),
        Ok(ActiveProxyRuntime {
            env_vars: Vec::new(),
            tool_sandbox_credential_env_vars: NameMap::new(),
            tool_sandbox_trust_bundle_paths: Vec::new(),
        })
    );
}

fn built() -> PolicyAnswers {
    PolicyAnswers {
        loaded: Some(Ok(())),
        profile: None,
        routes: Some(Ok(Vec::new())),
        partition: Some(Ok((Vec::new(), Vec::new()))),
        config: Some(config(vec![route("api", Some("TOKEN"), None)])),
    }
}

fn started() -> StartedProxy {
    StartedProxy {
        port: 7777,
        intercept_ca_path: Some("/h/ca.pem".to_string()),
        env_vars: vec![pair("HTTPS_PROXY", "http://127.0.0.1:7777"), pair("TOKEN", "own")],
        credential_env_vars: vec![
            pair("API_BASE_URL", "u"),
            pair("TOKEN", "t"),
            pair("OTHER", "o"),
        ],
    }
}

fn finished_runtime() -> ActiveProxyRuntime {
    let mut scoped = NameMap::new();
    scoped.insert("api".to_string(), vec![pair("TOKEN", "t")]);
    ActiveProxyRuntime {
        env_vars: vec![
            pair("HTTPS_PROXY", "http://127.0.0.1:7777"),
            pair("TOKEN", "own"),
            pair("OTHER", "o"),
        ],
        tool_sandbox_credential_env_vars: scoped,
        tool_sandbox_trust_bundle_paths: vec!["/h/ca.pem".to_string()],
    }
}

#[test]
fn the_proxy_starts_step_by_step() {
    let policies = CommandPoliciesConfig { active: true, ..CommandPoliciesConfig::default() };
    let mut proxy = granted(&["api"]);
    proxy.proxy_source_env_vars.insert("SECRET".to_string(), "s".to_string());
    proxy.command_policies = Some(&policies);
    proxy.allow_bind_ports = vec![3000];
    proxy.network_block = true;
    let ports = vec![22, 5432];
    let mut answers = StartAnswers::default();
    let step = |answers: &StartAnswers| {
        start_proxy_runtime(&proxy, &ports, Platform::Other, answers.clone())
    };
    let mut vars = NameMap::new();
    vars.insert("SECRET".to_string(), "s".to_string());
    assert_eq!(step(&answers), Err(Halt::Ask(StartRequest::SetSourceEnv { vars })));
    answers.source_env_set = true;
    assert_eq!(
        step(&answers),
        Err(Halt::Ask(StartRequest::Policy(PolicyRequest::LoadPolicy)))
    );
    answers.policy = built();
    assert_eq!(step(&answers), Err(Halt::Ask(StartRequest::PrepareInterceptDir)));
    answers.intercept_dir = Some(Ok(Some("/h".to_string())));
    assert_eq!(step(&answers), Err(Halt::Ask(StartRequest::ReadParentCertificates)));
    answers.parent_certificates = Some(Some(vec![1, 2]));
    assert_eq!(step(&answers), Err(Halt::Ask(StartRequest::BuildRuntime)));
    answers.runtime = Some(Ok(()));
    assert_eq!(
        step(&answers),
        Err(Halt::Ask(StartRequest::BuildApprovalRegistry { policies: Some(&policies) }))
    );
    answers.approvals = Some(Ok(()));
    assert_eq!(
        step(&answers),
        Err(Halt::Ask(StartRequest::StartProxy {
            config: ProxyConfig {
                routes: vec![route("api", Some("TOKEN"), None)],
                strict_filter: true,
                direct_connect_ports: vec![22, 5432],
                intercept_ca_dir: Some("/h".to_string()),
                intercept_parent_ca_pems: Some(vec![1, 2]),
                ..ProxyConfig::default()
            },
        }))
    );
    answers.started = Some(Ok(started()));
    assert_eq!(
        step(&answers),
        Err(Halt::Ask(StartRequest::SetNetworkMode {
            mode: NetworkMode::ProxyOnly { port: 7777, bind_ports: vec![3000] },
        }))
    );
    answers.mode_set = true;
    assert_eq!(
        step(&answers),
        Err(Halt::Ask(StartRequest::AllowRead { path: "/h/ca.pem".to_string() }))
    );
    answers.bundle.read_grant = Some(Ok(()));
    assert_eq!(step(&answers), Err(Halt::Ask(StartRequest::RestoreSourceEnv)));
    answers.source_env_restored = true;
    assert_eq!(step(&answers), Ok(finished_runtime()));
}

#[test]
fn macos_names_the_actions_and_trusts_the_authority() {
    let mut proxy = granted(&["api"]);
    proxy.trust_proxy_ca = true;
    proxy.proxy_ca_validity = Some(span(60, 0));
    let ports = Vec::new();
    let mut answers = StartAnswers {
        source_env_set: true,
        source_env_restored: true,
        policy: built(),
        intercept_dir: Some(Ok(None)),
        ..StartAnswers::default()
    };
    let step = |answers: &StartAnswers| {
        start_proxy_runtime(&proxy, &ports, Platform::MacOs, answers.clone())
    };
    assert_eq!(step(&answers), Err(Halt::Ask(StartRequest::WarnTrustIgnored)));
    answers.intercept_dir = Some(Ok(Some("/h".to_string())));
    answers.parent_certificates = Some(None);
    assert_eq!(
        step(&answers),
        Err(Halt::Ask(StartRequest::LoadProxyCa { validity: Some(span(60, 0)) }))
    );
    answers.ca_settled = true;
    answers.runtime = Some(Ok(()));
    answers.approvals = Some(Ok(()));
    answers.started = Some(Ok(started()));
    answers.mode_set = true;
    assert_eq!(
        step(&answers),
        Err(Halt::Ask(StartRequest::EscapePath { path: "/h/ca.pem".to_string() }))
    );
    answers.bundle.escaped_path = Some(Ok("/h/ca\\.pem".to_string()));
    assert_eq!(
        step(&answers),
        Err(Halt::Ask(StartRequest::AddPlatformRule {
            action: BundleAction::ReadData,
            rule: "(allow file-read-data (literal \"/h/ca\\.pem\"))".to_string(),
        }))
    );
    answers.bundle.data_rule = Some(Ok(()));
    assert_eq!(
        step(&answers),
        Err(Halt::Ask(StartRequest::AddPlatformRule {
            action: BundleAction::ReadMetadata,
            rule: "(allow file-read-metadata (literal \"/h/ca\\.pem\"))".to_string(),
        }))
    );
    answers.bundle.metadata_rule = Some(Ok(()));
    assert_eq!(step(&answers), Ok(finished_runtime()));
}

#[test]
fn failures_to_start_are_told() {
    let proxy = granted(&["missing"]);
    let ports = Vec::new();
    let failure = |answers: StartAnswers| {
        match start_proxy_runtime(&proxy, &ports, Platform::Other, answers) {
            Err(Halt::Failed(error)) => error,
            other => panic!("expected a failure, got {:?}", other),
        }
    };
    let ready = StartAnswers {
        source_env_set: true,
        source_env_restored: true,
        policy: built(),
        intercept_dir: Some(Ok(None)),
        runtime: Some(Ok(())),
        approvals: Some(Ok(())),
        started: Some(Ok(started())),
        mode_set: true,
        ..StartAnswers::default()
    };
    let mut still_set = ready.clone();
    still_set.source_env_restored = false;
    still_set.runtime = Some(Err("threads".to_string()));
    assert_eq!(
        start_proxy_runtime(&proxy, &ports, Platform::Other, still_set),
        Err(Halt::Ask(StartRequest::RestoreSourceEnv))
    );
    let mut no_dir = ready.clone();
    no_dir.intercept_dir = Some(Err(ProxyError::SandboxInit("open".to_string())));
    assert_eq!(failure(no_dir), ProxyError::SandboxInit("open".to_string()));
    let mut no_runtime = ready.clone();
    no_runtime.runtime = Some(Err("threads".to_string()));
    assert_eq!(
        failure(no_runtime),
        ProxyError::SandboxInit("Failed to start proxy runtime: threads".to_string())
    );
    let mut no_approvals = ready.clone();
    no_approvals.approvals = Some(Err(ProxyError::ConfigParse("backend".to_string())));
    assert_eq!(failure(no_approvals), ProxyError::ConfigParse("backend".to_string()));
    let mut no_proxy = ready.clone();
    no_proxy.started = Some(Err("port in use".to_string()));
    assert_eq!(
        failure(no_proxy),
        ProxyError::SandboxInit("Failed to start proxy: port in use".to_string())
    );
    let mut no_grant = ready.clone();
    no_grant.bundle.read_grant = Some(Err("gone".to_string()));
    assert_eq!(
        failure(no_grant),
        ProxyError::SandboxInit(
            "Failed to grant read capability on TLS-intercept bundle '/h/ca.pem': gone".to_string()
        )
    );
    let mut no_route = ready.clone();
    no_route.bundle.read_grant = Some(Ok(()));
    assert_eq!(
        failure(no_route),
        ProxyError::SandboxInit(
            "tool-sandbox proxy credential 'missing' did not produce a proxy route".to_string()
        )
    );
}

#[test]
fn saved_variables_are_put_back_last_first() {
    let mut vars: NameMap<String> = NameMap::new();
    vars.insert("B".to_string(), "2".to_string());
    vars.insert("A".to_string(), "1".to_string());
    let mut scope: ScopedEnvVars<u8> = ScopedEnvVars::new();
    assert_eq!(scope.next(&vars), Some((&"A".to_string(), &"1".to_string())));
    scope.save("A".to_string(), Some(7));
    assert_eq!(scope.next(&vars), Some((&"B".to_string(), &"2".to_string())));
    scope.save("B".to_string(), None);
    assert_eq!(scope.next(&vars), None);
    assert_eq!(
        scope.restore(),
        vec![
            EnvStep::Remove { name: "B".to_string() },
            EnvStep::Assign { name: "A".to_string(), value: 7 },
        ]
    );
}

fn source(timeout_secs: Option<u64>, event: SourceEvent) -> SourceAction {
    load_command_credential_source("pass", timeout_secs, event)
}

fn told(action: SourceAction) -> Result<String, ProxyError> {
    match action {
        SourceAction::Finish { result } => result,
        other => panic!("expected an end, got {:?}", other),
    }
}

#[test]
fn commands_are_waited_for() {
    assert_eq!(source(None, SourceEvent::Started(Ok(()))), SourceAction::Poll);
    let polled = |timeout_secs, finished, elapsed| {
        source(timeout_secs, SourceEvent::Polled { finished: Ok(finished), elapsed })
    };
    assert_eq!(polled(None, false, span(29, 999_999_999)), SourceAction::Sleep { millis: 25 });
    assert_eq!(source(None, SourceEvent::Slept), SourceAction::Poll);
    assert_eq!(polled(None, true, span(99, 0)), SourceAction::Collect);
    assert_eq!(
        polled(None, false, span(30, 0)),
        SourceAction::Kill {
            error: ProxyError::SandboxInit(
                "supervisor credential source 'pass' timed out after 30s".to_string()
            ),
        }
    );
    assert_eq!(
        polled(Some(0), false, span(0, 0)),
        SourceAction::Kill {
            error: ProxyError::SandboxInit(
                "supervisor credential source 'pass' timed out after 0s".to_string()
            ),
        }
    );
}

#[test]
fn commands_that_fail_are_told() {
    assert_eq!(
        told(source(None, SourceEvent::Started(Err("not found".to_string())))),
        Err(ProxyError::SandboxInit(
            "failed to start supervisor credential source 'pass': not found".to_string()
        ))
    );
    assert_eq!(
        told(source(
            None,
            SourceEvent::Polled { finished: Err("lost".to_string()), elapsed: span(0, 0) }
        )),
        Err(ProxyError::SandboxInit(
            "failed to wait for supervisor credential source 'pass': lost".to_string()
        ))
    );
    assert_eq!(
        told(source(None, SourceEvent::Collected(Err("pipe".to_string())))),
        Err(ProxyError::SandboxInit(
            "failed to collect supervisor credential source 'pass': pipe".to_string()
        ))
    );
    let ended = |code| {
        told(source(
            None,
            SourceEvent::Collected(Ok(SourceOutput { success: false, code, stdout: b"x".to_vec() })),
        ))
        .err()
        .expect("a failure")
        .message()
        .clone()
    };
    assert_eq!(
        ended(Some(-2147483648)),
        "supervisor credential source 'pass' failed with exit code -2147483648"
    );
    assert_eq!(ended(Some(12)), "supervisor credential source 'pass' failed with exit code 12");
    assert_eq!(ended(None), "supervisor credential source 'pass' failed with exit code unknown");
}

#[test]
fn what_a_command_prints_is_the_credential() {
    let printed = |stdout: &[u8]| {
        told(source(
            None,
            SourceEvent::Collected(Ok(SourceOutput {
                success: true,
                code: Some(0),
                stdout: stdout.to_vec(),
            })),
        ))
    };
    assert_eq!(printed("sécret \r\n\n".as_bytes()), Ok("sécret ".to_string()));
    assert_eq!(printed(b""), Ok(String::new()));
    assert_eq!(
        printed(&[0x61, 0xff]),
        Err(ProxyError::SandboxInit(
            "supervisor credential source 'pass' produced non-UTF-8 stdout: invalid utf-8 sequence of 1 bytes from index 1"
                .to_string()
        ))
    );
    assert_eq!(credential_from("pass", Ok("t\n".to_string())), Ok("t".to_string()));
    assert_eq!(
        credential_from("pass", Err("odd".to_string())),
        Err(ProxyError::SandboxInit(
            "supervisor credential source 'pass' produced non-UTF-8 stdout: odd".to_string()
        ))
    );
}

#[test]
fn runtime_files_are_named_after_process_and_time() {
    assert_eq!(
        name_runtime_file("launch", 42, 1_700_000_000_000_000_000, 0xabc, "json"),
        "launch-42-1700000000000000000-abc.json"
    );
    assert_eq!(name_runtime_file("x", 0, 0, 0, ""), "x-0-0-0");
    let name = unique_runtime_name("launch", 42, 7, "json");
    assert!(name.starts_with("launch-42-7-"));
    assert!(name.ends_with(".json"));
    assert_ne!(name, unique_runtime_name("launch", 42, 7, "json"));
}

#[test]
fn intercept_directories_have_nine_digits() {
    assert_eq!(
        intercept_dir_parts(7, 42),
        vec![
            ".nono".to_string(),
            "sessions".to_string(),
            "intercept-7-000000042".to_string(),
        ]
    );
    assert_ne!(intercept_dir_parts(7, 42), intercept_dir_parts(74, 2));
}

#[test]
fn only_closed_directories_are_used() {
    let settle = |outcome| settle_intercept_dir("/d".to_string(), outcome);
    assert_eq!(settle(InterceptDirOutcome::NoHome), Ok(None));
    assert_eq!(settle(InterceptDirOutcome::NotCreated), Ok(None));
    assert_eq!(settle(InterceptDirOutcome::Ready), Ok(Some("/d".to_string())));
    assert_eq!(
        settle(InterceptDirOutcome::NotSecured { cause: "denied".to_string() }),
        Err(ProxyError::SandboxInit(
            "failed to set owner-only permissions on TLS-intercept dir '/d': denied".to_string()
        ))
    );
}

#[test]
fn exit_codes_stand_for_how_a_process_ended() {
    assert_eq!(exit_status_code(Some(3), Some(9)), 3);
    assert_eq!(exit_status_code(None, Some(9)), 137);
    assert_eq!(exit_status_code(None, None), 126);
}

#[test]
fn the_launcher_gets_its_instructions_only() {
    assert_eq!(launcher_env("SPEC", 1, None), vec![("SPEC".to_string(), 1)]);
    assert_eq!(
        launcher_env("SPEC", 1, Some(2)),
        vec![("SPEC".to_string(), 1), ("TOOL_SANDBOX_PROFILE_HOTPATH".to_string(), 2)]
    );
}
