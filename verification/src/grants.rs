//! Credentials that tool sandboxes are granted: the proxy routes they need.
//!
//! Granting takes work that only the host can do: judging the name of an environment variable,
//! reading a secret, expanding a path. The functions here ask for one such piece of work at a
//! time and are handed the answers got so far, oldest first. Whoever runs them answers the
//! request that they stop at and runs them again, from the same start, with one answer more.
use std::collections::VecDeque;
use vstd::prelude::*;
use vstd::string::StringExecFns;

use crate::command_policy::{
    AmbientCredentialSourceConfig, CommandCredentialConfig, CommandCredentialGrantConfig,
    CommandCredentialGrantPolicyConfig, CommandCredentialType, CommandFromConfig,
    CommandPoliciesConfig, CommandPolicyConfig, CommandSandboxConfig,
};
use crate::endpoint_policy;
use crate::error;
use crate::error::{ErrorView, ProxyError};
use crate::host::{Halt, HaltView};
use crate::names::{NameMap, NameSet};
use crate::profile::{CustomCredentialDef, CustomCredentialDefView};
use crate::proxy_config::{InjectMode, InjectModeView};
use crate::values;
use crate::values::{DeepClone, DeepEq};

verus! {

/// A piece of work for the host.
#[derive(Debug, Clone, PartialEq, Eq)]
pub enum GrantRequest {
    /// Say whether `name` may be the name of a variable in a sandbox. The answer's text is of no
    /// account; its error is the reason against the name.
    CheckEnvVar { name: String },
    /// Read the secret that the keystore has under `key`.
    LoadSecret { key: String },
    /// Run a command and answer with what it prints, without the line ends at its end.
    RunCommand { command: String, args: Vec<String>, timeout_secs: Option<u64> },
    /// Expand what a path stands for.
    ExpandPath { path: String },
}

/// What a `GrantRequest` asks for.
#[verifier::ext_equal]
pub enum GrantRequestView {
    CheckEnvVar { name: Seq<char> },
    LoadSecret { key: Seq<char> },
    RunCommand { command: Seq<char>, args: Seq<Seq<char>>, timeout_secs: Option<u64> },
    ExpandPath { path: Seq<char> },
}

impl DeepView for GrantRequest {
    type V = GrantRequestView;

    open spec fn deep_view(&self) -> GrantRequestView {
        match self {
            GrantRequest::CheckEnvVar { name } => GrantRequestView::CheckEnvVar { name: name@ },
            GrantRequest::LoadSecret { key } => GrantRequestView::LoadSecret { key: key@ },
            GrantRequest::RunCommand { command, args, timeout_secs } => {
                GrantRequestView::RunCommand {
                    command: command@,
                    args: args.deep_view(),
                    timeout_secs: *timeout_secs,
                }
            },
            GrantRequest::ExpandPath { path } => GrantRequestView::ExpandPath { path: path@ },
        }
    }
}

/// What the host answers.
pub type Answer = Result<String, ProxyError>;

/// The proxy settings that grants add to.
pub struct ToolSandboxSettings {
    /// The credentials that the proxy serves.
    pub credentials: Vec<String>,
    /// The routes of credentials that are not built in.
    pub custom_credentials: NameMap<CustomCredentialDef>,
    /// Secrets that the proxy finds in its environment, by variable.
    pub proxy_source_env_vars: NameMap<String>,
    /// The variable that tells a sandbox where the route of a credential is, by credential.
    pub base_url_env_vars: NameMap<String>,
    /// The credentials that tool sandboxes are granted.
    pub tool_sandbox_proxy_credentials: NameSet,
}

/// What a `ToolSandboxSettings` holds.
#[verifier::ext_equal]
pub struct SettingsView {
    pub credentials: Seq<Seq<char>>,
    pub custom_credentials: Map<Seq<char>, CustomCredentialDefView>,
    pub proxy_source_env_vars: Map<Seq<char>, Seq<char>>,
    pub base_url_env_vars: Map<Seq<char>, Seq<char>>,
    pub tool_sandbox_proxy_credentials: Set<Seq<char>>,
}

impl DeepView for ToolSandboxSettings {
    type V = SettingsView;

    open spec fn deep_view(&self) -> SettingsView {
        SettingsView {
            credentials: self.credentials.deep_view(),
            custom_credentials: self.custom_credentials.deep_view(),
            proxy_source_env_vars: self.proxy_source_env_vars.deep_view(),
            base_url_env_vars: self.base_url_env_vars.deep_view(),
            tool_sandbox_proxy_credentials: self.tool_sandbox_proxy_credentials.deep_view(),
        }
    }
}

impl ToolSandboxSettings {
    /// Settings without anything granted yet.
    pub fn new(
        credentials: Vec<String>,
        custom_credentials: NameMap<CustomCredentialDef>,
    ) -> (settings: Self)
        ensures
            settings.deep_view() == nothing_granted(
                credentials.deep_view(),
                custom_credentials.deep_view(),
            ),
    {
        ToolSandboxSettings {
            credentials,
            custom_credentials,
            proxy_source_env_vars: NameMap::new(),
            base_url_env_vars: NameMap::new(),
            tool_sandbox_proxy_credentials: NameSet::new(),
        }
    }
}

/// Settings without anything granted yet.
pub open spec fn nothing_granted(
    credentials: Seq<Seq<char>>,
    custom_credentials: Map<Seq<char>, CustomCredentialDefView>,
) -> SettingsView {
    SettingsView {
        credentials,
        custom_credentials,
        proxy_source_env_vars: Map::empty(),
        base_url_env_vars: Map::empty(),
        tool_sandbox_proxy_credentials: Set::empty(),
    }
}

/// What a question to the host comes to, with the answers left over.
pub enum Reply<T> {
    Got { value: T, rest: Seq<Answer> },
    Stopped { halt: HaltView<GrantRequestView>, rest: Seq<Answer> },
}

impl<T> Reply<T> {
    /// Whether this is what a function found that left the answers `rest` and returned `result`.
    pub open spec fn is<R: DeepView<V = T>>(
        self,
        result: Result<R, Halt<GrantRequest>>,
        rest: Seq<Answer>,
    ) -> bool {
        match result {
            Ok(value) => self == Reply::Got { value: value.deep_view(), rest },
            Err(halt) => self == Reply::<T>::Stopped { halt: halt.deep_view(), rest },
        }
    }
}

/// The answer to `request`: the next one there is. Without one, and on a refusal, granting stops.
pub open spec fn answer_to(request: GrantRequestView, answers: Seq<Answer>) -> Reply<Seq<char>> {
    if answers.len() == 0 {
        Reply::Stopped { halt: HaltView::Ask(request), rest: answers }
    } else {
        match answers[0] {
            Ok(text) => Reply::Got { value: text@, rest: answers.drop_first() },
            Err(error) => Reply::Stopped {
                halt: HaltView::Failed(error.deep_view()),
                rest: answers.drop_first(),
            },
        }
    }
}

/// Takes the answer to `request`.
fn ask(request: GrantRequest, answers: &mut VecDeque<Answer>) -> (answer: Result<String, Halt<GrantRequest>>)
    ensures
        answer_to(request.deep_view(), old(answers)@).is(answer, final(answers)@),
{
    let ghost before = answers@;
    match answers.pop_front() {
        None => Err(Halt::Ask(request)),
        Some(Ok(text)) => {
            assert(answers@ =~= before.drop_first());
            Ok(text)
        },
        Some(Err(error)) => {
            assert(answers@ =~= before.drop_first());
            Err(Halt::Failed(error))
        },
    }
}

/// The verdict on the variable `variable` of the credential `name`; a reason against it becomes
/// a complaint about the credential.
pub open spec fn verdict_on(
    name: Seq<char>,
    complaint: Seq<char>,
    variable: Seq<char>,
    answers: Seq<Answer>,
) -> Reply<()> {
    match answer_to(GrantRequestView::CheckEnvVar { name: variable }, answers) {
        Reply::Got { value, rest } => Reply::Got { value: (), rest },
        Reply::Stopped { halt, rest } => Reply::Stopped {
            halt: match halt {
                HaltView::Failed(error) => HaltView::Failed(
                    error::credential_fault(name, complaint + error.text()),
                ),
                HaltView::Ask(request) => HaltView::Ask(request),
            },
            rest,
        },
    }
}

fn check_env_var(
    name: &str,
    complaint: &str,
    variable: &String,
    answers: &mut VecDeque<Answer>,
) -> (verdict: Result<(), Halt<GrantRequest>>)
    ensures
        verdict_on(name@, complaint@, variable@, old(answers)@).is(verdict, final(answers)@),
{
    match ask(GrantRequest::CheckEnvVar { name: variable.clone() }, answers) {
        Ok(_) => Ok(()),
        Err(Halt::Failed(error)) => {
            let mut words = complaint.to_owned();
            words.append(error.message().as_str());
            Err(Halt::Failed(error::credential_error(name, words.as_str())))
        },
        Err(Halt::Ask(request)) => Err(Halt::Ask(request)),
    }
}

/// The verdict on the variables of a credential: the one that holds the token, then the one that
/// holds the address, where it has one.
pub open spec fn verdict_on_both(
    name: Seq<char>,
    variable: Seq<char>,
    base_url_variable: Option<Seq<char>>,
    answers: Seq<Answer>,
) -> Reply<()> {
    match verdict_on(name, " has invalid env_var: "@, variable, answers) {
        Reply::Stopped { halt, rest } => Reply::Stopped { halt, rest },
        Reply::Got { value, rest } => match base_url_variable {
            None => Reply::Got { value, rest },
            Some(other) => verdict_on(name, " has invalid base_url_env_var: "@, other, rest),
        },
    }
}

fn check_both_env_vars(
    name: &str,
    variable: &String,
    base_url_variable: &Option<String>,
    answers: &mut VecDeque<Answer>,
) -> (verdict: Result<(), Halt<GrantRequest>>)
    ensures
        verdict_on_both(
            name@,
            variable@,
            base_url_variable.deep_view(),
            old(answers)@,
        ).is(verdict, final(answers)@),
{
    check_env_var(name, " has invalid env_var: ", variable, answers)?;
    if let Some(other) = base_url_variable {
        check_env_var(name, " has invalid base_url_env_var: ", other, answers)?;
    }
    Ok(())
}

/// The work of reading a secret from `source`.
pub open spec fn source_request(source: AmbientCredentialSourceConfig) -> GrantRequestView {
    match source {
        AmbientCredentialSourceConfig::Keystore { key } => GrantRequestView::LoadSecret {
            key: key@,
        },
        AmbientCredentialSourceConfig::Command { command, args, timeout_secs } => {
            GrantRequestView::RunCommand { command: command@, args: args.deep_view(), timeout_secs }
        },
    }
}

/// Reads a secret for the supervisor.
pub fn load_supervisor_credential_source(
    source: &AmbientCredentialSourceConfig,
    answers: &mut VecDeque<Answer>,
) -> (secret: Result<String, Halt<GrantRequest>>)
    ensures
        answer_to(source_request(*source), old(answers)@).is(secret, final(answers)@),
{
    match source {
        AmbientCredentialSourceConfig::Keystore { key } => ask(
            GrantRequest::LoadSecret { key: key.clone() },
            answers,
        ),
        AmbientCredentialSourceConfig::Command { command, args, timeout_secs } => ask(
            GrantRequest::RunCommand {
                command: command.clone(),
                args: args.deep_clone(),
                timeout_secs: *timeout_secs,
            },
            answers,
        ),
    }
}

/// What the path of a file expands to, where there is a path.
pub open spec fn expansion_of(
    path: Option<Seq<char>>,
    answers: Seq<Answer>,
) -> Reply<Option<Seq<char>>> {
    match path {
        None => Reply::Got { value: None, rest: answers },
        Some(path) => match answer_to(GrantRequestView::ExpandPath { path }, answers) {
            Reply::Got { value, rest } => Reply::Got { value: Some(value), rest },
            Reply::Stopped { halt, rest } => Reply::Stopped { halt, rest },
        },
    }
}

fn expand_path(
    path: &Option<String>,
    answers: &mut VecDeque<Answer>,
) -> (expanded: Result<Option<String>, Halt<GrantRequest>>)
    ensures
        expansion_of(path.deep_view(), old(answers)@).is(expanded, final(answers)@),
{
    match path {
        None => Ok(None),
        Some(path) => {
            let expanded = ask(GrantRequest::ExpandPath { path: path.clone() }, answers)?;
            Ok(Some(expanded))
        },
    }
}

/// The files of a credential, their paths expanded in this order: the authority's certificate,
/// the client's certificate, the client's key.
pub open spec fn tls_files_of(
    credential: CommandCredentialConfig,
    answers: Seq<Answer>,
) -> Reply<(Option<Seq<char>>, Option<Seq<char>>, Option<Seq<char>>)> {
    match expansion_of(credential.tls_ca.deep_view(), answers) {
        Reply::Stopped { halt, rest } => Reply::Stopped { halt, rest },
        Reply::Got { value: ca, rest } => match expansion_of(
            credential.tls_client_cert.deep_view(),
            rest,
        ) {
            Reply::Stopped { halt, rest } => Reply::Stopped { halt, rest },
            Reply::Got { value: cert, rest } => match expansion_of(
                credential.tls_client_key.deep_view(),
                rest,
            ) {
                Reply::Stopped { halt, rest } => Reply::Stopped { halt, rest },
                Reply::Got { value: key, rest } => Reply::Got { value: (ca, cert, key), rest },
            },
        },
    }
}

fn expand_tls_files(
    credential: &CommandCredentialConfig,
    answers: &mut VecDeque<Answer>,
) -> (files: Result<(Option<String>, Option<String>, Option<String>), Halt<GrantRequest>>)
    ensures
        tls_files_of(*credential, old(answers)@).is(files, final(answers)@),
{
    let ca = expand_path(&credential.tls_ca, answers)?;
    let cert = expand_path(&credential.tls_client_cert, answers)?;
    let key = expand_path(&credential.tls_client_key, answers)?;
    Ok((ca, cert, key))
}

/// How far granting has come: the settings, the answers not used yet, and why it stopped if it
/// did.
#[verifier::ext_equal]
pub struct Progress {
    pub settings: SettingsView,
    pub answers: Seq<Answer>,
    pub halt: Option<HaltView<GrantRequestView>>,
}

impl Progress {
    /// Where granting starts.
    pub open spec fn start(settings: SettingsView, answers: Seq<Answer>) -> Progress {
        Progress { settings, answers, halt: None }
    }

    /// Where granting stops for `halt`, with the answers `rest` left.
    pub open spec fn stopped(self, halt: HaltView<GrantRequestView>, rest: Seq<Answer>) -> Progress {
        Progress { settings: self.settings, answers: rest, halt: Some(halt) }
    }

    /// Where granting stops for `error`.
    pub open spec fn failed(self, error: ErrorView) -> Progress {
        self.stopped(HaltView::Failed(error), self.answers)
    }

    /// Whether this is where a function ended that left `settings` and `answers` and returned
    /// `result`.
    pub open spec fn reached(
        self,
        settings: SettingsView,
        answers: Seq<Answer>,
        result: Result<(), Halt<GrantRequest>>,
    ) -> bool {
        &&& self.settings == settings
        &&& self.answers == answers
        &&& match result {
            Ok(_) => self.halt is None,
            Err(halt) => self.halt == Some(halt.deep_view()),
        }
    }
}

/// Whether the configuration has a credential `name` that goes through the proxy.
pub open spec fn is_proxy_credential(config: CommandPoliciesConfig, name: Seq<char>) -> bool {
    let credentials = config.credentials.deep_view();
    credentials.contains_key(name) && credentials[name].credential_type
        == CommandCredentialType::Proxy
}

fn names_proxy_credential(config: &CommandPoliciesConfig, name: &str) -> (found: bool)
    ensures
        found == is_proxy_credential(*config, name@),
{
    match config.credentials.get(name) {
        Some(credential) => credential.credential_type == CommandCredentialType::Proxy,
        None => false,
    }
}

/// What is wrong with granting `credential` under `grant`, if anything.
pub open spec fn grant_fault(
    config: CommandPoliciesConfig,
    grant: CommandCredentialGrantPolicyConfig,
    credential: CommandCredentialConfig,
) -> Option<ErrorView> {
    match grant.endpoint_policy {
        None => Some(error::credential_fault(grant.name@, " requires endpoint_policy"@)),
        Some(policy) => {
            let fault = endpoint_policy::approval_fault(config, grant.name@, policy);
            if fault is Some {
                fault
            } else if credential.upstream is None {
                Some(error::credential_fault(grant.name@, " missing upstream"@))
            } else if credential.env_var is None {
                Some(error::credential_fault(grant.name@, " missing env_var"@))
            } else {
                None
            }
        },
    }
}

/// The route of a granted credential: it injects the secret into a header, and lets through what
/// the grant's endpoint policy lets through.
pub open spec fn granted_route(
    config: CommandPoliciesConfig,
    grant: CommandCredentialGrantPolicyConfig,
    credential: CommandCredentialConfig,
    credential_key: Option<Seq<char>>,
    files: (Option<Seq<char>>, Option<Seq<char>>, Option<Seq<char>>),
) -> CustomCredentialDefView {
    CustomCredentialDefView {
        upstream: credential.upstream->0@,
        credential_key,
        auth: None,
        inject_mode: InjectModeView::Header,
        inject_header: match credential.inject_header {
            Some(header) => header@,
            None => "Authorization"@,
        },
        credential_format: credential.credential_format.deep_view(),
        path_pattern: None,
        path_replacement: None,
        query_param_name: None,
        proxy: None,
        env_var: credential.env_var.deep_view(),
        endpoint_rules: seq![],
        endpoint_policy: Some(
            endpoint_policy::proxy_policy(config, grant.endpoint_policy->0),
        ),
        tls_ca: files.0,
        tls_client_cert: files.1,
        tls_client_key: files.2,
    }
}

/// What stands in the way of giving the credential `name` the route `route`, if anything: another
/// route of that name, or a built-in credential of that name.
pub open spec fn route_fault(
    settings: SettingsView,
    name: Seq<char>,
    route: CustomCredentialDefView,
) -> Option<ErrorView> {
    if settings.custom_credentials.contains_key(name) {
        if settings.custom_credentials[name] != route {
            Some(
                error::credential_fault(
                    name,
                    " has conflicting endpoint policies across command grants"@,
                ),
            )
        } else {
            None
        }
    } else if settings.credentials.contains(name) {
        Some(
            error::credential_fault(name, " collides with an existing proxy credential route"@),
        )
    } else {
        None
    }
}

/// The settings with the credential `name` granted to a tool sandbox through `route`.
pub open spec fn with_route(
    settings: SettingsView,
    name: Seq<char>,
    route: CustomCredentialDefView,
    base_url_variable: Option<Seq<char>>,
) -> SettingsView {
    SettingsView {
        credentials: if settings.credentials.contains(name) {
            settings.credentials
        } else {
            settings.credentials.push(name)
        },
        custom_credentials: settings.custom_credentials.insert(name, route),
        proxy_source_env_vars: settings.proxy_source_env_vars,
        base_url_env_vars: match base_url_variable {
            Some(variable) => settings.base_url_env_vars.insert(name, variable),
            None => settings.base_url_env_vars,
        },
        tool_sandbox_proxy_credentials: settings.tool_sandbox_proxy_credentials.insert(name),
    }
}

/// The settings with the secret `value` in the variable for the credential `name`.
pub open spec fn with_secret(
    settings: SettingsView,
    name: Seq<char>,
    value: Seq<char>,
) -> SettingsView {
    SettingsView {
        proxy_source_env_vars: settings.proxy_source_env_vars.insert(
            crate::source_env::source_variable(name),
            value,
        ),
        ..settings
    }
}

/// Where giving a credential its route ends, once its key is known.
pub open spec fn routed(
    config: CommandPoliciesConfig,
    grant: CommandCredentialGrantPolicyConfig,
    credential: CommandCredentialConfig,
    credential_key: Option<Seq<char>>,
    p: Progress,
) -> Progress {
    match tls_files_of(credential, p.answers) {
        Reply::Stopped { halt, rest } => p.stopped(halt, rest),
        Reply::Got { value: files, rest } => {
            let route = granted_route(config, grant, credential, credential_key, files);
            let at = Progress { answers: rest, ..p };
            match route_fault(p.settings, grant.name@, route) {
                Some(fault) => at.failed(fault),
                None => Progress {
                    settings: with_route(
                        p.settings,
                        grant.name@,
                        route,
                        credential.base_url_env_var.deep_view(),
                    ),
                    ..at
                },
            }
        },
    }
}

fn route_credential(
    config: &CommandPoliciesConfig,
    grant: &CommandCredentialGrantPolicyConfig,
    credential: &CommandCredentialConfig,
    credential_key: Option<String>,
    settings: &mut ToolSandboxSettings,
    answers: &mut VecDeque<Answer>,
) -> (result: Result<(), Halt<GrantRequest>>)
    requires
        grant_fault(*config, *grant, *credential) is None,
    ensures
        routed(
            *config,
            *grant,
            *credential,
            credential_key.deep_view(),
            Progress::start(old(settings).deep_view(), old(answers)@),
        ).reached(final(settings).deep_view(), final(answers)@, result),
{
    let ghost before = settings.deep_view();
    let files = expand_tls_files(credential, answers)?;
    let ghost files_view = files.deep_view();
    let ghost key_view = credential_key.deep_view();
    let (tls_ca, tls_client_cert, tls_client_key) = files;
    let endpoint_policy = match &grant.endpoint_policy {
        Some(policy) => Some(endpoint_policy::endpoint_policy_to_proxy_policy(config, policy)),
        None => None,
    };
    let upstream = match &credential.upstream {
        Some(upstream) => upstream.clone(),
        None => String::new(),
    };
    let inject_header = match &credential.inject_header {
        Some(header) => header.clone(),
        None => "Authorization".to_owned(),
    };
    let route = CustomCredentialDef {
        upstream,
        credential_key,
        auth: None,
        inject_mode: InjectMode::Header,
        inject_header,
        credential_format: credential.credential_format.deep_clone(),
        path_pattern: None,
        path_replacement: None,
        query_param_name: None,
        proxy: None,
        env_var: credential.env_var.deep_clone(),
        endpoint_rules: Vec::new(),
        endpoint_policy,
        tls_ca,
        tls_client_cert,
        tls_client_key,
    };
    let ghost route_view = granted_route(*config, *grant, *credential, key_view, files_view);
    assert(route.deep_view() =~= route_view);
    let name = &grant.name;
    match settings.custom_credentials.get(name.as_str()) {
        Some(existing) => {
            if !existing.deep_eq(&route) {
                return Err(
                    Halt::Failed(
                        error::credential_error(
                            name.as_str(),
                            " has conflicting endpoint policies across command grants",
                        ),
                    ),
                );
            }
            assert(before.custom_credentials =~= before.custom_credentials.insert(
                name@,
                route_view,
            ));
        },
        None => {
            if values::holds_name(&settings.credentials, name.as_str()) {
                return Err(
                    Halt::Failed(
                        error::credential_error(
                            name.as_str(),
                            " collides with an existing proxy credential route",
                        ),
                    ),
                );
            }
            settings.custom_credentials.insert(name.clone(), route);
        },
    }
    if !values::holds_name(&settings.credentials, name.as_str()) {
        settings.credentials.push(name.clone());
        assert(settings.credentials.deep_view() =~= before.credentials.push(name@));
    }
    settings.tool_sandbox_proxy_credentials.insert(name.clone());
    if let Some(variable) = &credential.base_url_env_var {
        settings.base_url_env_vars.insert(name.clone(), variable.clone());
    }
    assert(settings.deep_view() =~= with_route(
        before,
        name@,
        route_view,
        credential.base_url_env_var.deep_view(),
    ));
    Ok(())
}

/// Where granting the proxy credential `credential` under `grant` ends: its faults come first,
/// then the verdict on its variables, then its secret where it has a source, then its route.
pub open spec fn credential_granted(
    config: CommandPoliciesConfig,
    grant: CommandCredentialGrantPolicyConfig,
    credential: CommandCredentialConfig,
    p: Progress,
) -> Progress {
    match grant_fault(config, grant, credential) {
        Some(fault) => p.failed(fault),
        None => match verdict_on_both(
            grant.name@,
            credential.env_var->0@,
            credential.base_url_env_var.deep_view(),
            p.answers,
        ) {
            Reply::Stopped { halt, rest } => p.stopped(halt, rest),
            Reply::Got { value: _, rest } => match credential.source {
                None => routed(
                    config,
                    grant,
                    credential,
                    credential.credential_key.deep_view(),
                    Progress { answers: rest, ..p },
                ),
                Some(source) => match answer_to(source_request(source), rest) {
                    Reply::Stopped { halt, rest } => p.stopped(halt, rest),
                    Reply::Got { value: secret, rest } => routed(
                        config,
                        grant,
                        credential,
                        Some("env://"@ + crate::source_env::source_variable(grant.name@)),
                        Progress {
                            settings: with_secret(p.settings, grant.name@, secret),
                            answers: rest,
                            halt: p.halt,
                        },
                    ),
                },
            },
        },
    }
}

fn grant_credential(
    config: &CommandPoliciesConfig,
    grant: &CommandCredentialGrantPolicyConfig,
    credential: &CommandCredentialConfig,
    settings: &mut ToolSandboxSettings,
    answers: &mut VecDeque<Answer>,
) -> (result: Result<(), Halt<GrantRequest>>)
    ensures
        credential_granted(
            *config,
            *grant,
            *credential,
            Progress::start(old(settings).deep_view(), old(answers)@),
        ).reached(final(settings).deep_view(), final(answers)@, result),
{
    let name = grant.name.as_str();
    match &grant.endpoint_policy {
        None => {
            return Err(Halt::Failed(error::credential_error(name, " requires endpoint_policy")));
        },
        Some(policy) => {
            if let Err(fault) = endpoint_policy::validate_endpoint_policy_approval_routes(
                config,
                name,
                policy,
            ) {
                return Err(Halt::Failed(fault));
            }
        },
    }
    if credential.upstream.is_none() {
        return Err(Halt::Failed(error::credential_error(name, " missing upstream")));
    }
    match &credential.env_var {
        None => {
            return Err(Halt::Failed(error::credential_error(name, " missing env_var")));
        },
        Some(variable) => {
            check_both_env_vars(name, variable, &credential.base_url_env_var, answers)?;
        },
    }
    let credential_key = match &credential.source {
        Some(source) => {
            let variable = crate::source_env::proxy_source_env_var(name);
            let secret = load_supervisor_credential_source(source, answers)?;
            let mut key = "env://".to_owned();
            key.append(variable.as_str());
            settings.proxy_source_env_vars.insert(variable, secret);
            Some(key)
        },
        None => credential.credential_key.deep_clone(),
    };
    route_credential(config, grant, credential, credential_key, settings, answers)
}

/// Where `grant` ends: a proxy credential needs an endpoint policy, and a credential of another
/// type is none of the proxy's business.
pub open spec fn granted(
    config: CommandPoliciesConfig,
    grant: CommandCredentialGrantConfig,
    p: Progress,
) -> Progress {
    match grant {
        CommandCredentialGrantConfig::Name(name) => if is_proxy_credential(config, name@) {
            p.failed(error::credential_fault(name@, " must include endpoint_policy"@))
        } else {
            p
        },
        CommandCredentialGrantConfig::Policy(grant) => if is_proxy_credential(
            config,
            grant.name@,
        ) {
            credential_granted(config, grant, config.credentials.deep_view()[grant.name@], p)
        } else {
            p
        },
    }
}

/// Where `grants` end, one after the other.
pub open spec fn all_granted(
    config: CommandPoliciesConfig,
    grants: Seq<CommandCredentialGrantConfig>,
    p: Progress,
) -> Progress
    decreases grants.len(),
{
    if grants.len() == 0 || p.halt is Some {
        p
    } else {
        all_granted(config, grants.drop_first(), granted(config, grants[0], p))
    }
}

/// The first of `names` that is a proxy credential, if any is.
pub open spec fn first_proxy_credential(
    config: CommandPoliciesConfig,
    names: Seq<String>,
) -> Option<Seq<char>>
    decreases names.len(),
{
    if names.len() == 0 {
        None
    } else if is_proxy_credential(config, names[0]@) {
        Some(names[0]@)
    } else {
        first_proxy_credential(config, names.drop_first())
    }
}

/// Where granting a sandbox its credentials ends. A proxy credential that the sandbox uses
/// without a grant is an error.
pub open spec fn collected(
    config: CommandPoliciesConfig,
    sandbox: CommandSandboxConfig,
    p: Progress,
) -> Progress {
    match first_proxy_credential(config, sandbox.use_credentials@) {
        Some(name) => p.failed(
            error::credential_fault(
                name,
                " must be granted with sandbox.credentials and endpoint_policy"@,
            ),
        ),
        None => all_granted(config, sandbox.credentials@, p),
    }
}

/// Grants one sandbox its credentials.
pub fn collect_tool_sandbox_proxy_grants(
    config: &CommandPoliciesConfig,
    sandbox: &CommandSandboxConfig,
    settings: &mut ToolSandboxSettings,
    answers: &mut VecDeque<Answer>,
) -> (result: Result<(), Halt<GrantRequest>>)
    ensures
        collected(
            *config,
            *sandbox,
            Progress::start(old(settings).deep_view(), old(answers)@),
        ).reached(final(settings).deep_view(), final(answers)@, result),
{
    let ghost start = Progress::start(settings.deep_view(), answers@);
    let names = &sandbox.use_credentials;
    let mut i: usize = 0;
    assert(names@.skip(0) =~= names@);
    while i < names.len()
        invariant
            i <= names@.len(),
            *names == sandbox.use_credentials,
            first_proxy_credential(*config, names@) == first_proxy_credential(
                *config,
                names@.skip(i as int),
            ),
            start == Progress::start(old(settings).deep_view(), old(answers)@),
            settings.deep_view() == start.settings,
            answers@ == start.answers,
        decreases names@.len() - i,
    {
        assert(names@.skip(i as int).drop_first() =~= names@.skip(i + 1));
        if names_proxy_credential(config, names[i].as_str()) {
            return Err(
                Halt::Failed(
                    error::credential_error(
                        names[i].as_str(),
                        " must be granted with sandbox.credentials and endpoint_policy",
                    ),
                ),
            );
        }
        i = i + 1;
    }
    let grants = &sandbox.credentials;
    let ghost end = all_granted(*config, grants@, start);
    let mut j: usize = 0;
    assert(grants@.skip(0) =~= grants@);
    while j < grants.len()
        invariant
            j <= grants@.len(),
            *grants == sandbox.credentials,
            start == Progress::start(old(settings).deep_view(), old(answers)@),
            end == collected(*config, *sandbox, start),
            end == all_granted(
                *config,
                grants@.skip(j as int),
                Progress::start(settings.deep_view(), answers@),
            ),
        decreases grants@.len() - j,
    {
        let ghost here = Progress::start(settings.deep_view(), answers@);
        proof {
            reveal_with_fuel(all_granted, 2);
        }
        assert(grants@.skip(j as int)[0] == grants@[j as int]);
        assert(grants@.skip(j as int).drop_first() =~= grants@.skip(j + 1));
        match &grants[j] {
            CommandCredentialGrantConfig::Name(name) => {
                if names_proxy_credential(config, name.as_str()) {
                    return Err(
                        Halt::Failed(
                            error::credential_error(
                                name.as_str(),
                                " must include endpoint_policy",
                            ),
                        ),
                    );
                }
            },
            CommandCredentialGrantConfig::Policy(grant) => {
                if let Some(credential) = config.credentials.get(grant.name.as_str()) {
                    if credential.credential_type == CommandCredentialType::Proxy {
                        grant_credential(config, grant, credential, settings, answers)?;
                    }
                }
            },
        }
        assert(granted(*config, grants@[j as int], here) == Progress::start(
            settings.deep_view(),
            answers@,
        ));
        j = j + 1;
    }
    Ok(())
}

/// The sandbox that a command gets when another one calls it, if it may be called at all.
pub open spec fn sandbox_on_edge(from: CommandFromConfig) -> Option<CommandSandboxConfig> {
    match from {
        CommandFromConfig::Edge(edge) => Some(edge.sandbox),
        CommandFromConfig::Policy(sandbox) => Some(sandbox),
        CommandFromConfig::Deny => None,
    }
}

/// The sandboxes on the edges `from`, caller by caller.
pub open spec fn sandboxes_on_edges(
    from: Seq<(Seq<char>, CommandFromConfig)>,
) -> Seq<CommandSandboxConfig>
    decreases from.len(),
{
    if from.len() == 0 {
        seq![]
    } else {
        let rest = sandboxes_on_edges(from.drop_first());
        match sandbox_on_edge(from[0].1) {
            Some(sandbox) => seq![sandbox] + rest,
            None => rest,
        }
    }
}

/// The sandboxes of a command: its own, then those it gets from its callers.
pub open spec fn sandboxes_of_command(command: CommandPolicyConfig) -> Seq<CommandSandboxConfig> {
    let on_edges = sandboxes_on_edges(command.from.listed());
    match command.sandbox {
        Some(sandbox) => seq![sandbox] + on_edges,
        None => on_edges,
    }
}

/// The sandboxes of `commands`, command by command.
pub open spec fn sandboxes_of(
    commands: Seq<(Seq<char>, CommandPolicyConfig)>,
) -> Seq<CommandSandboxConfig>
    decreases commands.len(),
{
    if commands.len() == 0 {
        seq![]
    } else {
        sandboxes_of_command(commands[0].1) + sandboxes_of(commands.drop_first())
    }
}

/// Where granting `sandboxes` their credentials ends, one sandbox after the other.
pub open spec fn all_collected(
    config: CommandPoliciesConfig,
    sandboxes: Seq<CommandSandboxConfig>,
    p: Progress,
) -> Progress
    decreases sandboxes.len(),
{
    if sandboxes.len() == 0 || p.halt is Some {
        p
    } else {
        all_collected(config, sandboxes.drop_first(), collected(config, sandboxes[0], p))
    }
}

/// Where granting the sandboxes of a whole configuration ends; one that is not in force grants
/// nothing.
pub open spec fn extended(config: Option<CommandPoliciesConfig>, p: Progress) -> Progress {
    match config {
        Some(config) => if config.active {
            all_collected(config, sandboxes_of(config.commands.listed()), p)
        } else {
            p
        },
        None => p,
    }
}

/// Granting one row of sandboxes and then another is granting both rows in a row.
pub proof fn lemma_collected_in_parts(
    config: CommandPoliciesConfig,
    first: Seq<CommandSandboxConfig>,
    second: Seq<CommandSandboxConfig>,
    p: Progress,
)
    ensures
        all_collected(config, first + second, p) == all_collected(
            config,
            second,
            all_collected(config, first, p),
        ),
    decreases first.len(),
{
    if p.halt is Some {
    } else if first.len() == 0 {
        assert(first + second =~= second);
    } else {
        assert((first + second)[0] == first[0]);
        assert((first + second).drop_first() =~= first.drop_first() + second);
        lemma_collected_in_parts(
            config,
            first.drop_first(),
            second,
            collected(config, first[0], p),
        );
    }
}

/// Grants a command's own sandbox, and those it gets from its callers, their credentials.
fn collect_command_grants(
    config: &CommandPoliciesConfig,
    command: &CommandPolicyConfig,
    settings: &mut ToolSandboxSettings,
    answers: &mut VecDeque<Answer>,
) -> (result: Result<(), Halt<GrantRequest>>)
    ensures
        all_collected(
            *config,
            sandboxes_of_command(*command),
            Progress::start(old(settings).deep_view(), old(answers)@),
        ).reached(final(settings).deep_view(), final(answers)@, result),
{
    let ghost start = Progress::start(settings.deep_view(), answers@);
    let ghost on_edges = sandboxes_on_edges(command.from.listed());
    let ghost end = all_collected(*config, sandboxes_of_command(*command), start);
    if let Some(sandbox) = &command.sandbox {
        proof {
            reveal_with_fuel(all_collected, 2);
            assert((seq![*sandbox] + on_edges).drop_first() =~= on_edges);
            assert((seq![*sandbox] + on_edges)[0] == *sandbox);
        }
        collect_tool_sandbox_proxy_grants(config, sandbox, settings, answers)?;
    }
    let n = command.from.len();
    let mut i: usize = 0;
    assert(command.from.listed().skip(0) =~= command.from.listed());
    while i < n
        invariant
            i <= n,
            n == command.from.listed().len(),
            start == Progress::start(old(settings).deep_view(), old(answers)@),
            end == all_collected(*config, sandboxes_of_command(*command), start),
            end == all_collected(
                *config,
                sandboxes_on_edges(command.from.listed().skip(i as int)),
                Progress::start(settings.deep_view(), answers@),
            ),
        decreases n - i,
    {
        let from = command.from.value_at(i);
        proof {
            reveal_with_fuel(all_collected, 2);
            let left = command.from.listed().skip(i as int);
            assert(left[0].1 == *from);
            assert(left.drop_first() =~= command.from.listed().skip(i + 1));
            if let Some(sandbox) = sandbox_on_edge(*from) {
                let rest = sandboxes_on_edges(left.drop_first());
                assert((seq![sandbox] + rest).drop_first() =~= rest);
                assert((seq![sandbox] + rest)[0] == sandbox);
            }
        }
        match from {
            CommandFromConfig::Edge(edge) => collect_tool_sandbox_proxy_grants(
                config,
                &edge.sandbox,
                settings,
                answers,
            )?,
            CommandFromConfig::Policy(sandbox) => collect_tool_sandbox_proxy_grants(
                config,
                sandbox,
                settings,
                answers,
            )?,
            CommandFromConfig::Deny => {},
        }
        i = i + 1;
    }
    Ok(())
}

/// Grants every sandbox of the configuration its credentials.
pub fn extend_proxy_settings_with_tool_sandbox_credentials(
    config: Option<&CommandPoliciesConfig>,
    settings: &mut ToolSandboxSettings,
    answers: &mut VecDeque<Answer>,
) -> (result: Result<(), Halt<GrantRequest>>)
    ensures
        extended(
            policies_of(config),
            Progress::start(old(settings).deep_view(), old(answers)@),
        ).reached(final(settings).deep_view(), final(answers)@, result),
{
    let policies = match config {
        Some(policies) => policies,
        None => {
            return Ok(());
        },
    };
    if !policies.active {
        return Ok(());
    }
    let ghost start = Progress::start(settings.deep_view(), answers@);
    let ghost end = extended(Some(*policies), start);
    let n = policies.commands.len();
    let mut i: usize = 0;
    assert(policies.commands.listed().skip(0) =~= policies.commands.listed());
    while i < n
        invariant
            i <= n,
            policies_of(config) == Some(*policies),
            n == policies.commands.listed().len(),
            start == Progress::start(old(settings).deep_view(), old(answers)@),
            end == extended(Some(*policies), start),
            end == all_collected(
                *policies,
                sandboxes_of(policies.commands.listed().skip(i as int)),
                Progress::start(settings.deep_view(), answers@),
            ),
        decreases n - i,
    {
        let command = policies.commands.value_at(i);
        proof {
            let left = policies.commands.listed().skip(i as int);
            assert(left[0].1 == *command);
            assert(left.drop_first() =~= policies.commands.listed().skip(i + 1));
            lemma_collected_in_parts(
                *policies,
                sandboxes_of_command(*command),
                sandboxes_of(left.drop_first()),
                Progress::start(settings.deep_view(), answers@),
            );
        }
        collect_command_grants(policies, command, settings, answers)?;
        i = i + 1;
    }
    Ok(())
}

/// The policies behind an optional reference to them.
pub open spec fn policies_of(config: Option<&CommandPoliciesConfig>) -> Option<CommandPoliciesConfig> {
    match config {
        Some(config) => Some(*config),
        None => None,
    }
}

/// A function that granting ended in left exactly the settings and the answers of that end, and
/// returned a halt exactly where there is one, and that one.
pub proof fn lemma_functions_end_where_granting_ends(
    end: Progress,
    settings: SettingsView,
    answers: Seq<Answer>,
    result: Result<(), Halt<GrantRequest>>,
)
    ensures
        end.reached(settings, answers, result) ==> {
            &&& settings == end.settings
            &&& answers == end.answers
            &&& result is Ok <==> end.halt is None
            &&& result matches Err(halt) ==> end.halt == Some(halt.deep_view())
        },
{
}

/// A function that a question ended in left exactly the answers that were left over, and returned
/// exactly what was answered, or why it stopped.
pub proof fn lemma_functions_find_what_was_answered(
    reply: Reply<Seq<char>>,
    result: Result<String, Halt<GrantRequest>>,
    rest: Seq<Answer>,
)
    ensures
        reply.is(result, rest) ==> {
            &&& result matches Ok(text) ==> reply == Reply::Got { value: text@, rest }
            &&& result matches Err(halt) ==> reply == Reply::<Seq<char>>::Stopped {
                halt: halt.deep_view(),
                rest,
            }
        },
{
}

/// A source that is a keystore asks for its key, and one that is a command asks for the command
/// with its arguments and its time. The answer that is next in turn is the secret; without one it
/// is asked for, and a refusal is passed on.
pub proof fn lemma_secret_is_the_next_answer(
    source: AmbientCredentialSourceConfig,
    answers: Seq<Answer>,
)
    ensures
        ({
            let reply = answer_to(source_request(source), answers);
            &&& answers.len() == 0 ==> (reply matches Reply::Stopped { halt, rest } && rest
                == answers && match source {
                AmbientCredentialSourceConfig::Keystore { key } => halt
                    == HaltView::<GrantRequestView>::Ask(
                    GrantRequestView::LoadSecret { key: key@ },
                ),
                AmbientCredentialSourceConfig::Command { command, args, timeout_secs } => halt
                    == HaltView::<GrantRequestView>::Ask(
                    GrantRequestView::RunCommand {
                        command: command@,
                        args: args.deep_view(),
                        timeout_secs,
                    },
                ),
            })
            &&& answers.len() > 0 ==> match answers[0] {
                Ok(text) => reply == Reply::Got { value: text@, rest: answers.skip(1) },
                Err(error) => reply == Reply::<Seq<char>>::Stopped {
                    halt: HaltView::Failed(error.deep_view()),
                    rest: answers.skip(1),
                },
            }
        }),
{
    if answers.len() > 0 {
        assert(answers.drop_first() =~= answers.skip(1));
    }
}

/// Granting starts from the settings and the answers it is given, not stopped; settings without a
/// grant hold the credentials and the routes they are given and nothing else; and the policies
/// are those that are there, if any are.
pub proof fn lemma_granting_starts_from_what_it_is_given(
    settings: SettingsView,
    answers: Seq<Answer>,
    credentials: Seq<Seq<char>>,
    routes: Map<Seq<char>, CustomCredentialDefView>,
    policies: CommandPoliciesConfig,
)
    ensures
        Progress::start(settings, answers).settings == settings,
        Progress::start(settings, answers).answers == answers,
        Progress::start(settings, answers).halt is None,
        ({
            let blank = nothing_granted(credentials, routes);
            &&& blank.credentials == credentials
            &&& blank.custom_credentials == routes
            &&& blank.proxy_source_env_vars == Map::<Seq<char>, Seq<char>>::empty()
            &&& blank.base_url_env_vars == Map::<Seq<char>, Seq<char>>::empty()
            &&& blank.tool_sandbox_proxy_credentials == Set::<Seq<char>>::empty()
        }),
        policies_of(Some(&policies)) == Some(policies),
        policies_of(None) is None,
{
}

/// Grants are made one after the other, each from where the one before it ended, and the first
/// that stops ends them all; no grants change nothing. So are sandboxes served.
pub proof fn lemma_grants_are_made_one_by_one(
    config: CommandPoliciesConfig,
    row: Seq<CommandCredentialGrantConfig>,
    grant: CommandCredentialGrantConfig,
    sandboxes: Seq<CommandSandboxConfig>,
    sandbox: CommandSandboxConfig,
    p: Progress,
)
    ensures
        all_granted(config, Seq::empty(), p) == p,
        all_granted(config, row, p).halt is Some ==> all_granted(config, row.push(grant), p)
            == all_granted(config, row, p),
        all_granted(config, row, p).halt is None ==> all_granted(config, row.push(grant), p)
            == granted(config, grant, all_granted(config, row, p)),
        all_collected(config, Seq::empty(), p) == p,
        all_collected(config, sandboxes, p).halt is Some ==> all_collected(
            config,
            sandboxes.push(sandbox),
            p,
        ) == all_collected(config, sandboxes, p),
        all_collected(config, sandboxes, p).halt is None ==> all_collected(
            config,
            sandboxes.push(sandbox),
            p,
        ) == collected(config, sandbox, all_collected(config, sandboxes, p)),
{
    lemma_one_more_grant(config, row, grant, p);
    lemma_one_more_sandbox(config, sandboxes, sandbox, p);
}

proof fn lemma_one_more_grant(
    config: CommandPoliciesConfig,
    row: Seq<CommandCredentialGrantConfig>,
    grant: CommandCredentialGrantConfig,
    p: Progress,
)
    ensures
        all_granted(config, row.push(grant), p) == if all_granted(config, row, p).halt is Some {
            all_granted(config, row, p)
        } else {
            granted(config, grant, all_granted(config, row, p))
        },
    decreases row.len(),
{
    let more = row.push(grant);
    reveal_with_fuel(all_granted, 2);
    if row.len() == 0 {
        assert(more.drop_first() =~= Seq::empty());
    } else if p.halt is None {
        assert(more.drop_first() =~= row.drop_first().push(grant));
        lemma_one_more_grant(config, row.drop_first(), grant, granted(config, row[0], p));
    }
}

proof fn lemma_one_more_sandbox(
    config: CommandPoliciesConfig,
    sandboxes: Seq<CommandSandboxConfig>,
    sandbox: CommandSandboxConfig,
    p: Progress,
)
    ensures
        all_collected(config, sandboxes.push(sandbox), p) == if all_collected(
            config,
            sandboxes,
            p,
        ).halt is Some {
            all_collected(config, sandboxes, p)
        } else {
            collected(config, sandbox, all_collected(config, sandboxes, p))
        },
    decreases sandboxes.len(),
{
    let more = sandboxes.push(sandbox);
    reveal_with_fuel(all_collected, 2);
    if sandboxes.len() == 0 {
        assert(more.drop_first() =~= Seq::empty());
    } else if p.halt is None {
        assert(more.drop_first() =~= sandboxes.drop_first().push(sandbox));
        lemma_one_more_sandbox(
            config,
            sandboxes.drop_first(),
            sandbox,
            collected(config, sandboxes[0], p),
        );
    }
}

/// A sandbox that uses no proxy credential without a grant is served by its grants, all of them
/// and in order; and a configuration in force by its sandboxes.
pub proof fn lemma_sandboxes_are_served_by_their_grants(
    config: CommandPoliciesConfig,
    sandbox: CommandSandboxConfig,
    p: Progress,
)
    ensures
        (forall|i: int|
            0 <= i < sandbox.use_credentials@.len() ==> {
                let name = (#[trigger] sandbox.use_credentials@[i])@;
                !(config.credentials.deep_view().contains_key(name)
                    && config.credentials.deep_view()[name].credential_type is Proxy)
            }) ==> collected(config, sandbox, p) == all_granted(config, sandbox.credentials@, p),
        config.active ==> extended(Some(config), p) == all_collected(
            config,
            sandboxes_of(config.commands.listed()),
            p,
        ),
{
    if forall|i: int|
        0 <= i < sandbox.use_credentials@.len() ==> {
            let name = (#[trigger] sandbox.use_credentials@[i])@;
            !(config.credentials.deep_view().contains_key(name)
                && config.credentials.deep_view()[name].credential_type is Proxy)
        } {
        lemma_no_use_is_found(config, sandbox.use_credentials@);
    }
}

proof fn lemma_no_use_is_found(config: CommandPoliciesConfig, names: Seq<String>)
    requires
        forall|i: int|
            0 <= i < names.len() ==> {
                let name = (#[trigger] names[i])@;
                !(config.credentials.deep_view().contains_key(name)
                    && config.credentials.deep_view()[name].credential_type is Proxy)
            },
    ensures
        first_proxy_credential(config, names) is None,
    decreases names.len(),
{
    if names.len() > 0 {
        let rest = names.drop_first();
        assert(!is_proxy_credential(config, names[0]@));
        assert forall|i: int| 0 <= i < rest.len() implies {
            let name = (#[trigger] rest[i])@;
            !(config.credentials.deep_view().contains_key(name)
                && config.credentials.deep_view()[name].credential_type is Proxy)
        } by {
            assert(rest[i] == names[i + 1]);
        }
        lemma_no_use_is_found(config, rest);
    }
}

/// Sandboxes come command by command, and of each command its own before those that its callers
/// give it, caller by caller; a caller that denies it gives none.
pub proof fn lemma_sandboxes_come_command_by_command(
    commands: Seq<(Seq<char>, CommandPolicyConfig)>,
    name: Seq<char>,
    command: CommandPolicyConfig,
    callers: Seq<(Seq<char>, CommandFromConfig)>,
    from: CommandFromConfig,
)
    ensures
        sandboxes_of(Seq::empty()).len() == 0,
        sandboxes_of(commands.push((name, command))) == sandboxes_of(commands)
            + sandboxes_of_command(command),
        command.sandbox matches Some(own) ==> sandboxes_of_command(command) == seq![own]
            + sandboxes_on_edges(command.from.listed()),
        command.sandbox is None ==> sandboxes_of_command(command) == sandboxes_on_edges(
            command.from.listed(),
        ),
        sandboxes_on_edges(Seq::empty()).len() == 0,
        sandboxes_on_edges(callers.push((name, from))) == match from {
            CommandFromConfig::Edge(edge) => sandboxes_on_edges(callers).push(edge.sandbox),
            CommandFromConfig::Policy(sandbox) => sandboxes_on_edges(callers).push(sandbox),
            CommandFromConfig::Deny => sandboxes_on_edges(callers),
        },
    decreases commands.len() + callers.len(),
{
    let more = commands.push((name, command));
    let wider = callers.push((name, from));
    reveal_with_fuel(sandboxes_of, 2);
    reveal_with_fuel(sandboxes_on_edges, 2);
    if commands.len() > 0 {
        lemma_sandboxes_come_command_by_command(
            commands.drop_first(),
            name,
            command,
            callers,
            from,
        );
        assert(more.drop_first() =~= commands.drop_first().push((name, command)));
        assert(sandboxes_of(more) =~= sandboxes_of(commands) + sandboxes_of_command(command));
    } else {
        assert(more.drop_first() =~= Seq::empty());
        assert(sandboxes_of(more) =~= sandboxes_of(commands) + sandboxes_of_command(command));
    }
    if callers.len() > 0 {
        lemma_sandboxes_come_command_by_command(
            commands,
            name,
            command,
            callers.drop_first(),
            from,
        );
        assert(wider.drop_first() =~= callers.drop_first().push((name, from)));
    } else {
        assert(wider.drop_first() =~= Seq::empty());
    }
    assert(sandboxes_on_edges(wider) =~= match from {
        CommandFromConfig::Edge(edge) => sandboxes_on_edges(callers).push(edge.sandbox),
        CommandFromConfig::Policy(sandbox) => sandboxes_on_edges(callers).push(sandbox),
        CommandFromConfig::Deny => sandboxes_on_edges(callers),
    });
}

} // verus!
