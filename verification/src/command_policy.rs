//! What a profile says about the commands that run in a tool sandbox.
use vstd::prelude::*;

use crate::names::NameMap;

verus! {

/// What happens to a request to an endpoint.
#[derive(Debug, Clone, Copy, PartialEq, Eq, Structural)]
pub enum PolicyDecision {
    Deny,
    Approve,
    Allow,
}

/// A decision with the approval backend it is routed to.
#[derive(Debug, PartialEq, Eq)]
pub struct RoutedApprovalConfig {
    pub decision: PolicyDecision,
    pub backend: Option<String>,
    pub timeout_secs: Option<u64>,
}

/// A decision, alone or with a route.
#[derive(Debug, PartialEq, Eq)]
pub enum PolicyDecisionConfig {
    Decision(PolicyDecision),
    RoutedApproval(RoutedApprovalConfig),
}

/// A rule on the requests of one method to one path pattern.
#[derive(Debug, PartialEq, Eq)]
pub struct EndpointRuleConfig {
    pub method: String,
    pub path: String,
    pub backend: Option<String>,
    pub reason: Option<String>,
    pub timeout_secs: Option<u64>,
}

/// The rules on the endpoints that a credential may be used for.
#[derive(Debug, PartialEq, Eq)]
pub struct EndpointPolicyConfig {
    pub default: PolicyDecisionConfig,
    pub deny: Vec<EndpointRuleConfig>,
    pub approve: Vec<EndpointRuleConfig>,
    pub allow: Vec<EndpointRuleConfig>,
}

/// A credential granted under a policy.
#[derive(Debug, PartialEq, Eq)]
pub struct CommandCredentialGrantPolicyConfig {
    pub name: String,
    pub endpoint_policy: Option<EndpointPolicyConfig>,
}

/// A credential granted to a sandbox.
#[derive(Debug, PartialEq, Eq)]
pub enum CommandCredentialGrantConfig {
    Name(String),
    Policy(CommandCredentialGrantPolicyConfig),
}

/// What a sandbox may use.
#[derive(Debug, Default, PartialEq, Eq)]
pub struct CommandSandboxConfig {
    pub use_credentials: Vec<String>,
    pub credentials: Vec<CommandCredentialGrantConfig>,
}

/// The sandbox a command gets on one edge of the command graph.
#[derive(Debug, Default, PartialEq, Eq)]
pub struct CommandEdgeConfig {
    pub sandbox: CommandSandboxConfig,
}

/// What one command may do when another one calls it.
#[derive(Debug, PartialEq, Eq)]
pub enum CommandFromConfig {
    Edge(CommandEdgeConfig),
    Policy(CommandSandboxConfig),
    Deny,
}

/// What one command may do.
#[derive(Debug, Default, PartialEq, Eq)]
pub struct CommandPolicyConfig {
    pub sandbox: Option<CommandSandboxConfig>,
    pub from: NameMap<CommandFromConfig>,
}

/// How a credential reaches a command.
#[derive(Debug, Clone, Copy, Default, PartialEq, Eq, Structural)]
pub enum CommandCredentialType {
    /// Through the proxy, which holds the secret itself.
    Proxy,
    /// In some other way, which the proxy has no part in.
    #[default]
    Other,
}

/// Where the supervisor gets a secret from.
#[derive(Debug, PartialEq, Eq)]
pub enum AmbientCredentialSourceConfig {
    Keystore { key: String },
    Command { command: String, args: Vec<String>, timeout_secs: Option<u64> },
}

/// A credential that commands can be granted.
#[derive(Debug, Default, PartialEq, Eq)]
pub struct CommandCredentialConfig {
    pub credential_type: CommandCredentialType,
    pub upstream: Option<String>,
    pub credential_key: Option<String>,
    pub source: Option<AmbientCredentialSourceConfig>,
    pub env_var: Option<String>,
    pub base_url_env_var: Option<String>,
    pub inject_header: Option<String>,
    pub credential_format: Option<String>,
    pub tls_ca: Option<String>,
    pub tls_client_cert: Option<String>,
    pub tls_client_key: Option<String>,
}

/// What holds of an approval that does not say otherwise.
#[derive(Debug, Default, PartialEq, Eq)]
pub struct ApprovalDefaultsConfig {
    pub backend: Option<String>,
    pub timeout_secs: Option<u64>,
}

/// Who can be asked for an approval.
#[derive(Debug, Default, PartialEq, Eq)]
pub struct ApprovalBackendConfig {
    pub timeout_secs: Option<u64>,
}

/// The policies on commands.
#[derive(Debug, Default, PartialEq, Eq)]
pub struct CommandPoliciesConfig {
    /// Whether the policies are in force at all.
    pub active: bool,
    pub commands: NameMap<CommandPolicyConfig>,
    pub credentials: NameMap<CommandCredentialConfig>,
    pub approval_defaults: ApprovalDefaultsConfig,
    pub approval_backends: NameMap<ApprovalBackendConfig>,
}

impl DeepView for CommandFromConfig {
    type V = CommandFromConfig;

    open spec fn deep_view(&self) -> CommandFromConfig {
        *self
    }
}

impl DeepView for CommandPolicyConfig {
    type V = CommandPolicyConfig;

    open spec fn deep_view(&self) -> CommandPolicyConfig {
        *self
    }
}

impl DeepView for CommandCredentialConfig {
    type V = CommandCredentialConfig;

    open spec fn deep_view(&self) -> CommandCredentialConfig {
        *self
    }
}

impl DeepView for ApprovalBackendConfig {
    type V = ApprovalBackendConfig;

    open spec fn deep_view(&self) -> ApprovalBackendConfig {
        *self
    }
}

} // verus!
