//! What the command line and the profile ask of a sandbox, and how its proxy is to be launched.
use vstd::prelude::*;

use crate::command_policy::CommandPoliciesConfig;
use crate::names::{NameMap, NameSet};
use crate::profile::{
    AllowDomainEntry, AllowDomainEntryView, CustomCredentialDef, CustomCredentialDefView,
    TlsInterceptConfig,
};
use crate::proxy_config::TimeSpan;

verus! {

/// What a sandboxed command may reach of the network.
#[derive(Debug, PartialEq, Eq)]
pub enum NetworkMode {
    /// Nothing.
    Blocked,
    /// Everything.
    AllowAll,
    /// Only the proxy, on its port; it may listen on `bind_ports`.
    ProxyOnly { port: u16, bind_ports: Vec<u16> },
}

/// What a `NetworkMode` allows.
#[verifier::ext_equal]
pub enum NetworkModeView {
    Blocked,
    AllowAll,
    ProxyOnly { port: u16, bind_ports: Seq<u16> },
}

impl DeepView for NetworkMode {
    type V = NetworkModeView;

    open spec fn deep_view(&self) -> NetworkModeView {
        match self {
            NetworkMode::Blocked => NetworkModeView::Blocked,
            NetworkMode::AllowAll => NetworkModeView::AllowAll,
            NetworkMode::ProxyOnly { port, bind_ports } => NetworkModeView::ProxyOnly {
                port: *port,
                bind_ports: bind_ports@,
            },
        }
    }
}

/// The system that the sandbox runs on.
#[derive(Debug, Clone, Copy, PartialEq, Eq, Structural)]
pub enum Platform {
    MacOs,
    Other,
}

/// The command line, as far as it concerns the proxy.
#[derive(Debug, Default, PartialEq, Eq)]
pub struct SandboxArgs {
    pub allow_net: bool,
    pub network_profile: Option<String>,
    pub allow_proxy: Vec<String>,
    pub proxy_credential: Vec<String>,
    pub external_proxy: Option<String>,
    pub external_proxy_bypass: Vec<String>,
    pub allow_bind: Vec<u16>,
    pub proxy_port: Option<u16>,
    /// In days.
    pub proxy_ca_validity: Option<u32>,
    pub trust_proxy_ca: bool,
}

/// The sandbox as the profile prepares it, as far as it concerns the proxy.
#[derive(Debug, PartialEq, Eq)]
pub struct PreparedSandbox {
    pub network_mode: NetworkMode,
    pub network_profile: Option<String>,
    pub allow_domain: Vec<AllowDomainEntry>,
    pub credentials: Vec<String>,
    pub custom_credentials: NameMap<CustomCredentialDef>,
    pub command_policies: Option<CommandPoliciesConfig>,
    pub listen_ports: Vec<u16>,
    pub upstream_proxy: Option<String>,
    pub upstream_bypass: Vec<String>,
    pub open_url_origins: Vec<String>,
    pub open_url_allow_localhost: bool,
    pub allow_launch_services_active: bool,
    pub network_block_requested: bool,
    pub tls_intercept: Option<TlsInterceptConfig>,
}

/// How the proxy of a sandbox is to be launched.
#[derive(Default)]
pub struct ProxyLaunchOptions<'a> {
    pub active: bool,
    pub network_profile: Option<String>,
    pub allow_domain: Vec<AllowDomainEntry>,
    pub credentials: Vec<String>,
    pub custom_credentials: NameMap<CustomCredentialDef>,
    pub proxy_source_env_vars: NameMap<String>,
    pub tool_sandbox_base_url_env_vars: NameMap<String>,
    pub tool_sandbox_proxy_credentials: NameSet,
    pub upstream_proxy: Option<String>,
    pub upstream_bypass: Vec<String>,
    pub allow_bind_ports: Vec<u16>,
    pub proxy_port: Option<u16>,
    pub open_url_origins: Vec<String>,
    pub open_url_allow_localhost: bool,
    pub allow_launch_services_active: bool,
    pub trust_proxy_ca: bool,
    pub proxy_ca_validity: Option<TimeSpan>,
    pub proxy_leaf_validity: Option<TimeSpan>,
    pub network_block: bool,
    pub command_policies: Option<&'a CommandPoliciesConfig>,
}

/// What a `ProxyLaunchOptions` holds.
#[verifier::ext_equal]
pub struct LaunchOptionsView {
    pub active: bool,
    pub network_profile: Option<Seq<char>>,
    pub allow_domain: Seq<AllowDomainEntryView>,
    pub credentials: Seq<Seq<char>>,
    pub custom_credentials: Map<Seq<char>, CustomCredentialDefView>,
    pub proxy_source_env_vars: Map<Seq<char>, Seq<char>>,
    pub tool_sandbox_base_url_env_vars: Map<Seq<char>, Seq<char>>,
    pub tool_sandbox_proxy_credentials: Set<Seq<char>>,
    pub upstream_proxy: Option<Seq<char>>,
    pub upstream_bypass: Seq<Seq<char>>,
    pub allow_bind_ports: Seq<u16>,
    pub proxy_port: Option<u16>,
    pub open_url_origins: Seq<Seq<char>>,
    pub open_url_allow_localhost: bool,
    pub allow_launch_services_active: bool,
    pub trust_proxy_ca: bool,
    pub proxy_ca_validity: Option<TimeSpan>,
    pub proxy_leaf_validity: Option<TimeSpan>,
    pub network_block: bool,
    pub command_policies: Option<CommandPoliciesConfig>,
}

impl<'a> DeepView for ProxyLaunchOptions<'a> {
    type V = LaunchOptionsView;

    open spec fn deep_view(&self) -> LaunchOptionsView {
        LaunchOptionsView {
            active: self.active,
            network_profile: self.network_profile.deep_view(),
            allow_domain: self.allow_domain.deep_view(),
            credentials: self.credentials.deep_view(),
            custom_credentials: self.custom_credentials.deep_view(),
            proxy_source_env_vars: self.proxy_source_env_vars.deep_view(),
            tool_sandbox_base_url_env_vars: self.tool_sandbox_base_url_env_vars.deep_view(),
            tool_sandbox_proxy_credentials: self.tool_sandbox_proxy_credentials.deep_view(),
            upstream_proxy: self.upstream_proxy.deep_view(),
            upstream_bypass: self.upstream_bypass.deep_view(),
            allow_bind_ports: self.allow_bind_ports@,
            proxy_port: self.proxy_port,
            open_url_origins: self.open_url_origins.deep_view(),
            open_url_allow_localhost: self.open_url_allow_localhost,
            allow_launch_services_active: self.allow_launch_services_active,
            trust_proxy_ca: self.trust_proxy_ca,
            proxy_ca_validity: self.proxy_ca_validity,
            proxy_leaf_validity: self.proxy_leaf_validity,
            network_block: self.network_block,
            command_policies: match self.command_policies {
                Some(policies) => Some(*policies),
                None => None,
            },
        }
    }
}

} // verus!
