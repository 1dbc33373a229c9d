//! The settings of the proxy itself.
use vstd::prelude::*;

use crate::values::{DeepClone, DeepEq};

verus! {

/// What the proxy does with a request.
#[derive(Debug, Clone, Copy, PartialEq, Eq, Structural)]
pub enum ProxyEndpointPolicyDecision {
    Deny,
    Approve,
    Allow,
}

/// What the proxy does with a request that no rule matches.
#[derive(Debug, Clone, PartialEq, Eq)]
pub struct ProxyEndpointPolicyDefault {
    pub decision: ProxyEndpointPolicyDecision,
    pub backend: Option<String>,
    pub timeout_secs: Option<u64>,
}

/// What a `ProxyEndpointPolicyDefault` holds.
#[verifier::ext_equal]
pub struct ProxyEndpointPolicyDefaultView {
    pub decision: ProxyEndpointPolicyDecision,
    pub backend: Option<Seq<char>>,
    pub timeout_secs: Option<u64>,
}

impl DeepView for ProxyEndpointPolicyDefault {
    type V = ProxyEndpointPolicyDefaultView;

    open spec fn deep_view(&self) -> ProxyEndpointPolicyDefaultView {
        ProxyEndpointPolicyDefaultView {
            decision: self.decision,
            backend: self.backend.deep_view(),
            timeout_secs: self.timeout_secs.deep_view(),
        }
    }
}

impl DeepClone for ProxyEndpointPolicyDefault {
    fn deep_clone(&self) -> (copy: Self) {
        ProxyEndpointPolicyDefault {
            decision: self.decision,
            backend: self.backend.deep_clone(),
            timeout_secs: self.timeout_secs,
        }
    }
}

impl DeepEq for ProxyEndpointPolicyDefault {
    fn deep_eq(&self, other: &Self) -> (same: bool) {
        self.decision == other.decision
            && self.backend.deep_eq(&other.backend)
            && self.timeout_secs.deep_eq(&other.timeout_secs)
    }
}

/// A rule of the proxy on the requests of one method to one path pattern.
#[derive(Debug, Clone, PartialEq, Eq)]
pub struct ProxyEndpointPolicyRule {
    pub method: String,
    pub path: String,
    pub backend: Option<String>,
    pub reason: Option<String>,
    pub timeout_secs: Option<u64>,
}

/// What a `ProxyEndpointPolicyRule` holds.
#[verifier::ext_equal]
pub struct ProxyEndpointPolicyRuleView {
    pub method: Seq<char>,
    pub path: Seq<char>,
    pub backend: Option<Seq<char>>,
    pub reason: Option<Seq<char>>,
    pub timeout_secs: Option<u64>,
}

impl DeepView for ProxyEndpointPolicyRule {
    type V = ProxyEndpointPolicyRuleView;

    open spec fn deep_view(&self) -> ProxyEndpointPolicyRuleView {
        ProxyEndpointPolicyRuleView {
            method: self.method.deep_view(),
            path: self.path.deep_view(),
            backend: self.backend.deep_view(),
            reason: self.reason.deep_view(),
            timeout_secs: self.timeout_secs.deep_view(),
        }
    }
}

impl DeepClone for ProxyEndpointPolicyRule {
    fn deep_clone(&self) -> (copy: Self) {
        ProxyEndpointPolicyRule {
            method: self.method.deep_clone(),
            path: self.path.deep_clone(),
            backend: self.backend.deep_clone(),
            reason: self.reason.deep_clone(),
            timeout_secs: self.timeout_secs,
        }
    }
}

impl DeepEq for ProxyEndpointPolicyRule {
    fn deep_eq(&self, other: &Self) -> (same: bool) {
        self.method.deep_eq(&other.method)
            && self.path.deep_eq(&other.path)
            && self.backend.deep_eq(&other.backend)
            && self.reason.deep_eq(&other.reason)
            && self.timeout_secs.deep_eq(&other.timeout_secs)
    }
}

/// The rules of the proxy on the endpoints of one route.
#[derive(Debug, Clone, PartialEq, Eq)]
pub struct ProxyEndpointPolicyConfig {
    pub default: ProxyEndpointPolicyDefault,
    pub deny: Vec<ProxyEndpointPolicyRule>,
    pub approve: Vec<ProxyEndpointPolicyRule>,
    pub allow: Vec<ProxyEndpointPolicyRule>,
}

/// What a `ProxyEndpointPolicyConfig` holds.
#[verifier::ext_equal]
pub struct ProxyEndpointPolicyConfigView {
    pub default: ProxyEndpointPolicyDefaultView,
    pub deny: Seq<ProxyEndpointPolicyRuleView>,
    pub approve: Seq<ProxyEndpointPolicyRuleView>,
    pub allow: Seq<ProxyEndpointPolicyRuleView>,
}

impl DeepView for ProxyEndpointPolicyConfig {
    type V = ProxyEndpointPolicyConfigView;

    open spec fn deep_view(&self) -> ProxyEndpointPolicyConfigView {
        ProxyEndpointPolicyConfigView {
            default: self.default.deep_view(),
            deny: self.deny.deep_view(),
            approve: self.approve.deep_view(),
            allow: self.allow.deep_view(),
        }
    }
}

impl DeepClone for ProxyEndpointPolicyConfig {
    fn deep_clone(&self) -> (copy: Self) {
        ProxyEndpointPolicyConfig {
            default: self.default.deep_clone(),
            deny: self.deny.deep_clone(),
            approve: self.approve.deep_clone(),
            allow: self.allow.deep_clone(),
        }
    }
}

impl DeepEq for ProxyEndpointPolicyConfig {
    fn deep_eq(&self, other: &Self) -> (same: bool) {
        self.default.deep_eq(&other.default)
            && self.deny.deep_eq(&other.deny)
            && self.approve.deep_eq(&other.approve)
            && self.allow.deep_eq(&other.allow)
    }
}

/// An endpoint that a route lets through.
#[derive(Debug, Clone, PartialEq, Eq)]
pub struct EndpointRule {
    pub method: String,
    pub path: String,
}

/// What a `EndpointRule` holds.
#[verifier::ext_equal]
pub struct EndpointRuleView {
    pub method: Seq<char>,
    pub path: Seq<char>,
}

impl DeepView for EndpointRule {
    type V = EndpointRuleView;

    open spec fn deep_view(&self) -> EndpointRuleView {
        EndpointRuleView {
            method: self.method.deep_view(),
            path: self.path.deep_view(),
        }
    }
}

impl DeepClone for EndpointRule {
    fn deep_clone(&self) -> (copy: Self) {
        EndpointRule {
            method: self.method.deep_clone(),
            path: self.path.deep_clone(),
        }
    }
}

impl DeepEq for EndpointRule {
    fn deep_eq(&self, other: &Self) -> (same: bool) {
        self.method.deep_eq(&other.method)
            && self.path.deep_eq(&other.path)
    }
}

/// How the proxy puts a secret into a request.
#[derive(Debug, Clone, PartialEq, Eq)]
pub enum InjectMode {
    Header,
    /// A mode that only profiles ask for, by its name.
    Other(String),
}

/// Which mode an `InjectMode` is.
#[verifier::ext_equal]
pub enum InjectModeView {
    Header,
    Other(Seq<char>),
}

impl DeepView for InjectMode {
    type V = InjectModeView;

    open spec fn deep_view(&self) -> InjectModeView {
        match self {
            InjectMode::Header => InjectModeView::Header,
            InjectMode::Other(name) => InjectModeView::Other(name@),
        }
    }
}

impl DeepClone for InjectMode {
    fn deep_clone(&self) -> (copy: Self) {
        match self {
            InjectMode::Header => InjectMode::Header,
            InjectMode::Other(name) => InjectMode::Other(name.clone()),
        }
    }
}

impl DeepEq for InjectMode {
    fn deep_eq(&self, other: &Self) -> (same: bool) {
        match (self, other) {
            (InjectMode::Header, InjectMode::Header) => true,
            (InjectMode::Other(a), InjectMode::Other(b)) => *a == *b,
            _ => false,
        }
    }
}

/// A length of time.
#[derive(Debug, Clone, Copy, PartialEq, Eq, Structural)]
pub struct TimeSpan {
    pub secs: u64,
    pub nanos: u32,
}

/// A route of the proxy: the prefix it answers to, and what it does there.
#[derive(Debug, Clone, PartialEq, Eq)]
pub struct RouteConfig {
    pub prefix: String,
    pub upstream: String,
    pub credential_key: Option<String>,
    pub inject_mode: InjectMode,
    pub inject_header: String,
    pub credential_format: Option<String>,
    pub path_pattern: Option<String>,
    pub path_replacement: Option<String>,
    pub query_param_name: Option<String>,
    pub proxy: Option<String>,
    pub env_var: Option<String>,
    pub endpoint_rules: Vec<EndpointRule>,
    pub endpoint_policy: Option<ProxyEndpointPolicyConfig>,
    pub tls_ca: Option<String>,
    pub tls_client_cert: Option<String>,
    pub tls_client_key: Option<String>,
    pub oauth2: Option<String>,
}

/// Another proxy that the proxy goes through.
#[derive(Debug, Clone, PartialEq, Eq)]
pub struct ExternalProxyConfig {
    pub address: String,
    pub auth: Option<String>,
    pub bypass_hosts: Vec<String>,
}

/// The settings that the proxy is started with.
#[derive(Debug, Clone, Default, PartialEq, Eq)]
pub struct ProxyConfig {
    pub routes: Vec<RouteConfig>,
    pub strict_filter: bool,
    pub external_proxy: Option<ExternalProxyConfig>,
    pub bind_port: u16,
    pub ca_validity: Option<TimeSpan>,
    pub leaf_validity: Option<TimeSpan>,
    pub direct_connect_ports: Vec<u16>,
    pub intercept_ca_dir: Option<String>,
    pub intercept_parent_ca_pems: Option<Vec<u8>>,
}

/// What a network profile stands for.
#[derive(Debug, Clone, PartialEq, Eq)]
pub struct ResolvedNetworkPolicy {
    pub hosts: Vec<String>,
    pub suffixes: Vec<String>,
    pub routes: Vec<RouteConfig>,
    pub profile_credentials: Vec<String>,
}

/// What an `ExternalProxyConfig` holds.
#[verifier::ext_equal]
pub struct ExternalProxyConfigView {
    pub address: Seq<char>,
    pub auth: Option<Seq<char>>,
    pub bypass_hosts: Seq<Seq<char>>,
}

impl DeepView for ExternalProxyConfig {
    type V = ExternalProxyConfigView;

    open spec fn deep_view(&self) -> ExternalProxyConfigView {
        ExternalProxyConfigView {
            address: self.address@,
            auth: self.auth.deep_view(),
            bypass_hosts: self.bypass_hosts.deep_view(),
        }
    }
}

/// What a `ProxyConfig` holds.
#[verifier::ext_equal]
pub struct ProxyConfigView {
    pub routes: Seq<RouteConfig>,
    pub strict_filter: bool,
    pub external_proxy: Option<ExternalProxyConfigView>,
    pub bind_port: u16,
    pub ca_validity: Option<TimeSpan>,
    pub leaf_validity: Option<TimeSpan>,
    pub direct_connect_ports: Seq<u16>,
    pub intercept_ca_dir: Option<Seq<char>>,
    pub intercept_parent_ca_pems: Option<Seq<u8>>,
}

impl DeepView for ProxyConfig {
    type V = ProxyConfigView;

    open spec fn deep_view(&self) -> ProxyConfigView {
        ProxyConfigView {
            routes: self.routes@,
            strict_filter: self.strict_filter,
            external_proxy: self.external_proxy.deep_view(),
            bind_port: self.bind_port,
            ca_validity: self.ca_validity,
            leaf_validity: self.leaf_validity,
            direct_connect_ports: self.direct_connect_ports@,
            intercept_ca_dir: self.intercept_ca_dir.deep_view(),
            intercept_parent_ca_pems: self.intercept_parent_ca_pems.deep_view(),
        }
    }
}

/// What a `ResolvedNetworkPolicy` holds.
#[verifier::ext_equal]
pub struct ResolvedNetworkPolicyView {
    pub hosts: Seq<Seq<char>>,
    pub suffixes: Seq<Seq<char>>,
    pub routes: Seq<RouteConfig>,
    pub profile_credentials: Seq<Seq<char>>,
}

impl DeepView for ResolvedNetworkPolicy {
    type V = ResolvedNetworkPolicyView;

    open spec fn deep_view(&self) -> ResolvedNetworkPolicyView {
        ResolvedNetworkPolicyView {
            hosts: self.hosts.deep_view(),
            suffixes: self.suffixes.deep_view(),
            routes: self.routes@,
            profile_credentials: self.profile_credentials.deep_view(),
        }
    }
}

} // verus!
