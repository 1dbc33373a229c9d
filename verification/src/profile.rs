//! What a profile says about the network.
use vstd::prelude::*;

use crate::proxy_config::{
    EndpointRule, EndpointRuleView, InjectMode, InjectModeView, ProxyEndpointPolicyConfig,
    ProxyEndpointPolicyConfigView,
};
use crate::values::{DeepClone, DeepEq};

verus! {

/// A domain that commands may reach, in full or only at some endpoints.
#[derive(Debug, PartialEq, Eq)]
pub enum AllowDomainEntry {
    Plain(String),
    WithEndpoints { domain: String, endpoints: Vec<EndpointRule> },
}

/// What an `AllowDomainEntry` holds.
#[verifier::ext_equal]
pub enum AllowDomainEntryView {
    Plain(Seq<char>),
    WithEndpoints { domain: Seq<char>, endpoints: Seq<EndpointRuleView> },
}

impl DeepView for AllowDomainEntry {
    type V = AllowDomainEntryView;

    open spec fn deep_view(&self) -> AllowDomainEntryView {
        match self {
            AllowDomainEntry::Plain(domain) => AllowDomainEntryView::Plain(domain@),
            AllowDomainEntry::WithEndpoints { domain, endpoints } => {
                AllowDomainEntryView::WithEndpoints {
                    domain: domain@,
                    endpoints: endpoints.deep_view(),
                }
            },
        }
    }
}

impl DeepClone for AllowDomainEntry {
    fn deep_clone(&self) -> (copy: Self) {
        match self {
            AllowDomainEntry::Plain(domain) => AllowDomainEntry::Plain(domain.clone()),
            AllowDomainEntry::WithEndpoints { domain, endpoints } => {
                AllowDomainEntry::WithEndpoints {
                    domain: domain.clone(),
                    endpoints: endpoints.deep_clone(),
                }
            },
        }
    }
}

/// A credential route, as a profile or a grant defines it.
#[derive(Debug, PartialEq, Eq)]
pub struct CustomCredentialDef {
    pub upstream: String,
    pub credential_key: Option<String>,
    pub auth: Option<String>,
    pub inject_mode: InjectMode,
    pub inject_header: String,
    pub credential_format: Option<String>,
    pub path_pattern: Option<String>,
    pub path_replacement: Option<String>,
    pub query_param_name: Option<String>,
    pub proxy: Option<String>,
    pub env_var: Option<String>,
    pub endpoint_rules: Vec<EndpointRule>,
    pub endpoint_policy: Option<ProxyEndpointPolicyConfig>,
    pub tls_ca: Option<String>,
    pub tls_client_cert: Option<String>,
    pub tls_client_key: Option<String>,
}

/// What a `CustomCredentialDef` holds.
#[verifier::ext_equal]
pub struct CustomCredentialDefView {
    pub upstream: Seq<char>,
    pub credential_key: Option<Seq<char>>,
    pub auth: Option<Seq<char>>,
    pub inject_mode: InjectModeView,
    pub inject_header: Seq<char>,
    pub credential_format: Option<Seq<char>>,
    pub path_pattern: Option<Seq<char>>,
    pub path_replacement: Option<Seq<char>>,
    pub query_param_name: Option<Seq<char>>,
    pub proxy: Option<Seq<char>>,
    pub env_var: Option<Seq<char>>,
    pub endpoint_rules: Seq<EndpointRuleView>,
    pub endpoint_policy: Option<ProxyEndpointPolicyConfigView>,
    pub tls_ca: Option<Seq<char>>,
    pub tls_client_cert: Option<Seq<char>>,
    pub tls_client_key: Option<Seq<char>>,
}

impl DeepView for CustomCredentialDef {
    type V = CustomCredentialDefView;

    open spec fn deep_view(&self) -> CustomCredentialDefView {
        CustomCredentialDefView {
            upstream: self.upstream.deep_view(),
            credential_key: self.credential_key.deep_view(),
            auth: self.auth.deep_view(),
            inject_mode: self.inject_mode.deep_view(),
            inject_header: self.inject_header.deep_view(),
            credential_format: self.credential_format.deep_view(),
            path_pattern: self.path_pattern.deep_view(),
            path_replacement: self.path_replacement.deep_view(),
            query_param_name: self.query_param_name.deep_view(),
            proxy: self.proxy.deep_view(),
            env_var: self.env_var.deep_view(),
            endpoint_rules: self.endpoint_rules.deep_view(),
            endpoint_policy: self.endpoint_policy.deep_view(),
            tls_ca: self.tls_ca.deep_view(),
            tls_client_cert: self.tls_client_cert.deep_view(),
            tls_client_key: self.tls_client_key.deep_view(),
        }
    }
}

impl DeepClone for CustomCredentialDef {
    fn deep_clone(&self) -> (copy: Self) {
        CustomCredentialDef {
            upstream: self.upstream.deep_clone(),
            credential_key: self.credential_key.deep_clone(),
            auth: self.auth.deep_clone(),
            inject_mode: self.inject_mode.deep_clone(),
            inject_header: self.inject_header.deep_clone(),
            credential_format: self.credential_format.deep_clone(),
            path_pattern: self.path_pattern.deep_clone(),
            path_replacement: self.path_replacement.deep_clone(),
            query_param_name: self.query_param_name.deep_clone(),
            proxy: self.proxy.deep_clone(),
            env_var: self.env_var.deep_clone(),
            endpoint_rules: self.endpoint_rules.deep_clone(),
            endpoint_policy: self.endpoint_policy.deep_clone(),
            tls_ca: self.tls_ca.deep_clone(),
            tls_client_cert: self.tls_client_cert.deep_clone(),
            tls_client_key: self.tls_client_key.deep_clone(),
        }
    }
}

impl DeepEq for CustomCredentialDef {
    fn deep_eq(&self, other: &Self) -> (same: bool) {
        self.upstream.deep_eq(&other.upstream)
            && self.credential_key.deep_eq(&other.credential_key)
            && self.auth.deep_eq(&other.auth)
            && self.inject_mode.deep_eq(&other.inject_mode)
            && self.inject_header.deep_eq(&other.inject_header)
            && self.credential_format.deep_eq(&other.credential_format)
            && self.path_pattern.deep_eq(&other.path_pattern)
            && self.path_replacement.deep_eq(&other.path_replacement)
            && self.query_param_name.deep_eq(&other.query_param_name)
            && self.proxy.deep_eq(&other.proxy)
            && self.env_var.deep_eq(&other.env_var)
            && self.endpoint_rules.deep_eq(&other.endpoint_rules)
            && self.endpoint_policy.deep_eq(&other.endpoint_policy)
            && self.tls_ca.deep_eq(&other.tls_ca)
            && self.tls_client_cert.deep_eq(&other.tls_client_cert)
            && self.tls_client_key.deep_eq(&other.tls_client_key)
    }
}

/// How long the certificate authority of the proxy lives on.
#[derive(Debug, Clone, Copy, PartialEq, Eq, Structural)]
pub enum TlsCaLifecycle {
    Session,
    Trusted,
}

/// How a profile wants TLS to be intercepted.
#[derive(Debug, PartialEq, Eq)]
pub struct TlsInterceptConfig {
    pub ca_lifecycle: TlsCaLifecycle,
    pub ca_validity: Option<String>,
    pub leaf_validity: Option<String>,
}

} // verus!
