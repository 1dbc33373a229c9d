//! Decisions of the credential proxy that stands between a sandboxed command and the network.
use vstd::prelude::*;

pub mod allow_domain;
pub mod command_policy;
pub mod command_source;
pub mod config_build;
pub mod credential_env;
pub mod endpoint_policy;
pub mod error;
pub mod grant_laws;
pub mod grants;
pub mod host;
pub mod launch_laws;
pub mod launch_options;
pub mod names;
pub mod numerals;
pub mod ports;
pub mod profile;
pub mod proxy_config;
pub mod route_laws;
pub mod runtime;
pub mod sandbox;
pub mod scoped_env;
pub mod session_files;
pub mod session_laws;
pub mod source_env;
pub mod text;
pub mod tls;
pub mod values;

verus! {

} // verus!
