//! Context records handed through the request-routing layer.

use vstd::prelude::*;

verus! {

/// Routing context of one request: which exported function the matched
/// handler invokes.
pub struct RequestRouteContext {
    pub entrypoint: String,
}

/// Process-global context shared by every request.
pub struct RequestGlobalContext {
    pub cache_config_path: String,
    pub module_cache_dir: String,
    pub base_log_dir: String,
    pub default_host: String,
    pub use_tls: bool,
    pub global_env_vars: Vec<(String, String)>,
}

} // verus!
