//! The resolved process configuration. The embedding program fills it at
//! startup from the command line and the environment; the core consumes it
//! as plain values and never reads the environment itself.

use vstd::prelude::*;

verus! {

/// Where the server finds its configuration, cache and asset directories,
/// where it binds, and its secrets.
#[derive(Debug, Clone)]
pub struct AppConfig {
    pub config_dir: String,
    pub cache_dir: String,
    pub map_assets_dir: String,
    pub host: String,
    pub port: String,
    pub redis_conn: String,
    pub jwt_secret: String,
    pub session_secret: String,
    pub config_cli: bool,
}

} // verus!
