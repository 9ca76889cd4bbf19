//! Startup configuration, consumed once at bootstrap; no hot-reload.

use crate::errors::MeshError;
use vstd::prelude::*;

verus! {

/// Core configuration: offline mode, the local data directory, and the
/// capability endpoint URIs (for example `exec://docker` or `file://docs`)
/// handed to capability providers at startup.
#[derive(Debug, Clone)]
pub struct Config {
    pub offline_mode: bool,
    pub data_dir: String,
    pub mcp_endpoints: Vec<String>,
}

/// The configuration `Config::default` and `load_config` produce: offline
/// mode on, data under `./data`, and no capability endpoints.
pub open spec fn default_config(c: Config) -> bool {
    &&& c.offline_mode == true
    &&& c.data_dir@ == "./data"@
    &&& c.mcp_endpoints@.len() == 0
}

impl Default for Config {
    /// Offline-first defaults: no endpoints, local data directory.
    fn default() -> (c: Config)
        ensures
            default_config(c),
    {
        Config {
            offline_mode: true,
            data_dir: "./data".to_owned(),
            mcp_endpoints: Vec::new(),
        }
    }
}

/// Load the configuration for the given path. Reading and parsing the file
/// itself is a bootstrap concern outside the core; the core always starts
/// from the offline-first defaults, so this never fails.
pub fn load_config(path: &str) -> (r: Result<Config, MeshError>)
    ensures
        r is Ok,
        default_config(r->Ok_0),
{
    let _ = path;
    Ok(Config::default())
}

} // verus!
