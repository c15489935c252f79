//! The service facade a host embeds.

use vstd::prelude::*;
use crate::config::Config;
use crate::protocol::ServerInfo;

verus! {

/// The math service: stateless; all state lives in the registry and the
/// configuration it is handed.
pub struct MathService;

impl MathService {
    /// A new service value.
    pub fn new() -> (r: MathService)
        ensures
            r == (MathService {  }),
    {
        MathService {  }
    }

    /// The server identity for the given configuration.
    pub fn get_info(&self, config: &Config) -> (r: ServerInfo)
        ensures
            r.name@ == config.server_name@,
            r.version@ == config.server_version@,
    {
        ServerInfo { name: config.server_name.clone(), version: config.server_version.clone() }
    }
}

} // verus!
