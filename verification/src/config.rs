//! Server configuration.
//!
//! The settings are plain values read once at startup; a caller that wants
//! other values (for instance from the environment) fills the fields itself.

use vstd::prelude::*;

verus! {

/// Default server name.
pub const DEFAULT_SERVER_NAME: &'static str = "rust-math-mcp";

/// Default server version.
pub const DEFAULT_SERVER_VERSION: &'static str = "0.1.0";

/// Default bound on array-valued tool inputs.
pub const DEFAULT_MAX_ARRAY_SIZE: usize = 10_000;

/// Default bound on decimal places for rounding.
pub const DEFAULT_MAX_DECIMAL_PLACES: i32 = 15;

/// Default number of admitted requests per second.
pub const DEFAULT_MAX_REQUESTS_PER_SECOND: usize = 1000;

/// Settings the server reads once at startup.
#[derive(Debug, Clone)]
pub struct Config {
    /// Server name.
    pub server_name: String,
    /// Server version.
    pub server_version: String,
    /// Maximum array size for tool inputs.
    pub max_array_size: usize,
    /// Maximum number of decimal places for rounding.
    pub max_decimal_places: i32,
    /// Enable rate limiting.
    pub enable_rate_limit: bool,
    /// Maximum requests per second (when rate limiting enabled).
    pub max_requests_per_second: usize,
}

impl Config {
    /// Whether the configuration is usable by the handlers.
    pub open spec fn wf(self) -> bool {
        self.max_decimal_places >= 0
    }

    /// A configuration holding the default values.
    pub fn new() -> (r: Config)
        ensures
            r.server_name@ == DEFAULT_SERVER_NAME@,
            r.server_version@ == DEFAULT_SERVER_VERSION@,
            r.max_array_size == DEFAULT_MAX_ARRAY_SIZE,
            r.max_decimal_places == DEFAULT_MAX_DECIMAL_PLACES,
            r.enable_rate_limit == true,
            r.max_requests_per_second == DEFAULT_MAX_REQUESTS_PER_SECOND,
            r.wf(),
    {
        Config {
            server_name: DEFAULT_SERVER_NAME.to_owned(),
            server_version: DEFAULT_SERVER_VERSION.to_owned(),
            max_array_size: DEFAULT_MAX_ARRAY_SIZE,
            max_decimal_places: DEFAULT_MAX_DECIMAL_PLACES,
            enable_rate_limit: true,
            max_requests_per_second: DEFAULT_MAX_REQUESTS_PER_SECOND,
        }
    }

    /// The server name.
    pub fn server_name(&self) -> (r: &str)
        ensures
            r@ == self.server_name@,
    {
        self.server_name.as_str()
    }

    /// The server version.
    pub fn server_version(&self) -> (r: &str)
        ensures
            r@ == self.server_version@,
    {
        self.server_version.as_str()
    }
}

impl Default for Config {
    /// The default configuration; the same values as `new`.
    fn default() -> (r: Config)
        ensures
            r.server_name@ == DEFAULT_SERVER_NAME@,
            r.server_version@ == DEFAULT_SERVER_VERSION@,
            r.max_array_size == DEFAULT_MAX_ARRAY_SIZE,
            r.max_decimal_places == DEFAULT_MAX_DECIMAL_PLACES,
            r.enable_rate_limit == true,
            r.max_requests_per_second == DEFAULT_MAX_REQUESTS_PER_SECOND,
            r.wf(),
    {
        Config::new()
    }
}

} // verus!
