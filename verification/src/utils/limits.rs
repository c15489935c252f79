//! Resource limits and constraints manager.

use vstd::prelude::*;
use crate::config::Config;
use crate::error::{McpError, McpResult};
use crate::utils::validation::validate_array_size;

verus! {

/// Centralized access to the configured resource limits.
pub struct Limits {
    pub config: Config,
}

impl Limits {
    /// The configured array-size bound, as a spec value.
    pub open spec fn spec_max_array_size(self) -> usize {
        self.config.max_array_size
    }

    /// The configured decimal-places bound, as a spec value.
    pub open spec fn spec_max_decimal_places(self) -> i32 {
        self.config.max_decimal_places
    }

    /// A limits manager over the given configuration.
    pub fn new(config: Config) -> (r: Limits)
        ensures
            r.spec_max_array_size() == config.max_array_size,
            r.spec_max_decimal_places() == config.max_decimal_places,
    {
        Limits { config }
    }

    /// Validates an array size against the configured bound.
    pub fn check_array_size(&self, size: usize) -> (r: McpResult<()>)
        ensures
            r is Ok <==> size <= self.spec_max_array_size(),
            r matches Err(e) ==> e.code == -32002,
    {
        validate_array_size(size, &self.config)
    }

    /// Rejects an operation whose elapsed time passed its allowance; both
    /// times are in microseconds.
    pub fn check_timeout(&self, elapsed_micros: u64, max_micros: u64) -> (r: McpResult<()>)
        ensures
            r is Ok <==> elapsed_micros <= max_micros,
            r matches Err(e) ==> e.code == -32002,
    {
        if elapsed_micros > max_micros {
            return Err(McpError::resource_limit("Operation exceeded its timeout"));
        }
        Ok(())
    }

    /// The maximum array size.
    pub fn max_array_size(&self) -> (r: usize)
        ensures
            r == self.spec_max_array_size(),
    {
        self.config.max_array_size
    }

    /// The maximum number of decimal places.
    pub fn max_decimal_places(&self) -> (r: i32)
        ensures
            r == self.spec_max_decimal_places(),
    {
        self.config.max_decimal_places
    }
}

} // verus!
