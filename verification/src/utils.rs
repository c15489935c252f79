pub mod args;
pub mod limits;
pub mod rate_limiter;
pub mod validation;
