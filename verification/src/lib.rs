//! A line-oriented, stateless request/response calculator service.
//!
//! The library is the verified core: the message reader that detects the
//! wire encoding, the request and response data contracts, the method
//! dispatcher, the immutable tool registry with its batch meta-operation,
//! and the response writer that echoes the request's framing. Arithmetic is
//! exact decimal arithmetic; a host program supplies the byte stream.

pub mod config;
pub mod dec;
pub mod error;
pub mod json;
pub mod parser;
pub mod protocol;
pub mod service;
pub mod tools;
pub mod utils;

pub use error::McpError;
pub use error::McpResult;
pub use tools::registry::DefaultToolRegistry;
pub use tools::traits::ToolRegistry;
