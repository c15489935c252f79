//! The error type that travels to the client.
//!
//! Codes follow the JSON-RPC taxonomy; the message is free text, and the
//! optional data member rides along as a JSON value.

use vstd::prelude::*;
use crate::json::JsonValue;

verus! {

/// A protocol-level or domain-level failure, ready to be serialized.
#[derive(Debug)]
pub struct McpError {
    /// JSON-RPC error code.
    pub code: i32,
    /// Human-readable error message.
    pub message: String,
    /// Optional additional error data.
    pub data: Option<JsonValue>,
}

impl McpError {
    /// An error with the given code and message and no data.
    pub fn new(code: i32, message: &str) -> (r: McpError)
        ensures
            r.code == code,
            r.message@ == message@,
            r.data is None,
    {
        McpError { code, message: message.to_owned(), data: None }
    }

    /// An error that carries additional data.
    pub fn with_data(code: i32, message: &str, data: JsonValue) -> (r: McpError)
        ensures
            r.code == code,
            r.message@ == message@,
            r.data == Option::Some(data),
    {
        McpError { code, message: message.to_owned(), data: Some(data) }
    }

    /// Parse error (-32700).
    pub fn parse_error(message: &str) -> (r: McpError)
        ensures
            r.code == -32700,
            r.message@ == message@,
            r.data is None,
    {
        Self::new(-32700, message)
    }

    /// Invalid request error (-32600).
    pub fn invalid_request(message: &str) -> (r: McpError)
        ensures
            r.code == -32600,
            r.message@ == message@,
            r.data is None,
    {
        Self::new(-32600, message)
    }

    /// Method not found error (-32601).
    pub fn method_not_found(method: &str) -> (r: McpError)
        ensures
            r.code == -32601,
            r.message@ == "Method not found: "@ + method@,
            r.data is None,
    {
        let mut message: String = "Method not found: ".to_owned();
        message.append(method);
        McpError { code: -32601, message, data: None }
    }

    /// Invalid params error (-32602).
    pub fn invalid_params(message: &str) -> (r: McpError)
        ensures
            r.code == -32602,
            r.message@ == message@,
            r.data is None,
    {
        Self::new(-32602, message)
    }

    /// Internal error (-32603).
    pub fn internal_error(message: &str) -> (r: McpError)
        ensures
            r.code == -32603,
            r.message@ == message@,
            r.data is None,
    {
        Self::new(-32603, message)
    }

    /// Tool execution error (-32000).
    pub fn tool_error(message: &str) -> (r: McpError)
        ensures
            r.code == -32000,
            r.message@ == message@,
            r.data is None,
    {
        Self::new(-32000, message)
    }

    /// Validation error (-32001).
    pub fn validation_error(message: &str) -> (r: McpError)
        ensures
            r.code == -32001,
            r.message@ == message@,
            r.data is None,
    {
        Self::new(-32001, message)
    }

    /// Resource limit error (-32002).
    pub fn resource_limit(message: &str) -> (r: McpError)
        ensures
            r.code == -32002,
            r.message@ == message@,
            r.data is None,
    {
        Self::new(-32002, message)
    }

    /// The error written as display text: the code in brackets, then the
    /// message.
    pub fn display_string(&self) -> (r: String)
        ensures
            r@ == "["@ + crate::dec::code_text(self.code as int) + "] "@ + self.message@,
    {
        let mut out: String = "[".to_owned();
        let code_str: String = crate::dec::i64_string(self.code as i64);
        out.append(code_str.as_str());
        out.append("] ");
        out.append(self.message.as_str());
        out
    }
}

/// Result type alias for operations that can fail with an `McpError`.
pub type McpResult<T> = Result<T, McpError>;

} // verus!
