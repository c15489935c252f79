//! Protocol constants: the version literal, method names, and error codes.

use vstd::prelude::*;

verus! {

/// JSON-RPC protocol version.
pub const JSON_RPC_VERSION: &'static str = "2.0";

/// Method name: session initialization.
pub const METHOD_INITIALIZE: &'static str = "initialize";

/// Method name: list the tools.
pub const METHOD_TOOLS_LIST: &'static str = "tools/list";

/// Method name: call a tool.
pub const METHOD_TOOLS_CALL: &'static str = "tools/call";

/// Parse error.
pub const PARSE_ERROR: i32 = -32700;

/// Invalid request.
pub const INVALID_REQUEST: i32 = -32600;

/// Method not found.
pub const METHOD_NOT_FOUND: i32 = -32601;

/// Invalid params.
pub const INVALID_PARAMS: i32 = -32602;

/// Internal error.
pub const INTERNAL_ERROR: i32 = -32603;

/// Tool execution error.
pub const TOOL_ERROR: i32 = -32000;

/// Validation error.
pub const VALIDATION_ERROR: i32 = -32001;

/// Resource limit error.
pub const RESOURCE_LIMIT: i32 = -32002;

} // verus!
