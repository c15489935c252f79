//! The request/response data contracts, the method dispatcher, and the
//! response writer.
//!
//! A response is serialized with its members in a fixed order — `jsonrpc`,
//! `id`, then `result` or `error`, each of the latter two written only when
//! present — and framed with the same encoding its request used.

pub mod constants;

use vstd::prelude::*;
use vstd::utf8::encode_utf8;
use crate::config::Config;
use crate::dec::{code_text, digits_of};
use crate::error::{McpError, McpResult};
use crate::json::{jview_members, ser_json, JsonV, JsonValue};

verus! {

/// An incoming JSON-RPC request.
#[derive(Debug)]
pub struct JsonRpcRequest {
    pub jsonrpc: String,
    pub id: Option<JsonValue>,
    pub method: String,
    pub params: Option<JsonValue>,
}

/// An outgoing JSON-RPC response. At most one of `result` and `error` is
/// set by the handlers; `id` mirrors the request.
#[derive(Debug)]
pub struct JsonRpcResponse {
    pub jsonrpc: String,
    /// Request id echoed back; absent only for failures with no known id.
    pub id: Option<JsonValue>,
    pub result: Option<JsonValue>,
    pub error: Option<JsonRpcError>,
}

/// The error member of a response.
#[derive(Debug)]
pub struct JsonRpcError {
    pub code: i32,
    pub message: String,
    pub data: Option<JsonValue>,
}

/// Server identity.
#[derive(Debug)]
pub struct ServerInfo {
    pub name: String,
    pub version: String,
}

/// Parameters of the initialize method.
#[derive(Debug)]
pub struct InitializeParams {
    pub protocol_version: String,
    pub capabilities: JsonValue,
    pub client_info: JsonValue,
}

/// Result of the initialize method.
#[derive(Debug)]
pub struct InitializeResult {
    pub protocol_version: String,
    pub capabilities: JsonValue,
    pub server_info: ServerInfo,
}

/// Parameters of a tool call.
#[derive(Debug)]
pub struct ToolCallParams {
    pub name: String,
    pub arguments: JsonValue,
}

impl JsonRpcRequest {
    /// Accepts exactly the supported protocol version literal.
    pub fn validate(&self) -> (r: McpResult<()>)
        ensures
            r is Ok <==> self.jsonrpc@ == constants::JSON_RPC_VERSION@,
            r matches Err(e) ==> e.code == constants::INVALID_REQUEST,
    {
        if self.jsonrpc.eq(&constants::JSON_RPC_VERSION.to_owned()) {
            Ok(())
        } else {
            let mut message: String = "Invalid JSON-RPC version: expected '2.0', got '".to_owned();
            message.append(self.jsonrpc.as_str());
            message.append("'");
            Err(McpError { code: constants::INVALID_REQUEST, message, data: None })
        }
    }
}

impl JsonRpcError {
    /// The response error member carrying a handler failure.
    pub fn from_error(e: McpError) -> (r: JsonRpcError)
        ensures
            r.code == e.code,
            r.message == e.message,
            r.data == e.data,
    {
        JsonRpcError { code: e.code, message: e.message, data: e.data }
    }
}

/// The JSON document an error member is written as.
pub open spec fn error_jv(e: JsonRpcError) -> JsonV {
    JsonV::Object(
        seq![
            ("code"@, JsonV::Num(code_text(e.code as int))),
            ("message"@, JsonV::Text(e.message@)),
        ] + (match e.data {
            Option::Some(d) => seq![("data"@, d.jview())],
            Option::None => Seq::empty(),
        }),
    )
}

/// The JSON document a response is written as: `jsonrpc`, the echoed `id`
/// (`null` when absent), then `result` and `error` only when present.
pub open spec fn response_jv(r: JsonRpcResponse) -> JsonV {
    JsonV::Object(
        seq![
            ("jsonrpc"@, JsonV::Text(r.jsonrpc@)),
            ("id"@, match r.id {
                Option::Some(v) => v.jview(),
                Option::None => JsonV::Null,
            }),
        ] + (match r.result {
            Option::Some(v) => seq![("result"@, v.jview())],
            Option::None => Seq::empty(),
        }) + (match r.error {
            Option::Some(e) => seq![("error"@, error_jv(e))],
            Option::None => Seq::empty(),
        }),
    )
}

impl JsonRpcResponse {
    /// The response as a JSON value.
    pub fn to_json(&self) -> (r: JsonValue)
        ensures
            r.jview() == response_jv(*self),
    {
        let mut members: Vec<(String, JsonValue)> = Vec::new();
        members.push(("jsonrpc".to_owned(), JsonValue::Text(self.jsonrpc.clone())));
        let id_value: JsonValue = match &self.id {
            Some(v) => v.deep_clone(),
            None => JsonValue::Null,
        };
        members.push(("id".to_owned(), id_value));
        match &self.result {
            Some(v) => {
                members.push(("result".to_owned(), v.deep_clone()));
            },
            None => {},
        }
        match &self.error {
            Some(e) => {
                let mut emembers: Vec<(String, JsonValue)> = Vec::new();
                let code_string = crate::dec::i64_string(e.code as i64);
                emembers.push(("code".to_owned(), JsonValue::Num(code_string)));
                emembers.push(("message".to_owned(), JsonValue::Text(e.message.clone())));
                match &e.data {
                    Some(d) => {
                        emembers.push(("data".to_owned(), d.deep_clone()));
                    },
                    None => {},
                }
                proof {
                    crate::json::lemma_jview_members(emembers@);
                    let got = jview_members(emembers@);
                    let want = (match error_jv(*e) {
                        JsonV::Object(ms) => ms,
                        _ => Seq::empty(),
                    });
                    assert(got.len() == want.len());
                    assert(got[0] == want[0]);
                    assert(got[1] == want[1]);
                    if got.len() == 3 {
                        assert(got[2] == want[2]);
                    }
                    assert(got =~= want);
                }
                members.push(("error".to_owned(), JsonValue::Object(emembers)));
            },
            None => {},
        }
        proof {
            crate::json::lemma_jview_members(members@);
            let got = jview_members(members@);
            let want = (match response_jv(*self) {
                JsonV::Object(ms) => ms,
                _ => Seq::empty(),
            });
            assert(got.len() == want.len());
            assert(forall|i: int| 0 <= i < got.len() ==> got[i] == want[i]);
            assert(got =~= want);
        }
        JsonValue::Object(members)
    }
}

/// The text a response is written as.
pub open spec fn response_text(r: JsonRpcResponse) -> Seq<char> {
    ser_json(response_jv(r))
}

/// The bytes a response is framed as: a `Content-Length` header, a blank
/// line, and the body for length-prefixed framing; the bare body and one
/// newline otherwise.
pub open spec fn rendered_bytes(r: JsonRpcResponse, uses_content_length: bool) -> Seq<u8> {
    let body = encode_utf8(response_text(r));
    if uses_content_length {
        encode_utf8("Content-Length: "@ + digits_of(body.len()) + "\r\n\r\n"@) + body
    } else {
        body + seq![10u8]
    }
}

/// Writes one complete message, framed with the encoding the request used.
pub fn render_response(response: &JsonRpcResponse, uses_content_length: bool) -> (r: Vec<u8>)
    ensures
        r@ == rendered_bytes(*response, uses_content_length),
{
    let value = response.to_json();
    let text = value.to_text();
    let mut body: Vec<u8> = text.as_str().as_bytes_vec();
    if uses_content_length {
        let mut header: String = "Content-Length: ".to_owned();
        let len_str = crate::dec::usize_string(body.len());
        header.append(len_str.as_str());
        header.append("\r\n\r\n");
        let mut out: Vec<u8> = header.as_str().as_bytes_vec();
        out.append(&mut body);
        proof {
            assert(out@ =~= rendered_bytes(*response, uses_content_length));
        }
        out
    } else {
        body.push(10u8);
        proof {
            assert(body@ =~= rendered_bytes(*response, uses_content_length));
        }
        body
    }
}

} // verus!

verus! {

/// The result document of the initialize method: the echoed protocol
/// version, the tools capability, and the server identity.
pub open spec fn init_result_jv(pv: Seq<char>, name: Seq<char>, version: Seq<char>) -> JsonV {
    JsonV::Object(
        seq![
            ("protocolVersion"@, JsonV::Text(pv)),
            (
                "capabilities"@,
                JsonV::Object(seq![("tools"@, JsonV::Object(Seq::empty()))]),
            ),
            (
                "serverInfo"@,
                JsonV::Object(
                    seq![("name"@, JsonV::Text(name)), ("version"@, JsonV::Text(version))],
                ),
            ),
        ],
    )
}

/// The result document embedding a successful tool call: the serialized
/// tool result as one text content item.
pub open spec fn tool_success_jv(out: JsonV) -> JsonV {
    JsonV::Object(
        seq![
            (
                "content"@,
                JsonV::Array(
                    seq![
                        JsonV::Object(
                            seq![
                                ("type"@, JsonV::Text("text"@)),
                                ("text"@, JsonV::Text(ser_json(out))),
                            ],
                        ),
                    ],
                ),
            ),
        ],
    )
}

/// The result document embedding a domain failure: one text content item
/// and the `isError` mark; the top-level `error` member stays empty.
pub open spec fn tool_failure_jv(text: Seq<char>) -> JsonV {
    JsonV::Object(
        seq![
            (
                "content"@,
                JsonV::Array(
                    seq![
                        JsonV::Object(
                            seq![("type"@, JsonV::Text("text"@)), ("text"@, JsonV::Text(text))],
                        ),
                    ],
                ),
            ),
            ("isError"@, JsonV::Bool(true)),
        ],
    )
}

/// Builds the `{"content": [{"type": "text", "text": ...}]}` document,
/// with the error mark when asked.
fn content_result(text: String, is_error: bool) -> (r: JsonValue)
    ensures
        is_error ==> r.jview() == tool_failure_jv(text@),
        !is_error ==> r.jview() == JsonV::Object(
            seq![
                (
                    "content"@,
                    JsonV::Array(
                        seq![
                            JsonV::Object(
                                seq![
                                    ("type"@, JsonV::Text("text"@)),
                                    ("text"@, JsonV::Text(text@)),
                                ],
                            ),
                        ],
                    ),
                ),
            ],
        ),
{
    let ghost textv = text@;
    let mut item: Vec<(String, JsonValue)> = Vec::new();
    item.push(("type".to_owned(), JsonValue::Text("text".to_owned())));
    item.push(("text".to_owned(), JsonValue::Text(text)));
    proof {
        crate::json::lemma_jview_members(item@);
        assert(jview_members(item@) =~= seq![
            ("type"@, JsonV::Text("text"@)),
            ("text"@, JsonV::Text(textv)),
        ]);
    }
    let mut items: Vec<JsonValue> = Vec::new();
    items.push(JsonValue::Object(item));
    proof {
        crate::json::lemma_jview_elems(items@);
        assert(crate::json::jview_elems(items@) =~= seq![
            JsonV::Object(
                seq![("type"@, JsonV::Text("text"@)), ("text"@, JsonV::Text(textv))],
            ),
        ]);
    }
    let mut members: Vec<(String, JsonValue)> = Vec::new();
    members.push(("content".to_owned(), JsonValue::Array(items)));
    if is_error {
        members.push(("isError".to_owned(), JsonValue::Bool(true)));
    }
    proof {
        crate::json::lemma_jview_members(members@);
        if is_error {
            assert(jview_members(members@) =~= (match tool_failure_jv(textv) {
                JsonV::Object(ms) => ms,
                _ => Seq::empty(),
            }));
        } else {
            assert(jview_members(members@) =~= seq![
                (
                    "content"@,
                    JsonV::Array(
                        seq![
                            JsonV::Object(
                                seq![
                                    ("type"@, JsonV::Text("text"@)),
                                    ("text"@, JsonV::Text(textv)),
                                ],
                            ),
                        ],
                    ),
                ),
            ]);
        }
    }
    JsonValue::Object(members)
}

/// The response carrying a tool call's outcome under the echoed id:
/// success serializes the tool result into one text content item; a
/// domain failure is embedded in `result` with the `isError` mark, and
/// the top-level `error` member is never set.
pub fn tool_call_response(id: Option<JsonValue>, outcome: McpResult<JsonValue>) -> (r:
    JsonRpcResponse)
    ensures
        r.jsonrpc@ == constants::JSON_RPC_VERSION@,
        r.id == id,
        r.error is None,
        match outcome {
            Ok(v) => r.result matches Option::Some(w) && w.jview() == tool_success_jv(v.jview()),
            Err(e) => r.result matches Option::Some(w) && w.jview() == tool_failure_jv(
                "Error: "@ + e.message@,
            ),
        },
{
    match outcome {
        Ok(v) => {
            let text = v.to_text();
            let result = content_result(text, false);
            proof {
                assert(result.jview() == tool_success_jv(v.jview()));
            }
            JsonRpcResponse {
                jsonrpc: constants::JSON_RPC_VERSION.to_owned(),
                id,
                result: Some(result),
                error: None,
            }
        },
        Err(e) => {
            let mut text: String = "Error: ".to_owned();
            text.append(e.message.as_str());
            let result = content_result(text, true);
            JsonRpcResponse {
                jsonrpc: constants::JSON_RPC_VERSION.to_owned(),
                id,
                result: Some(result),
                error: None,
            }
        },
    }
}

/// The response for a protocol-level defect: the failure stands in the
/// top-level `error` member.
pub fn error_response(id: Option<JsonValue>, e: McpError) -> (r: JsonRpcResponse)
    ensures
        r.jsonrpc@ == constants::JSON_RPC_VERSION@,
        r.id == id,
        r.result is None,
        r.error matches Option::Some(je) && je.code == e.code && je.message == e.message,
{
    JsonRpcResponse {
        jsonrpc: constants::JSON_RPC_VERSION.to_owned(),
        id,
        result: None,
        error: Some(JsonRpcError::from_error(e)),
    }
}

/// Handles the initialize method: echoes the protocol version and names
/// the server.
pub fn handle_initialize(params: InitializeParams, config: &Config) -> (r: JsonRpcResponse)
    ensures
        r.jsonrpc@ == constants::JSON_RPC_VERSION@,
        r.id is None,
        r.error is None,
        r.result matches Option::Some(v) && v.jview() == init_result_jv(
            params.protocol_version@,
            config.server_name@,
            config.server_version@,
        ),
{
    let ghost pv = params.protocol_version@;
    let mut caps_inner: Vec<(String, JsonValue)> = Vec::new();
    caps_inner.push(("tools".to_owned(), JsonValue::Object(Vec::new())));
    let mut info: Vec<(String, JsonValue)> = Vec::new();
    info.push(("name".to_owned(), JsonValue::Text(config.server_name.clone())));
    info.push(("version".to_owned(), JsonValue::Text(config.server_version.clone())));
    let mut members: Vec<(String, JsonValue)> = Vec::new();
    members.push(("protocolVersion".to_owned(), JsonValue::Text(params.protocol_version)));
    members.push(("capabilities".to_owned(), JsonValue::Object(caps_inner)));
    members.push(("serverInfo".to_owned(), JsonValue::Object(info)));
    proof {
        crate::json::lemma_jview_members(caps_inner@);
        crate::json::lemma_jview_members(info@);
        crate::json::lemma_jview_members(members@);
        assert(jview_members(caps_inner@) =~= seq![("tools"@, JsonV::Object(Seq::empty()))]) by {
            assert(jview_members(Seq::<(String, JsonValue)>::empty()) =~= Seq::empty());
        }
        assert(jview_members(info@) =~= seq![
            ("name"@, JsonV::Text(config.server_name@)),
            ("version"@, JsonV::Text(config.server_version@)),
        ]);
        assert(jview_members(members@) =~= (match init_result_jv(
            pv,
            config.server_name@,
            config.server_version@,
        ) {
            JsonV::Object(ms) => ms,
            _ => Seq::empty(),
        }));
    }
    JsonRpcResponse {
        jsonrpc: constants::JSON_RPC_VERSION.to_owned(),
        id: None,
        result: Some(JsonValue::Object(members)),
        error: None,
    }
}

/// The initialize params, when the member is a well-shaped object.
pub open spec fn init_params_ok(params: Option<JsonValue>) -> bool {
    match params {
        Option::Some(p) => {
            &&& crate::json::jfield(p.jview(), "protocolVersion"@) matches Option::Some(
                JsonV::Text(pv),
            )
            &&& crate::json::jfield(p.jview(), "capabilities"@) is Some
            &&& crate::json::jfield(p.jview(), "clientInfo"@) is Some
        },
        Option::None => false,
    }
}

/// The protocol version the caller sent.
pub open spec fn init_pv_of(params: Option<JsonValue>) -> Seq<char> {
    match params {
        Option::Some(p) => match crate::json::jfield(p.jview(), "protocolVersion"@) {
            Option::Some(JsonV::Text(pv)) => pv,
            _ => Seq::empty(),
        },
        Option::None => Seq::empty(),
    }
}

/// The tool-call params, when the member carries a tool name and
/// arguments.
pub open spec fn call_params_ok(params: Option<JsonValue>) -> bool {
    match params {
        Option::Some(p) => {
            &&& crate::json::jfield(p.jview(), "name"@) matches Option::Some(JsonV::Text(n))
            &&& crate::json::jfield(p.jview(), "arguments"@) is Some
        },
        Option::None => false,
    }
}

/// The tool name a call asks for.
pub open spec fn call_name_of(params: Option<JsonValue>) -> Seq<char> {
    match params {
        Option::Some(p) => match crate::json::jfield(p.jview(), "name"@) {
            Option::Some(JsonV::Text(n)) => n,
            _ => Seq::empty(),
        },
        Option::None => Seq::empty(),
    }
}

/// The arguments a call hands to the tool.
pub open spec fn call_args_of(params: Option<JsonValue>) -> JsonV {
    match params {
        Option::Some(p) => match crate::json::jfield(p.jview(), "arguments"@) {
            Option::Some(a) => a,
            _ => JsonV::Null,
        },
        Option::None => JsonV::Null,
    }
}

/// Routes one method call: initialize, list tools, call a tool, or the
/// method-not-found result. The response always echoes the id; a missing
/// or malformed params member is a protocol defect and stands in the
/// top-level `error`; every domain failure is embedded in `result`.
pub fn handle_method_with_config<T: crate::tools::traits::ToolRegistry>(
    method: &str,
    params: Option<JsonValue>,
    id: Option<JsonValue>,
    registry: &T,
    config: &Config,
) -> (r: JsonRpcResponse)
    ensures
        r.jsonrpc@ == constants::JSON_RPC_VERSION@,
        r.id == id,
        method@ == constants::METHOD_INITIALIZE@ ==> (if init_params_ok(params) {
            r.error is None && (r.result matches Option::Some(v) && v.jview() == init_result_jv(
                init_pv_of(params),
                config.server_name@,
                config.server_version@,
            ))
        } else {
            r.result is None && (r.error matches Option::Some(e) && e.code
                == constants::INVALID_PARAMS)
        }),
        method@ == constants::METHOD_TOOLS_LIST@ ==> (r.error is None && (r.result matches
            Option::Some(v) && exists|t: JsonV|
                registry.listing_spec(t) && v.jview() == JsonV::Object(seq![("tools"@, t)]))),
        method@ == constants::METHOD_TOOLS_CALL@ ==> (if call_params_ok(params) {
            r.error is None && (r.result matches Option::Some(w) && exists|
                out: McpResult<JsonValue>,
            |
                registry.outcome_spec(call_name_of(params), call_args_of(params), out)
                    && w.jview() == (match out {
                    Ok(v) => tool_success_jv(v.jview()),
                    Err(e) => tool_failure_jv("Error: "@ + e.message@),
                }))
        } else {
            r.result is None && (r.error matches Option::Some(e) && e.code
                == constants::INVALID_PARAMS)
        }),
        method@ != constants::METHOD_INITIALIZE@ && method@ != constants::METHOD_TOOLS_LIST@
            && method@ != constants::METHOD_TOOLS_CALL@ ==> (r.error is None && (r.result matches
            Option::Some(w) && w.jview() == tool_failure_jv("Method not found: "@ + method@))),
{
    proof {
        reveal_strlit("initialize");
        reveal_strlit("tools/list");
        reveal_strlit("tools/call");
        assert("initialize"@ != "tools/list"@) by {
            assert("initialize"@[0] != "tools/list"@[0]);
        }
        assert("initialize"@ != "tools/call"@) by {
            assert("initialize"@[0] != "tools/call"@[0]);
        }
        assert("tools/list"@ != "tools/call"@) by {
            assert("tools/list"@[6] != "tools/call"@[6]);
        }
    }
    if crate::json::str_eq(method, constants::METHOD_INITIALIZE) {
        let p = match params {
            Some(p) => p,
            None => {
                return error_response(id, McpError::invalid_params("Missing params"));
            },
        };
        let pv: String = match p.get("protocolVersion") {
            Some(JsonValue::Text(s)) => s.clone(),
            _ => {
                return error_response(
                    id,
                    McpError::invalid_params("Missing or invalid protocolVersion"),
                );
            },
        };
        let caps: JsonValue = match p.get("capabilities") {
            Some(v) => v.deep_clone(),
            None => {
                return error_response(id, McpError::invalid_params("Missing capabilities"));
            },
        };
        let client_info: JsonValue = match p.get("clientInfo") {
            Some(v) => v.deep_clone(),
            None => {
                return error_response(id, McpError::invalid_params("Missing clientInfo"));
            },
        };
        let init = InitializeParams {
            protocol_version: pv,
            capabilities: caps,
            client_info,
        };
        let mut response = handle_initialize(init, config);
        response.id = id;
        response
    } else if crate::json::str_eq(method, constants::METHOD_TOOLS_LIST) {
        let tools = registry.get_all_tools();
        let mut members: Vec<(String, JsonValue)> = Vec::new();
        members.push(("tools".to_owned(), tools));
        proof {
            crate::json::lemma_jview_members(members@);
            assert(jview_members(members@) =~= seq![("tools"@, members@[0].1.jview())]);
        }
        JsonRpcResponse {
            jsonrpc: constants::JSON_RPC_VERSION.to_owned(),
            id,
            result: Some(JsonValue::Object(members)),
            error: None,
        }
    } else if crate::json::str_eq(method, constants::METHOD_TOOLS_CALL) {
        let p = match params {
            Some(p) => p,
            None => {
                return error_response(id, McpError::invalid_params("Missing params"));
            },
        };
        let name: String = match p.get("name") {
            Some(JsonValue::Text(s)) => s.clone(),
            _ => {
                return error_response(
                    id,
                    McpError::invalid_params("Missing or invalid tool name"),
                );
            },
        };
        let arguments: JsonValue = match p.get("arguments") {
            Some(v) => v.deep_clone(),
            None => {
                return error_response(id, McpError::invalid_params("Missing arguments"));
            },
        };
        let outcome = registry.execute_tool(name.as_str(), &arguments);
        proof {
            assert(name@ == call_name_of(params));
            assert(arguments.jview() == call_args_of(params));
        }
        tool_call_response(id, outcome)
    } else {
        let mut text: String = "Method not found: ".to_owned();
        text.append(method);
        let result = content_result(text, true);
        JsonRpcResponse {
            jsonrpc: constants::JSON_RPC_VERSION.to_owned(),
            id,
            result: Some(result),
            error: None,
        }
    }
}

/// Routes one method call with a fresh default configuration.
pub fn handle_method<T: crate::tools::traits::ToolRegistry>(
    method: &str,
    params: Option<JsonValue>,
    id: Option<JsonValue>,
    registry: &T,
) -> (r: JsonRpcResponse)
    ensures
        r.jsonrpc@ == constants::JSON_RPC_VERSION@,
        r.id == id,
{
    let config = Config::new();
    handle_method_with_config(method, params, id, registry, &config)
}

} // verus!
