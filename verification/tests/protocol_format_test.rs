//! Response serialization formats, as the client expects them.

use math_rpc::json::JsonValue;
use math_rpc::parser::{parse_message, ParseStep};
use math_rpc::protocol::{JsonRpcResponse, render_response};

fn obj(members: Vec<(&str, JsonValue)>) -> JsonValue {
    JsonValue::Object(members.into_iter().map(|(k, v)| (k.to_string(), v)).collect())
}

fn text(s: &str) -> JsonValue {
    JsonValue::Text(s.to_string())
}

fn serialize(response: &JsonRpcResponse) -> serde_json::Value {
    let json_str = response.to_json().to_text();
    serde_json::from_str(&json_str).unwrap()
}

#[test]
fn test_response_id_serialization() {
    // A response with id 0 serializes the number, not null.
    let response = JsonRpcResponse {
        jsonrpc: "2.0".to_string(),
        id: Some(JsonValue::Num("0".to_string())),
        result: Some(obj(vec![("test", text("value"))])),
        error: None,
    };

    let parsed = serialize(&response);

    assert!(parsed["id"].is_number());
    assert_eq!(parsed["id"].as_i64(), Some(0));
    assert!(!parsed["id"].is_null());
}

#[test]
fn test_response_id_string_serialization() {
    let response = JsonRpcResponse {
        jsonrpc: "2.0".to_string(),
        id: Some(text("test-id")),
        result: Some(obj(vec![("test", text("value"))])),
        error: None,
    };

    let parsed = serialize(&response);

    assert!(parsed["id"].is_string());
    assert_eq!(parsed["id"].as_str(), Some("test-id"));
    assert!(!parsed["id"].is_null());
}

#[test]
fn test_response_with_result_content() {
    let response = JsonRpcResponse {
        jsonrpc: "2.0".to_string(),
        id: Some(JsonValue::Num("1".to_string())),
        result: Some(obj(vec![(
            "content",
            JsonValue::Array(vec![obj(vec![
                ("type", text("text")),
                ("text", text("{\"result\":42}")),
            ])]),
        )])),
        error: None,
    };

    let parsed = serialize(&response);

    assert_eq!(parsed["id"].as_i64(), Some(1));
    assert!(parsed["result"].is_object());
    assert!(parsed["result"]["content"].is_array());
    assert_eq!(parsed["result"]["content"][0]["type"], "text");
}

#[test]
fn test_initialize_request_parsing() {
    let request_json = br#"{"jsonrpc":"2.0","method":"initialize","params":{"protocolVersion":"2025-06-18","capabilities":{},"clientInfo":{"name":"test-client","version":"0.1.0"}},"id":0}"#;

    let buf: Vec<u8> = request_json.to_vec();
    match parse_message(&buf, true) {
        ParseStep::Parsed { result, .. } => {
            assert_eq!(result.request.method, "initialize");
            assert!(result.request.id.is_some());
            match result.request.id.as_ref().unwrap() {
                JsonValue::Num(lex) => assert_eq!(lex, "0"),
                other => panic!("expected a numeric id, got {:?}", other),
            }
        },
        other => panic!("expected a parsed request, got {:?}", other),
    }
}

#[test]
fn test_response_matches_request_id() {
    let request_json = br#"{"jsonrpc":"2.0","method":"initialize","params":{"protocolVersion":"2025-06-18","capabilities":{},"clientInfo":{"name":"test-client","version":"0.1.0"}},"id":0}"#;

    let buf: Vec<u8> = request_json.to_vec();
    let request_id = match parse_message(&buf, true) {
        ParseStep::Parsed { result, .. } => result.request.id,
        other => panic!("expected a parsed request, got {:?}", other),
    };

    let response = JsonRpcResponse {
        jsonrpc: "2.0".to_string(),
        id: request_id,
        result: Some(obj(vec![("protocolVersion", text("2025-06-18"))])),
        error: None,
    };

    let parsed = serialize(&response);

    assert!(parsed["id"].is_number());
    assert_eq!(parsed["id"].as_i64(), Some(0));
}

#[test]
fn mcp_protocol_test_test_error_response_format() {
    // Domain failures ride in result; the error member stays out.
    let response = JsonRpcResponse {
        jsonrpc: "2.0".to_string(),
        id: Some(JsonValue::Num("1".to_string())),
        result: Some(obj(vec![
            (
                "content",
                JsonValue::Array(vec![obj(vec![
                    ("type", text("text")),
                    ("text", text("Error: Test error message")),
                ])]),
            ),
            ("isError", JsonValue::Bool(true)),
        ])),
        error: None,
    };

    let parsed = serialize(&response);

    assert!(parsed.get("error").is_none());
    assert!(parsed["result"].is_object());
    assert_eq!(parsed["result"]["isError"], serde_json::Value::Bool(true));
}

#[test]
fn test_claude_desktop_response_format() {
    let response = JsonRpcResponse {
        jsonrpc: "2.0".to_string(),
        id: Some(JsonValue::Num("0".to_string())),
        result: Some(obj(vec![
            ("protocolVersion", text("2025-06-18")),
            ("capabilities", obj(vec![("tools", obj(vec![]))])),
            (
                "serverInfo",
                obj(vec![("name", text("rust-math-mcp")), ("version", text("0.1.0"))]),
            ),
        ])),
        error: None,
    };

    let parsed = serialize(&response);

    assert!(parsed["id"].is_number() || parsed["id"].is_string());
    assert!(!parsed["id"].is_null());
    assert!(parsed["result"].is_object());
    assert!(parsed.get("error").is_none() || parsed["error"].is_null());
}

#[test]
fn test_tools_call_response_format() {
    let response = JsonRpcResponse {
        jsonrpc: "2.0".to_string(),
        id: Some(JsonValue::Num("1".to_string())),
        result: Some(obj(vec![(
            "content",
            JsonValue::Array(vec![obj(vec![
                ("type", text("text")),
                ("text", text("{\"result\":42}")),
            ])]),
        )])),
        error: None,
    };

    let parsed = serialize(&response);

    assert!(parsed["id"].is_number());
    assert!(parsed["result"].is_object());
    assert!(parsed["result"]["content"].is_array());
    assert_eq!(parsed["result"]["content"][0]["type"], "text");
    assert!(parsed.get("error").is_none());
}

#[test]
fn manual_mcp_test_test_error_response_format() {
    let response = JsonRpcResponse {
        jsonrpc: "2.0".to_string(),
        id: Some(JsonValue::Num("2".to_string())),
        result: Some(obj(vec![
            (
                "content",
                JsonValue::Array(vec![obj(vec![
                    ("type", text("text")),
                    ("text", text("Error: Division by zero")),
                ])]),
            ),
            ("isError", JsonValue::Bool(true)),
        ])),
        error: None,
    };

    let parsed = serialize(&response);

    assert!(parsed["id"].is_number());
    assert!(parsed["result"].is_object());
    assert!(parsed.get("error").is_none());
    assert_eq!(parsed["result"]["isError"], serde_json::Value::Bool(true));
}

#[test]
fn test_render_bare_appends_newline() {
    let response = JsonRpcResponse {
        jsonrpc: "2.0".to_string(),
        id: None,
        result: None,
        error: None,
    };
    let bytes = render_response(&response, false);
    let s = String::from_utf8(bytes).unwrap();
    assert_eq!(s, "{\"jsonrpc\":\"2.0\",\"id\":null}\n");
}

#[test]
fn test_render_framed_header_counts_bytes() {
    let response = JsonRpcResponse {
        jsonrpc: "2.0".to_string(),
        id: Some(JsonValue::Num("3".to_string())),
        result: None,
        error: None,
    };
    let bytes = render_response(&response, true);
    let s = String::from_utf8(bytes).unwrap();
    let body = "{\"jsonrpc\":\"2.0\",\"id\":3}";
    assert_eq!(s, format!("Content-Length: {}\r\n\r\n{}", body.len(), body));
}

#[test]
fn test_escaped_text_in_response() {
    // Escaping survives the writer: quotes, backslashes, and control
    // characters are written as JSON escapes.
    let response = JsonRpcResponse {
        jsonrpc: "2.0".to_string(),
        id: Some(text("a\"b\\c\nd")),
        result: None,
        error: None,
    };
    let bytes = render_response(&response, false);
    let parsed: serde_json::Value = serde_json::from_slice(&bytes).unwrap();
    assert_eq!(parsed["id"].as_str(), Some("a\"b\\c\nd"));
}
