//! End-to-end runs through the library: bytes in, framed bytes out.

use math_rpc::config::Config;
use math_rpc::parser::{parse_message, ParseStep};
use math_rpc::protocol::{handle_method_with_config, render_response};
use math_rpc::tools::registry::DefaultToolRegistry;

/// Feeds one request's bytes through the reader, the dispatcher, and the
/// writer; returns the response bytes and the encoding flag.
fn run_request(input: &[u8]) -> (Vec<u8>, bool) {
    let buf: Vec<u8> = input.to_vec();
    let step = parse_message(&buf, true);
    match step {
        ParseStep::Parsed { result, consumed } => {
            assert!(consumed <= buf.len());
            let registry = DefaultToolRegistry;
            let config = Config::new();
            let response = handle_method_with_config(
                result.request.method.as_str(),
                result.request.params,
                result.request.id,
                &registry,
                &config,
            );
            let bytes = render_response(&response, result.uses_content_length);
            (bytes, result.uses_content_length)
        },
        other => panic!("expected a parsed request, got {:?}", other),
    }
}

/// Reads a bare-JSON response body.
fn response_json(bytes: &[u8]) -> serde_json::Value {
    serde_json::from_slice(bytes).expect("response is valid JSON")
}

/// Splits a length-prefixed response into its header and body.
fn split_framed(bytes: &[u8]) -> (String, serde_json::Value) {
    let text = String::from_utf8(bytes.to_vec()).unwrap();
    let sep = text.find("\r\n\r\n").expect("framed response has a blank line");
    let header = text[..sep].to_string();
    let body: serde_json::Value = serde_json::from_str(&text[sep + 4..]).unwrap();
    (header, body)
}

#[test]
fn test_initialize_handshake() {
    let (bytes, used_cl) = run_request(
        br#"{"jsonrpc":"2.0","method":"initialize","params":{"protocolVersion":"2025-06-18","capabilities":{},"clientInfo":{"name":"test-client","version":"0.1.0"}},"id":0}"#,
    );
    assert!(!used_cl);
    let response = response_json(&bytes);
    assert_eq!(response["jsonrpc"], "2.0");
    assert_eq!(response["id"], serde_json::Value::from(0));
    assert!(response["result"].is_object(), "result should be an object");
    assert!(response.get("error").is_none(), "error field should not be present");
    let result = &response["result"];
    assert_eq!(result["protocolVersion"], "2025-06-18");
    assert!(result["capabilities"].is_object());
    assert!(result["capabilities"]["tools"].is_object());
    assert_eq!(result["serverInfo"]["name"], "rust-math-mcp");
    assert_eq!(result["serverInfo"]["version"], "0.1.0");
}

#[test]
fn test_tools_list() {
    let (bytes, _) = run_request(br#"{"jsonrpc":"2.0","method":"tools/list","params":{},"id":1}"#);
    let response = response_json(&bytes);
    assert_eq!(response["jsonrpc"], "2.0");
    assert_eq!(response["id"], serde_json::Value::from(1));
    assert!(response["result"].is_object());
    assert!(response.get("error").is_none());
    let tools = &response["result"]["tools"];
    assert!(tools.is_array(), "tools should be an array");
    let tools_array = tools.as_array().unwrap();
    assert!(!tools_array.is_empty(), "should have at least one tool");
    let tool_names: Vec<&str> = tools_array
        .iter()
        .filter_map(|t| t.get("name").and_then(|n| n.as_str()))
        .collect();
    assert!(tool_names.contains(&"add"), "should have add tool");
    assert!(tool_names.contains(&"multiply"), "should have multiply tool");
    assert!(tool_names.contains(&"mean"), "should have mean tool");
}

#[test]
fn test_tools_call_add() {
    let (bytes, _) = run_request(
        br#"{"jsonrpc":"2.0","method":"tools/call","params":{"name":"add","arguments":{"numbers":[10.0,20.0,30.0]}},"id":2}"#,
    );
    let response = response_json(&bytes);
    assert_eq!(response["jsonrpc"], "2.0");
    assert_eq!(response["id"], serde_json::Value::from(2));
    assert!(response["result"].is_object());
    assert!(response.get("error").is_none());
    let content = &response["result"]["content"];
    assert!(content.is_array());
    assert_eq!(content[0]["type"], "text");
    let text = content[0]["text"].as_str().unwrap();
    let result_data: serde_json::Value = serde_json::from_str(text).unwrap();
    assert_eq!(result_data["result"].as_f64().unwrap(), 60.0);
}

#[test]
fn test_tools_call_error_handling() {
    let (bytes, _) = run_request(
        br#"{"jsonrpc":"2.0","method":"tools/call","params":{"name":"divide","arguments":{"a":10.0,"b":0.0}},"id":4}"#,
    );
    let response = response_json(&bytes);
    assert_eq!(response["jsonrpc"], "2.0");
    assert_eq!(response["id"], serde_json::Value::from(4));
    assert!(response["result"].is_object());
    assert!(response.get("error").is_none(), "should use result, not error field");
    let result = &response["result"];
    assert_eq!(result["isError"], serde_json::Value::Bool(true));
    let content = &result["content"];
    assert!(content.is_array());
    let text = content[0]["text"].as_str().unwrap();
    assert!(text.contains("Error"), "error message should contain 'Error'");
}

#[test]
fn test_unknown_tool() {
    let (bytes, _) = run_request(
        br#"{"jsonrpc":"2.0","method":"tools/call","params":{"name":"nonexistent_tool","arguments":{}},"id":5}"#,
    );
    let response = response_json(&bytes);
    assert_eq!(response["jsonrpc"], "2.0");
    assert_eq!(response["id"], serde_json::Value::from(5));
    assert!(response["result"].is_object());
    assert_eq!(response["result"]["isError"], serde_json::Value::Bool(true));
}

#[test]
fn test_unknown_method() {
    let (bytes, _) = run_request(br#"{"jsonrpc":"2.0","method":"unknown/method","params":{},"id":6}"#);
    let response = response_json(&bytes);
    assert_eq!(response["jsonrpc"], "2.0");
    assert_eq!(response["id"], serde_json::Value::from(6));
    assert!(response["result"].is_object());
    assert_eq!(response["result"]["isError"], serde_json::Value::Bool(true));
    let content = &response["result"]["content"];
    let text = content[0]["text"].as_str().unwrap();
    assert!(text.contains("Method not found"));
}

#[test]
fn test_multiple_sequential_calls() {
    for i in 1..=5i64 {
        let request = format!(
            r#"{{"jsonrpc":"2.0","method":"tools/call","params":{{"name":"add","arguments":{{"numbers":[{}.0,{}.0]}}}},"id":{}}}"#,
            i, i, i
        );
        let (bytes, _) = run_request(request.as_bytes());
        let response = response_json(&bytes);
        assert_eq!(response["id"], serde_json::Value::from(i));
        assert!(response["result"].is_object());
        let content = &response["result"]["content"];
        let text = content[0]["text"].as_str().unwrap();
        let result_data: serde_json::Value = serde_json::from_str(text).unwrap();
        assert_eq!(result_data["result"].as_f64().unwrap(), (i * 2) as f64);
    }
}

#[test]
fn test_statistics_tools() {
    let (bytes, _) = run_request(
        br#"{"jsonrpc":"2.0","method":"tools/call","params":{"name":"mean","arguments":{"numbers":[10.0,20.0,30.0]}},"id":1}"#,
    );
    let response = response_json(&bytes);
    assert_eq!(response["id"], serde_json::Value::from(1));
    let text = response["result"]["content"][0]["text"].as_str().unwrap();
    let result_data: serde_json::Value = serde_json::from_str(text).unwrap();
    assert_eq!(result_data["result"].as_f64().unwrap(), 20.0);

    let (bytes, _) = run_request(
        br#"{"jsonrpc":"2.0","method":"tools/call","params":{"name":"median","arguments":{"numbers":[1.0,2.0,3.0,4.0,5.0]}},"id":2}"#,
    );
    let response = response_json(&bytes);
    assert_eq!(response["id"], serde_json::Value::from(2));
    let text = response["result"]["content"][0]["text"].as_str().unwrap();
    let result_data: serde_json::Value = serde_json::from_str(text).unwrap();
    assert_eq!(result_data["result"].as_f64().unwrap(), 3.0);
}

#[test]
fn test_batch_operations_single_call() {
    let (bytes, _) = run_request(
        br#"{"jsonrpc":"2.0","method":"tools/call","params":{"name":"batch_operations","arguments":{"operations":[{"id":"calc1","tool":"add","arguments":{"numbers":[10.0,20.0,30.0]}},{"id":"calc2","tool":"multiply","arguments":{"numbers":[5.0,6.0]}},{"id":"calc3","tool":"mean","arguments":{"numbers":[100.0,200.0,300.0]}},{"id":"calc4","tool":"sqrt","arguments":{"number":144.0}}]}},"id":1}"#,
    );
    let response = response_json(&bytes);
    assert_eq!(response["jsonrpc"], "2.0");
    assert_eq!(response["id"], serde_json::Value::from(1));
    let text = response["result"]["content"][0]["text"].as_str().unwrap();
    let batch_result: serde_json::Value = serde_json::from_str(text).unwrap();
    assert_eq!(batch_result["summary"]["total"], serde_json::Value::from(4));
    assert_eq!(batch_result["summary"]["successful"], serde_json::Value::from(4));
    assert_eq!(batch_result["summary"]["failed"], serde_json::Value::from(0));
    let results = batch_result["results"].as_array().unwrap();
    let calc1 = results.iter().find(|r| r["id"] == "calc1").unwrap();
    assert_eq!(calc1["result"]["result"].as_f64().unwrap(), 60.0);
    let calc2 = results.iter().find(|r| r["id"] == "calc2").unwrap();
    assert_eq!(calc2["result"]["result"].as_f64().unwrap(), 30.0);
    let calc3 = results.iter().find(|r| r["id"] == "calc3").unwrap();
    assert_eq!(calc3["result"]["result"].as_f64().unwrap(), 200.0);
    let calc4 = results.iter().find(|r| r["id"] == "calc4").unwrap();
    assert_eq!(calc4["result"]["result"].as_f64().unwrap(), 12.0);
}

#[test]
fn test_batch_operations_with_errors() {
    let (bytes, _) = run_request(
        br#"{"jsonrpc":"2.0","method":"tools/call","params":{"name":"batch_operations","arguments":{"operations":[{"id":"good1","tool":"add","arguments":{"numbers":[1.0,2.0,3.0]}},{"id":"bad1","tool":"divide","arguments":{"a":10.0,"b":0.0}},{"id":"bad2","tool":"nonexistent_tool","arguments":{}},{"id":"good2","tool":"multiply","arguments":{"numbers":[7.0,8.0]}}]}},"id":1}"#,
    );
    let response = response_json(&bytes);
    let text = response["result"]["content"][0]["text"].as_str().unwrap();
    let batch_result: serde_json::Value = serde_json::from_str(text).unwrap();
    assert_eq!(batch_result["summary"]["total"], serde_json::Value::from(4));
    assert_eq!(batch_result["summary"]["successful"], serde_json::Value::from(2));
    assert_eq!(batch_result["summary"]["failed"], serde_json::Value::from(2));
    let results = batch_result["results"].as_array().unwrap();
    let good1 = results.iter().find(|r| r["id"] == "good1").unwrap();
    assert_eq!(good1["success"], serde_json::Value::Bool(true));
    assert_eq!(good1["result"]["result"].as_f64().unwrap(), 6.0);
    let good2 = results.iter().find(|r| r["id"] == "good2").unwrap();
    assert_eq!(good2["success"], serde_json::Value::Bool(true));
    assert_eq!(good2["result"]["result"].as_f64().unwrap(), 56.0);
    let bad1 = results.iter().find(|r| r["id"] == "bad1").unwrap();
    assert_eq!(bad1["success"], serde_json::Value::Bool(false));
    assert!(bad1["error"].is_string());
    let bad2 = results.iter().find(|r| r["id"] == "bad2").unwrap();
    assert_eq!(bad2["success"], serde_json::Value::Bool(false));
    assert!(bad2["error"].as_str().unwrap().contains("Unknown tool"));
}

#[test]
fn test_length_prefixed_framing_echo() {
    // A length-prefixed request for add with [1,2,3] gives {result: 6},
    // framed as length-prefixed in turn.
    let body = br#"{"jsonrpc":"2.0","method":"tools/call","params":{"name":"add","arguments":{"numbers":[1,2,3]}},"id":7}"#;
    let mut input = format!("Content-Length: {}\r\n\r\n", body.len()).into_bytes();
    input.extend_from_slice(body);
    let (bytes, used_cl) = run_request(&input);
    assert!(used_cl, "the response must reuse the request's framing");
    let (header, response) = split_framed(&bytes);
    assert!(header.starts_with("Content-Length: "));
    let text = response["result"]["content"][0]["text"].as_str().unwrap();
    let result_data: serde_json::Value = serde_json::from_str(text).unwrap();
    assert_eq!(result_data["result"].as_f64().unwrap(), 6.0);
}

#[test]
fn test_bare_json_framing_echo() {
    // A bare-JSON request gets a bare-JSON response: no header lines.
    let (bytes, used_cl) = run_request(
        br#"{"jsonrpc":"2.0","method":"tools/call","params":{"name":"add","arguments":{"numbers":[1,2]}},"id":8}"#,
    );
    assert!(!used_cl);
    let text = String::from_utf8(bytes.clone()).unwrap();
    assert!(!text.contains("Content-Length"), "bare framing carries no header");
    assert!(text.ends_with('\n'));
    let response = response_json(&bytes);
    assert_eq!(response["id"], serde_json::Value::from(8));
}

#[test]
fn test_oversized_length_then_continue() {
    // A declared length above the ceiling fails with the resource-limit
    // code before any body is awaited, and the next message still parses.
    let input = b"Content-Length: 99999999999\r\n".to_vec();
    match parse_message(&input, false) {
        ParseStep::Failed { error, consumed } => {
            assert_eq!(error.code, -32002);
            assert_eq!(consumed, input.len());
        },
        other => panic!("expected a resource-limit failure, got {:?}", other),
    }
    let (bytes, _) = run_request(br#"{"jsonrpc":"2.0","method":"tools/list","params":{},"id":9}"#);
    let response = response_json(&bytes);
    assert_eq!(response["id"], serde_json::Value::from(9));
}

#[test]
fn test_clean_shutdown_on_empty_stream() {
    // Zero bytes at end of stream is the clean shutdown, not an error.
    let empty: Vec<u8> = Vec::new();
    match parse_message(&empty, true) {
        ParseStep::CleanShutdown => {},
        other => panic!("expected a clean shutdown, got {:?}", other),
    }
    match parse_message(&empty, false) {
        ParseStep::NeedMoreData => {},
        other => panic!("expected to wait for data, got {:?}", other),
    }
}

#[test]
fn test_unparseable_params_top_level_error() {
    // Bad params surface in the top-level error member, unlike domain
    // failures.
    let (bytes, _) = run_request(br#"{"jsonrpc":"2.0","method":"tools/call","id":10}"#);
    let response = response_json(&bytes);
    assert_eq!(response["id"], serde_json::Value::from(10));
    assert!(response.get("result").is_none());
    assert_eq!(response["error"]["code"], serde_json::Value::from(-32602));
}

#[test]
fn test_incomplete_json_waits_for_more() {
    let partial = br#"{"jsonrpc":"2.0","met"#.to_vec();
    match parse_message(&partial, false) {
        ParseStep::NeedMoreData => {},
        other => panic!("expected to wait for data, got {:?}", other),
    }
    match parse_message(&partial, true) {
        ParseStep::Failed { error, .. } => assert_eq!(error.code, -32700),
        other => panic!("expected a parse failure at end of stream, got {:?}", other),
    }
}

#[test]
fn test_unknown_prefix_rejected() {
    let input = b"HELLO WORLD\nleftover".to_vec();
    match parse_message(&input, false) {
        ParseStep::Failed { error, consumed } => {
            assert_eq!(error.code, -32600);
            assert_eq!(consumed, 12);
            assert!(error.message.contains("got: HELLO WORLD"));
        },
        other => panic!("expected an invalid-request failure, got {:?}", other),
    }
}

#[test]
fn test_unknown_prefix_preview_truncated() {
    let mut line = vec![b'A'; 80];
    line.push(b'\n');
    match parse_message(&line, false) {
        ParseStep::Failed { error, .. } => {
            assert_eq!(error.code, -32600);
            let preview = format!("{}...", "A".repeat(50));
            assert!(error.message.ends_with(&preview));
        },
        other => panic!("expected an invalid-request failure, got {:?}", other),
    }
}

#[test]
fn test_wrong_protocol_version_rejected() {
    let input = br#"{"jsonrpc":"1.0","method":"tools/list","id":1}"#.to_vec();
    match parse_message(&input, true) {
        ParseStep::Failed { error, .. } => assert_eq!(error.code, -32600),
        other => panic!("expected an invalid-request failure, got {:?}", other),
    }
}

#[test]
fn test_string_id_echoed_byte_identical() {
    let (bytes, _) = run_request(
        br#"{"jsonrpc":"2.0","method":"tools/list","params":{},"id":"req-007"}"#,
    );
    let response = response_json(&bytes);
    assert_eq!(response["id"], serde_json::Value::from("req-007"));
}

#[test]
fn test_oversized_bare_json_rejected() {
    // The ceiling binds bare JSON as well, before parsing is attempted.
    let mut input: Vec<u8> = vec![b'{'];
    input.resize(10_000_001, b' ');
    match parse_message(&input, false) {
        ParseStep::Failed { error, consumed } => {
            assert_eq!(error.code, -32002);
            assert_eq!(consumed, input.len());
        },
        other => panic!("expected a resource-limit failure, got {:?}", other),
    }
}

#[test]
fn test_number_id_lexeme_echoed() {
    // A numeric id keeps its lexeme on echo: trailing zeros, precision
    // beyond a double, and large values all survive. An exponent comes
    // back lowercased with an explicit sign; everything else is
    // byte-identical.
    let cases = [
        ("1.50", "1.50"),
        ("0", "0"),
        ("-7", "-7"),
        ("3.141592653589793238462643", "3.141592653589793238462643"),
        ("1e2", "1e+2"),
        ("2.5E-3", "2.5e-3"),
    ];
    for (id_lexeme, echoed) in cases {
        let request = format!(
            r#"{{"jsonrpc":"2.0","method":"tools/list","params":{{}},"id":{}}}"#,
            id_lexeme
        );
        let (bytes, _) = run_request(request.as_bytes());
        let text = String::from_utf8(bytes).unwrap();
        let prefix: String = text.chars().take(40).collect();
        assert!(
            text.contains(&format!("\"id\":{},", echoed)),
            "response starting {:?} must echo id {:?}",
            prefix,
            echoed
        );
    }
}
