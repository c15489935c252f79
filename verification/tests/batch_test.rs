//! The batch meta-operation, run through the registry.

use math_rpc::json::JsonValue;
use math_rpc::tools::batch::{execute, TOOL_BATCH};

fn obj(members: Vec<(&str, JsonValue)>) -> JsonValue {
    JsonValue::Object(members.into_iter().map(|(k, v)| (k.to_string(), v)).collect())
}

fn num(lex: &str) -> JsonValue {
    JsonValue::Num(lex.to_string())
}

fn text(s: &str) -> JsonValue {
    JsonValue::Text(s.to_string())
}

fn nums(lexes: Vec<&str>) -> JsonValue {
    JsonValue::Array(lexes.into_iter().map(num).collect())
}

fn op(id: &str, tool: &str, arguments: JsonValue) -> JsonValue {
    obj(vec![("id", text(id)), ("tool", tool_name(tool)), ("arguments", arguments)])
}

fn tool_name(t: &str) -> JsonValue {
    text(t)
}

/// The batch result, reparsed as a JSON document for inspection.
fn as_json(v: &JsonValue) -> serde_json::Value {
    serde_json::from_str(&v.to_text()).expect("batch result is valid JSON")
}

#[test]
fn test_batch_operations_success() {
    let args = obj(vec![(
        "operations",
        JsonValue::Array(vec![
            op("add1", "add", obj(vec![("numbers", nums(vec!["1.0", "2.0", "3.0"]))])),
            op("mult1", "multiply", obj(vec![("numbers", nums(vec!["2.0", "3.0", "4.0"]))])),
            op("mean1", "mean", obj(vec![("numbers", nums(vec!["10.0", "20.0", "30.0"]))])),
        ]),
    )]);

    let result = as_json(&execute(TOOL_BATCH, &args).unwrap());

    assert!(result["results"].is_array());
    assert_eq!(result["summary"]["total"], serde_json::Value::from(3));
    assert_eq!(result["summary"]["successful"], serde_json::Value::from(3));
    assert_eq!(result["summary"]["failed"], serde_json::Value::from(0));

    let results = result["results"].as_array().unwrap();

    let add_result = results.iter().find(|r| r["id"] == "add1").unwrap();
    assert_eq!(add_result["success"], serde_json::Value::Bool(true));
    assert_eq!(add_result["result"]["result"].as_f64().unwrap(), 6.0);

    let mult_result = results.iter().find(|r| r["id"] == "mult1").unwrap();
    assert_eq!(mult_result["success"], serde_json::Value::Bool(true));
    assert_eq!(mult_result["result"]["result"].as_f64().unwrap(), 24.0);

    let mean_result = results.iter().find(|r| r["id"] == "mean1").unwrap();
    assert_eq!(mean_result["success"], serde_json::Value::Bool(true));
    assert_eq!(mean_result["result"]["result"].as_f64().unwrap(), 20.0);
}

#[test]
fn test_batch_operations_partial_failure() {
    let args = obj(vec![(
        "operations",
        JsonValue::Array(vec![
            op("good1", "add", obj(vec![("numbers", nums(vec!["1.0", "2.0"]))])),
            op("bad1", "divide", obj(vec![("a", num("10.0")), ("b", num("0.0"))])),
            op("good2", "multiply", obj(vec![("numbers", nums(vec!["5.0", "6.0"]))])),
        ]),
    )]);

    let result = as_json(&execute(TOOL_BATCH, &args).unwrap());

    assert_eq!(result["summary"]["total"], serde_json::Value::from(3));
    assert_eq!(result["summary"]["successful"], serde_json::Value::from(2));
    assert_eq!(result["summary"]["failed"], serde_json::Value::from(1));

    let results = result["results"].as_array().unwrap();

    let good1 = results.iter().find(|r| r["id"] == "good1").unwrap();
    assert_eq!(good1["success"], serde_json::Value::Bool(true));

    let good2 = results.iter().find(|r| r["id"] == "good2").unwrap();
    assert_eq!(good2["success"], serde_json::Value::Bool(true));

    let bad1 = results.iter().find(|r| r["id"] == "bad1").unwrap();
    assert_eq!(bad1["success"], serde_json::Value::Bool(false));
    assert!(bad1["error"].is_string());
}

#[test]
fn test_batch_operations_unknown_tool() {
    let args = obj(vec![(
        "operations",
        JsonValue::Array(vec![op("unknown", "nonexistent_tool", obj(vec![]))]),
    )]);

    let result = as_json(&execute(TOOL_BATCH, &args).unwrap());
    let results = result["results"].as_array().unwrap();
    let unknown = &results[0];

    assert_eq!(unknown["success"], serde_json::Value::Bool(false));
    assert!(unknown["error"].as_str().unwrap().contains("Unknown tool"));
}

#[test]
fn test_batch_operations_empty() {
    let args = obj(vec![("operations", JsonValue::Array(vec![]))]);

    let result = execute(TOOL_BATCH, &args);
    assert!(result.is_err());
    assert!(result.unwrap_err().message.contains("No operations"));
}

#[test]
fn test_batch_operations_duplicate_ids() {
    let args = obj(vec![(
        "operations",
        JsonValue::Array(vec![
            op("dup", "add", obj(vec![("numbers", nums(vec!["1.0", "2.0"]))])),
            op("dup", "multiply", obj(vec![("numbers", nums(vec!["3.0", "4.0"]))])),
        ]),
    )]);

    let result = execute(TOOL_BATCH, &args);
    assert!(result.is_err());
    assert!(result.unwrap_err().message.contains("Duplicate operation ID"));
}

#[test]
fn test_batch_operations_max_size() {
    let mut operations: Vec<JsonValue> = Vec::new();
    for i in 0..51 {
        operations.push(op(
            &format!("op{}", i),
            "add",
            obj(vec![("numbers", nums(vec!["1.0", "2.0"]))]),
        ));
    }

    let args = obj(vec![("operations", JsonValue::Array(operations))]);

    let result = execute(TOOL_BATCH, &args);
    assert!(result.is_err());
    assert!(result.unwrap_err().message.contains("exceeds maximum"));
}

#[test]
fn test_batch_nested_batch() {
    // A batch may carry a batch; the inner one runs independently.
    let inner = obj(vec![(
        "operations",
        JsonValue::Array(vec![op(
            "in1",
            "add",
            obj(vec![("numbers", nums(vec!["1.0", "1.0"]))]),
        )]),
    )]);
    let args = obj(vec![(
        "operations",
        JsonValue::Array(vec![op("outer", "batch_operations", inner)]),
    )]);

    let result = as_json(&execute(TOOL_BATCH, &args).unwrap());
    assert_eq!(result["summary"]["successful"], serde_json::Value::from(1));
    let results = result["results"].as_array().unwrap();
    let outer = &results[0];
    assert_eq!(outer["result"]["summary"]["total"], serde_json::Value::from(1));
}
