//! Concrete checks of the proved laws, through the registry.

use math_rpc::json::JsonValue;
use math_rpc::tools::{DefaultToolRegistry, ToolRegistry};

fn obj(members: Vec<(&str, JsonValue)>) -> JsonValue {
    JsonValue::Object(members.into_iter().map(|(k, v)| (k.to_string(), v)).collect())
}

fn num(lex: &str) -> JsonValue {
    JsonValue::Num(lex.to_string())
}

fn nums(lexes: Vec<&str>) -> JsonValue {
    JsonValue::Array(lexes.into_iter().map(num).collect())
}

fn result_of(v: &JsonValue) -> f64 {
    let parsed: serde_json::Value = serde_json::from_str(&v.to_text()).unwrap();
    parsed["result"].as_f64().unwrap()
}

#[test]
fn test_add_commutative() {
    let registry = DefaultToolRegistry;
    let pairs = vec![("417.25", "-93.5"), ("0.001", "999.999"), ("-1000.0", "1000.0")];
    for (a, b) in pairs {
        let args1 = obj(vec![("numbers", nums(vec![a, b]))]);
        let args2 = obj(vec![("numbers", nums(vec![b, a]))]);
        let sum1 = result_of(&registry.execute_tool("add", &args1).unwrap());
        let sum2 = result_of(&registry.execute_tool("add", &args2).unwrap());
        assert_eq!(sum1, sum2);
    }
}

#[test]
fn test_multiply_zero() {
    let registry = DefaultToolRegistry;
    for a in ["417.25", "-93.5", "0.0", "999.999"] {
        let args = obj(vec![("numbers", nums(vec![a, "0.0"]))]);
        let result = result_of(&registry.execute_tool("multiply", &args).unwrap());
        assert_eq!(result, 0.0);
    }
}

#[test]
fn test_abs_always_positive() {
    let registry = DefaultToolRegistry;
    for a in ["-417.25", "-0.001", "0.0", "93.5"] {
        let args = obj(vec![("number", num(a))]);
        let result = result_of(&registry.execute_tool("abs", &args).unwrap());
        assert!(result >= 0.0);
    }
}

#[test]
fn test_sqrt_squared() {
    // The exact square root undoes the exact square.
    let registry = DefaultToolRegistry;
    for a in ["7.0", "0.5", "12.25", "100.0"] {
        let av: f64 = a.parse().unwrap();
        let squared = av * av;
        let args = obj(vec![("number", num(&format!("{}", squared)))]);
        let result = result_of(&registry.execute_tool("sqrt", &args).unwrap());
        assert!((result - av).abs() < 1e-10);
    }
}
