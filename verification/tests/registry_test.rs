//! The tool registry: listing and execution by name.

use math_rpc::json::JsonValue;
use math_rpc::tools::{DefaultToolRegistry, ToolRegistry};

fn obj(members: Vec<(&str, JsonValue)>) -> JsonValue {
    JsonValue::Object(members.into_iter().map(|(k, v)| (k.to_string(), v)).collect())
}

fn num(lex: &str) -> JsonValue {
    JsonValue::Num(lex.to_string())
}

fn nums(lexes: Vec<&str>) -> JsonValue {
    JsonValue::Array(lexes.into_iter().map(num).collect())
}

fn result_of(v: &JsonValue) -> f64 {
    let parsed: serde_json::Value = serde_json::from_str(&v.to_text()).unwrap();
    parsed["result"].as_f64().unwrap()
}

#[test]
fn test_tool_registry_list_tools() {
    let registry = DefaultToolRegistry;
    let tools = registry.get_all_tools();
    let parsed: serde_json::Value = serde_json::from_str(&tools.to_text()).unwrap();

    assert!(parsed.is_array());
    let tools_array = parsed.as_array().unwrap();
    assert!(!tools_array.is_empty());

    let tool_names: Vec<&str> = tools_array
        .iter()
        .filter_map(|t| t.get("name").and_then(|n| n.as_str()))
        .collect();

    assert!(tool_names.contains(&"add"));
    assert!(tool_names.contains(&"mean"));
    assert!(tool_names.contains(&"batch_operations"));
}

#[test]
fn test_tool_execution_add() {
    let registry = DefaultToolRegistry;
    let args = obj(vec![("numbers", nums(vec!["1.0", "2.0", "3.0"]))]);

    let result = registry.execute_tool("add", &args).unwrap();
    assert_eq!(result_of(&result), 6.0);
}

#[test]
fn test_tool_execution_unknown() {
    let registry = DefaultToolRegistry;
    let args = obj(vec![]);

    let result = registry.execute_tool("unknown_tool", &args);
    assert!(result.is_err());
}

#[test]
fn test_tool_execution_divide_by_zero() {
    let registry = DefaultToolRegistry;
    let args = obj(vec![("a", num("10.0")), ("b", num("0.0"))]);

    let result = registry.execute_tool("divide", &args);
    assert!(result.is_err());
}

#[test]
fn test_tool_execution_integer_tools() {
    let registry = DefaultToolRegistry;

    let args = obj(vec![("a", num("12")), ("b", num("18"))]);
    assert_eq!(result_of(&registry.execute_tool("gcd", &args).unwrap()), 6.0);
    assert_eq!(result_of(&registry.execute_tool("lcm", &args).unwrap()), 36.0);

    let args = obj(vec![("n", num("5"))]);
    assert_eq!(result_of(&registry.execute_tool("factorial", &args).unwrap()), 120.0);

    let args = obj(vec![("n", num("5")), ("r", num("2"))]);
    assert_eq!(result_of(&registry.execute_tool("permutation", &args).unwrap()), 20.0);
    assert_eq!(result_of(&registry.execute_tool("combination", &args).unwrap()), 10.0);
}

#[test]
fn test_tool_execution_rounding_family() {
    let registry = DefaultToolRegistry;

    let args = obj(vec![("number", num("-2.5"))]);
    assert_eq!(result_of(&registry.execute_tool("abs", &args).unwrap()), 2.5);
    assert_eq!(result_of(&registry.execute_tool("floor", &args).unwrap()), -3.0);
    assert_eq!(result_of(&registry.execute_tool("ceil", &args).unwrap()), -2.0);
    assert_eq!(result_of(&registry.execute_tool("round", &args).unwrap()), -3.0);

    let args = obj(vec![("number", num("2.345")), ("decimals", num("2"))]);
    assert_eq!(result_of(&registry.execute_tool("round", &args).unwrap()), 2.35);
}

#[test]
fn test_tool_execution_divide_exact() {
    let registry = DefaultToolRegistry;
    let args = obj(vec![("a", num("10")), ("b", num("4"))]);
    assert_eq!(result_of(&registry.execute_tool("divide", &args).unwrap()), 2.5);

    // A quotient with no finite decimal form is a domain failure.
    let args = obj(vec![("a", num("1")), ("b", num("3"))]);
    assert!(registry.execute_tool("divide", &args).is_err());
}

#[test]
fn test_tool_execution_min_max_subtract_modulo() {
    let registry = DefaultToolRegistry;

    let args = obj(vec![("numbers", nums(vec!["4.0", "-7.5", "2.0"]))]);
    assert_eq!(result_of(&registry.execute_tool("min", &args).unwrap()), -7.5);
    assert_eq!(result_of(&registry.execute_tool("max", &args).unwrap()), 4.0);
    assert_eq!(result_of(&registry.execute_tool("sum", &args).unwrap()), -1.5);

    let args = obj(vec![("a", num("7.5")), ("b", num("2.25"))]);
    assert_eq!(result_of(&registry.execute_tool("subtract", &args).unwrap()), 5.25);

    let args = obj(vec![("a", num("-7")), ("b", num("3"))]);
    assert_eq!(result_of(&registry.execute_tool("modulo", &args).unwrap()), -1.0);
}

#[test]
fn test_tool_execution_median_even() {
    let registry = DefaultToolRegistry;
    let args = obj(vec![("numbers", nums(vec!["4.0", "1.0", "3.0", "2.0"]))]);
    assert_eq!(result_of(&registry.execute_tool("median", &args).unwrap()), 2.5);
}

#[test]
fn test_tool_execution_sqrt_inexact() {
    let registry = DefaultToolRegistry;
    let args = obj(vec![("number", num("2"))]);
    let e = registry.execute_tool("sqrt", &args).unwrap_err();
    assert_eq!(e.code, -32001);

    let args = obj(vec![("number", num("-4"))]);
    let e = registry.execute_tool("sqrt", &args).unwrap_err();
    assert_eq!(e.code, -32001);

    let args = obj(vec![("number", num("2.25"))]);
    assert_eq!(result_of(&registry.execute_tool("sqrt", &args).unwrap()), 1.5);
}

#[test]
fn test_tool_execution_mode() {
    let registry = DefaultToolRegistry;

    // 2.5 appears twice: it is the single mode, with frequency 2.
    let args = obj(vec![("numbers", nums(vec!["2.5", "1.0", "2.5", "3.0"]))]);
    let v = registry.execute_tool("mode", &args).unwrap();
    let parsed: serde_json::Value = serde_json::from_str(&v.to_text()).unwrap();
    assert_eq!(parsed["frequency"], serde_json::Value::from(2));
    let modes = parsed["mode"].as_array().unwrap();
    assert_eq!(modes.len(), 1);
    assert_eq!(modes[0].as_f64().unwrap(), 2.5);

    // Two values tied at the top come back sorted by value.
    let args = obj(vec![("numbers", nums(vec!["3.0", "1.0", "3.0", "1.0", "2.0"]))]);
    let v = registry.execute_tool("mode", &args).unwrap();
    let parsed: serde_json::Value = serde_json::from_str(&v.to_text()).unwrap();
    assert_eq!(parsed["frequency"], serde_json::Value::from(2));
    let modes = parsed["mode"].as_array().unwrap();
    assert_eq!(modes.len(), 2);
    assert_eq!(modes[0].as_f64().unwrap(), 1.0);
    assert_eq!(modes[1].as_f64().unwrap(), 3.0);
}

#[test]
fn test_tool_execution_mode_all_unique() {
    let registry = DefaultToolRegistry;
    let args = obj(vec![("numbers", nums(vec!["1.0", "2.0", "3.0"]))]);
    let v = registry.execute_tool("mode", &args).unwrap();
    let parsed: serde_json::Value = serde_json::from_str(&v.to_text()).unwrap();
    assert!(parsed["mode"].is_null());
    assert_eq!(parsed["message"], "No mode - all values are unique");

    let args = obj(vec![("numbers", JsonValue::Array(vec![]))]);
    let e = registry.execute_tool("mode", &args).unwrap_err();
    assert_eq!(e.code, -32001);
}

#[test]
fn test_tool_execution_round_negative_places() {
    let registry = DefaultToolRegistry;
    let args = obj(vec![("number", num("1234.5")), ("decimals", num("-2"))]);
    assert_eq!(result_of(&registry.execute_tool("round", &args).unwrap()), 1200.0);

    let args = obj(vec![("number", num("-1250")), ("decimals", num("-2"))]);
    assert_eq!(result_of(&registry.execute_tool("round", &args).unwrap()), -1300.0);
}

#[test]
fn test_tool_execution_combination_symmetry() {
    // Choosing r of n counts the same as leaving r of n out.
    let registry = DefaultToolRegistry;
    for (n, r) in [("10", "3"), ("10", "7"), ("25", "5"), ("25", "20")] {
        let args = obj(vec![("n", num(n)), ("r", num(r))]);
        let c = result_of(&registry.execute_tool("combination", &args).unwrap());
        let n_val: i64 = n.parse().unwrap();
        let r_val: i64 = r.parse().unwrap();
        let args2 = obj(vec![("n", num(n)), ("r", num(&(n_val - r_val).to_string()))]);
        let c2 = result_of(&registry.execute_tool("combination", &args2).unwrap());
        assert_eq!(c, c2);
    }
}
