//! Argument extraction from JSON objects.

use math_rpc::dec::Dec;
use math_rpc::json::JsonValue;
use math_rpc::utils::args::{get_bool_opt, get_number, get_number_array, get_number_opt};

fn obj(members: Vec<(&str, JsonValue)>) -> JsonValue {
    JsonValue::Object(members.into_iter().map(|(k, v)| (k.to_string(), v)).collect())
}

fn num(lex: &str) -> JsonValue {
    JsonValue::Num(lex.to_string())
}

#[test]
fn test_get_number() {
    let args = obj(vec![("a", num("42.0"))]);
    assert_eq!(get_number(&args, "a").unwrap(), Dec { m: 42, s: 0 });
}

#[test]
fn test_get_number_missing() {
    let args = obj(vec![]);
    assert!(get_number(&args, "a").is_err());
}

#[test]
fn test_get_number_invalid() {
    let args = obj(vec![("a", JsonValue::Text("not a number".to_string()))]);
    assert!(get_number(&args, "a").is_err());
}

#[test]
fn test_get_number_array() {
    let args = obj(vec![(
        "numbers",
        JsonValue::Array(vec![num("1.0"), num("2.0"), num("3.0")]),
    )]);
    let result = get_number_array(&args, "numbers").unwrap();
    assert_eq!(
        result,
        vec![Dec { m: 1, s: 0 }, Dec { m: 2, s: 0 }, Dec { m: 3, s: 0 }]
    );
}

#[test]
fn test_get_number_array_empty() {
    let args = obj(vec![("numbers", JsonValue::Array(vec![]))]);
    let result = get_number_array(&args, "numbers").unwrap();
    assert_eq!(result, Vec::<Dec>::new());
}

#[test]
fn test_get_number_array_invalid() {
    let args = obj(vec![(
        "numbers",
        JsonValue::Array(vec![
            num("1.0"),
            JsonValue::Text("not a number".to_string()),
            num("3.0"),
        ]),
    )]);
    assert!(get_number_array(&args, "numbers").is_err());
}

#[test]
fn test_get_number_opt() {
    let args = obj(vec![("a", num("42.0"))]);
    assert_eq!(get_number_opt(&args, "a"), Some(Dec { m: 42, s: 0 }));
}

#[test]
fn test_get_number_opt_missing() {
    let args = obj(vec![]);
    assert_eq!(get_number_opt(&args, "a"), None);
}

#[test]
fn test_get_bool_opt() {
    let args = obj(vec![("flag", JsonValue::Bool(true))]);
    assert_eq!(get_bool_opt(&args, "flag"), Some(true));
}

#[test]
fn test_get_bool_opt_missing() {
    let args = obj(vec![]);
    assert_eq!(get_bool_opt(&args, "flag"), None);
}

#[test]
fn test_get_number_fraction() {
    let args = obj(vec![("a", num("2.5"))]);
    assert_eq!(get_number(&args, "a").unwrap(), Dec { m: 25, s: 1 });
}

#[test]
fn test_get_number_exponent_rejected() {
    // Exponent lexemes have no exact reading here.
    let args = obj(vec![("a", num("1e3"))]);
    let e = get_number(&args, "a").unwrap_err();
    assert_eq!(e.code, -32001);
}
