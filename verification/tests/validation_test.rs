//! Validators, limits, configuration, and the error type.

use math_rpc::config::Config;
use math_rpc::dec::parse_dec;
use math_rpc::error::McpError;
use math_rpc::service::MathService;
use math_rpc::utils::limits::Limits;
use math_rpc::utils::validation::{
    validate_array_size, validate_decimal_places, validate_integer, validate_non_negative,
    validate_positive,
};

#[test]
fn test_error_constructors() {
    let error = McpError::validation_error("Division by zero");
    assert_eq!(error.code, -32001);
    assert_eq!(error.message, "Division by zero");
    assert!(error.data.is_none());

    assert_eq!(McpError::parse_error("x").code, -32700);
    assert_eq!(McpError::invalid_request("x").code, -32600);
    assert_eq!(McpError::method_not_found("nope").message, "Method not found: nope");
    assert_eq!(McpError::invalid_params("x").code, -32602);
    assert_eq!(McpError::internal_error("x").code, -32603);
    assert_eq!(McpError::tool_error("x").code, -32000);
    assert_eq!(McpError::resource_limit("x").code, -32002);
}

#[test]
fn test_error_display_string() {
    let error = McpError::new(-32700, "bad input");
    assert_eq!(error.display_string(), "[-32700] bad input");
}

#[test]
fn test_validate_array_size() {
    let config = Config::new();
    assert!(validate_array_size(10_000, &config).is_ok());
    let e = validate_array_size(10_001, &config).unwrap_err();
    assert_eq!(e.code, -32002);
    assert!(e.message.contains("exceeds maximum allowed size of 10000"));
}

#[test]
fn test_validate_decimal_places() {
    let config = Config::new();
    assert!(validate_decimal_places(0, &config).is_ok());
    assert!(validate_decimal_places(15, &config).is_ok());
    assert_eq!(validate_decimal_places(-1, &config).unwrap_err().code, -32001);
    assert_eq!(validate_decimal_places(16, &config).unwrap_err().code, -32001);
}

#[test]
fn test_validate_sign_checks() {
    let pos = parse_dec("0.5").unwrap();
    let neg = parse_dec("-0.5").unwrap();
    let zero = parse_dec("0").unwrap();

    assert!(validate_positive(pos, "x").is_ok());
    assert!(validate_positive(zero, "x").is_err());
    assert!(validate_positive(neg, "x").is_err());

    assert!(validate_non_negative(zero, "x").is_ok());
    assert!(validate_non_negative(neg, "x").is_err());
}

#[test]
fn test_validate_integer() {
    assert_eq!(validate_integer(parse_dec("42").unwrap(), "x").unwrap(), 42);
    assert_eq!(validate_integer(parse_dec("-3").unwrap(), "x").unwrap(), -3);
    let e = validate_integer(parse_dec("2.5").unwrap(), "x").unwrap_err();
    assert_eq!(e.code, -32001);
    assert!(e.message.contains("must be an integer"));
}

#[test]
fn test_limits_manager() {
    let limits = Limits::new(Config::new());
    assert_eq!(limits.max_array_size(), 10_000);
    assert_eq!(limits.max_decimal_places(), 15);
    assert!(limits.check_array_size(5).is_ok());
    assert!(limits.check_array_size(20_000).is_err());
    assert!(limits.check_timeout(100, 1_000).is_ok());
    assert_eq!(limits.check_timeout(2_000, 1_000).unwrap_err().code, -32002);
}

#[test]
fn test_service_identity() {
    let service = MathService::new();
    let config = Config::new();
    let info = service.get_info(&config);
    assert_eq!(info.name, "rust-math-mcp");
    assert_eq!(info.version, "0.1.0");
}

#[test]
fn test_config_defaults() {
    let config = Config::new();
    assert_eq!(config.server_name(), "rust-math-mcp");
    assert_eq!(config.server_version(), "0.1.0");
    assert_eq!(config.max_array_size, 10_000);
    assert_eq!(config.max_decimal_places, 15);
    assert!(config.enable_rate_limit);
    assert_eq!(config.max_requests_per_second, 1000);
}
