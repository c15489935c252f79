//! Validation of tool inputs against the configured limits.

use vstd::prelude::*;
use crate::config::Config;
use crate::dec::{digits_of, Dec};
use crate::error::{McpError, McpResult};

verus! {

/// Rejects arrays larger than the configured bound, naming both sizes.
pub fn validate_array_size(size: usize, config: &Config) -> (r: McpResult<()>)
    ensures
        r is Ok <==> size <= config.max_array_size,
        r matches Err(e) ==> e.code == -32002 && e.message@ == "Array size "@ + digits_of(
            size as nat,
        ) + " exceeds maximum allowed size of "@ + digits_of(config.max_array_size as nat),
{
    if size > config.max_array_size {
        let mut message: String = "Array size ".to_owned();
        let size_str = crate::dec::usize_string(size);
        message.append(size_str.as_str());
        message.append(" exceeds maximum allowed size of ");
        let max_str = crate::dec::usize_string(config.max_array_size);
        message.append(max_str.as_str());
        return Err(McpError { code: -32002, message, data: None });
    }
    Ok(())
}

/// Rejects a decimal-place count that is negative or beyond the bound.
pub fn validate_decimal_places(places: i32, config: &Config) -> (r: McpResult<()>)
    ensures
        r is Ok <==> 0 <= places <= config.max_decimal_places,
        r matches Err(e) ==> e.code == -32001,
{
    if places < 0 {
        return Err(McpError::validation_error("Decimal places must be non-negative"));
    }
    if places > config.max_decimal_places {
        let mut message: String = "Decimal places ".to_owned();
        let p_str = crate::dec::i64_string(places as i64);
        message.append(p_str.as_str());
        message.append(" exceeds maximum of ");
        let m_str = crate::dec::i64_string(config.max_decimal_places as i64);
        message.append(m_str.as_str());
        return Err(McpError { code: -32001, message, data: None });
    }
    Ok(())
}

/// Rejects a value that is not strictly positive.
pub fn validate_positive(value: Dec, name: &str) -> (r: McpResult<()>)
    requires
        value.wf(),
    ensures
        r is Ok <==> value.sc() > 0,
        r matches Err(e) ==> e.code == -32001,
{
    proof {
        crate::dec::lemma_sc_bound(value);
    }
    if value.m <= 0 {
        let mut message: String = name.to_owned();
        message.append(" must be positive, got: ");
        let v_str = crate::dec::dec_lexeme(value);
        message.append(v_str.as_str());
        return Err(McpError { code: -32001, message, data: None });
    }
    Ok(())
}

/// Rejects a negative value.
pub fn validate_non_negative(value: Dec, name: &str) -> (r: McpResult<()>)
    requires
        value.wf(),
    ensures
        r is Ok <==> value.sc() >= 0,
        r matches Err(e) ==> e.code == -32001,
{
    proof {
        crate::dec::lemma_sc_bound(value);
    }
    if value.m < 0 {
        let mut message: String = name.to_owned();
        message.append(" must be non-negative, got: ");
        let v_str = crate::dec::dec_lexeme(value);
        message.append(v_str.as_str());
        return Err(McpError { code: -32001, message, data: None });
    }
    Ok(())
}

/// Accepts a whole-number value and hands back the integer; rejects one
/// with a fractional part.
pub fn validate_integer(value: Dec, name: &str) -> (r: McpResult<i64>)
    requires
        value.wf(),
    ensures
        match r {
            Ok(v) => value.s == 0 && v as int == value.m as int,
            Err(e) => value.s != 0 && e.code == -32001,
        },
{
    match crate::dec::dec_to_i64(value) {
        Some(v) => Ok(v),
        None => {
            let mut message: String = name.to_owned();
            message.append(" must be an integer, got: ");
            let v_str = crate::dec::dec_lexeme(value);
            message.append(v_str.as_str());
            Err(McpError { code: -32001, message, data: None })
        },
    }
}

} // verus!
