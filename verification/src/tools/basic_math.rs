//! Basic arithmetic tools, computed exactly.

use vstd::prelude::*;
use crate::dec::{
    dec_abs, dec_ceil, dec_floor, dec_round, dec_sqrt, dec_sub, dec_sum, dec_prod, dec_div,
    floor_m, iabs, is_exact_sqrt, neg_of, spec_dec_add, spec_dec_round, spec_dec_sqrt, sum_chain,
    prod_chain, div_representable, spec_dec_div, Dec, SCALE_LIMIT,
};
use crate::error::{McpError, McpResult};
use crate::json::{jfield, str_eq, JsonV, JsonValue};
use crate::utils::args::{
    get_number, get_number_array, get_number_opt, num_of, parse_elems, result_json, result_jv,
};

verus! {

pub const TOOL_ADD: &'static str = "add";

pub const TOOL_SUBTRACT: &'static str = "subtract";

pub const TOOL_MULTIPLY: &'static str = "multiply";

pub const TOOL_DIVIDE: &'static str = "divide";

pub const TOOL_SQRT: &'static str = "sqrt";

pub const TOOL_ABS: &'static str = "abs";

pub const TOOL_ROUND: &'static str = "round";

pub const TOOL_FLOOR: &'static str = "floor";

pub const TOOL_CEIL: &'static str = "ceil";

pub const TOOL_MODULO: &'static str = "modulo";

/// What `add` returns: the exact sum of the numbers under `numbers`, or a
/// failure when the field is bad or a partial sum leaves the exact range.
pub open spec fn add_spec(args: JsonV, r: McpResult<JsonValue>) -> bool {
    match jfield(args, "numbers"@) {
        Option::Some(JsonV::Array(els)) => {
            if els.len() > crate::config::DEFAULT_MAX_ARRAY_SIZE as int || parse_elems(els)
                is None {
                r is Err
            } else {
                match sum_chain(parse_elems(els)->Some_0) {
                    Option::Some(d) => r matches Ok(v) && v.jview() == result_jv(d),
                    Option::None => r is Err,
                }
            }
        },
        _ => r is Err,
    }
}

/// What `multiply` returns: the exact product of the numbers.
pub open spec fn multiply_spec(args: JsonV, r: McpResult<JsonValue>) -> bool {
    match jfield(args, "numbers"@) {
        Option::Some(JsonV::Array(els)) => {
            if els.len() > crate::config::DEFAULT_MAX_ARRAY_SIZE as int || parse_elems(els)
                is None {
                r is Err
            } else {
                match prod_chain(parse_elems(els)->Some_0) {
                    Option::Some(d) => r matches Ok(v) && v.jview() == result_jv(d),
                    Option::None => r is Err,
                }
            }
        },
        _ => r is Err,
    }
}

/// What `subtract` returns: `a - b`, exactly.
pub open spec fn subtract_spec(args: JsonV, r: McpResult<JsonValue>) -> bool {
    match (num_of(args, "a"@), num_of(args, "b"@)) {
        (Option::Some(a), Option::Some(b)) => match spec_dec_add(a, neg_of(b)) {
            Option::Some(d) => r matches Ok(v) && v.jview() == result_jv(d),
            Option::None => r is Err,
        },
        _ => r is Err,
    }
}

/// What `divide` returns: the exact quotient; division by zero and an
/// inexact quotient are failures.
pub open spec fn divide_spec(args: JsonV, r: McpResult<JsonValue>) -> bool {
    match (num_of(args, "a"@), num_of(args, "b"@)) {
        (Option::Some(a), Option::Some(b)) => {
            if b.m == 0 {
                r matches Err(e) && e.code == -32001 && e.message@ == "Division by zero"@
            } else if div_representable(a, b) {
                r matches Ok(v) && v.jview() == result_jv(spec_dec_div(a, b))
            } else {
                r is Err
            }
        },
        _ => r is Err,
    }
}

/// What `sqrt` returns: the exact square root of a nonnegative number.
pub open spec fn sqrt_spec(args: JsonV, r: McpResult<JsonValue>) -> bool {
    match num_of(args, "number"@) {
        Option::Some(n) => {
            if n.m < 0 {
                r matches Err(e) && e.code == -32001
            } else if exists|z: nat| is_exact_sqrt(n, z) {
                r matches Ok(v) && v.jview() == result_jv(spec_dec_sqrt(n))
            } else {
                r is Err
            }
        },
        _ => r is Err,
    }
}

/// What `abs` returns.
pub open spec fn abs_spec(args: JsonV, r: McpResult<JsonValue>) -> bool {
    match num_of(args, "number"@) {
        Option::Some(n) => r matches Ok(v) && v.jview() == result_jv(
            if n.m < 0 {
                neg_of(n)
            } else {
                n
            },
        ),
        _ => r is Err,
    }
}

/// What `floor` returns: the greatest whole number at or below the value.
pub open spec fn floor_spec(args: JsonV, r: McpResult<JsonValue>) -> bool {
    match num_of(args, "number"@) {
        Option::Some(n) => r matches Ok(v) && v.jview() == result_jv(
            Dec { m: floor_m(n) as i128, s: 0 },
        ),
        _ => r is Err,
    }
}

/// What `ceil` returns: the least whole number at or above the value.
pub open spec fn ceil_spec(args: JsonV, r: McpResult<JsonValue>) -> bool {
    match num_of(args, "number"@) {
        Option::Some(n) => r matches Ok(v) && v.jview() == result_jv(
            Dec { m: (-floor_m(neg_of(n))) as i128, s: 0 },
        ),
        _ => r is Err,
    }
}

/// What `round` returns: the value rounded half away from zero to the
/// given number of decimal places (default zero). A negative count
/// rounds to a whole multiple of ten to that power.
pub open spec fn round_spec(args: JsonV, r: McpResult<JsonValue>) -> bool {
    match num_of(args, "number"@) {
        Option::Some(n) => {
            let places = match num_of(args, "decimals"@) {
                Option::Some(p) => {
                    if p.s == 0 && -(SCALE_LIMIT as int) <= p.m <= SCALE_LIMIT as int {
                        Option::Some(p.m as int)
                    } else {
                        Option::None
                    }
                },
                Option::None => Option::Some(0int),
            };
            match places {
                Option::Some(p) => {
                    if p >= 0 {
                        r matches Ok(v) && v.jview() == result_jv(spec_dec_round(n, p as u32))
                    } else {
                        match crate::dec::spec_dec_round_neg(n, (-p) as u32) {
                            Option::Some(d) => r matches Ok(v) && v.jview() == result_jv(d),
                            Option::None => r is Err,
                        }
                    }
                },
                Option::None => r is Err,
            }
        },
        _ => r is Err,
    }
}

/// The remainder with the sign of the dividend, as Rust's `%` has it.
pub open spec fn trunc_rem(a: int, b: int) -> int {
    if a >= 0 {
        (iabs(a) % iabs(b)) as int
    } else {
        -((iabs(a) % iabs(b)) as int)
    }
}

/// What `modulo` returns: the truncated remainder of two whole numbers.
pub open spec fn modulo_spec(args: JsonV, r: McpResult<JsonValue>) -> bool {
    match (num_of(args, "a"@), num_of(args, "b"@)) {
        (Option::Some(a), Option::Some(b)) => {
            if a.s != 0 || b.s != 0 {
                r matches Err(e) && e.code == -32001
            } else if b.m == 0 {
                r matches Err(e) && e.code == -32001 && e.message@ == "Modulo by zero"@
            } else {
                r matches Ok(v) && exists|d: Dec|
                    d.wf() && d.s == 0 && d.m as int == trunc_rem(a.m as int, b.m as int)
                        && v.jview() == result_jv(d)
            }
        },
        _ => r is Err,
    }
}

/// Runs one of the basic arithmetic tools.
pub fn execute(name: &str, arguments: &JsonValue) -> (r: McpResult<JsonValue>)
    ensures
        name@ == TOOL_ADD@ ==> add_spec(arguments.jview(), r),
        name@ == TOOL_MULTIPLY@ ==> multiply_spec(arguments.jview(), r),
        name@ == TOOL_SUBTRACT@ ==> subtract_spec(arguments.jview(), r),
        name@ == TOOL_DIVIDE@ ==> divide_spec(arguments.jview(), r),
        name@ == TOOL_SQRT@ ==> sqrt_spec(arguments.jview(), r),
        name@ == TOOL_ABS@ ==> abs_spec(arguments.jview(), r),
        name@ == TOOL_FLOOR@ ==> floor_spec(arguments.jview(), r),
        name@ == TOOL_CEIL@ ==> ceil_spec(arguments.jview(), r),
        name@ == TOOL_ROUND@ ==> round_spec(arguments.jview(), r),
        name@ == TOOL_MODULO@ ==> modulo_spec(arguments.jview(), r),
{
    proof {
        crate::tools::registry::lemma_tool_names_distinct();
    }
    if str_eq(name, TOOL_ADD) {
        let ds = match get_number_array(arguments, "numbers") {
            Ok(ds) => ds,
            Err(e) => {
                return Err(e);
            },
        };
        match dec_sum(&ds) {
            Some(d) => Ok(result_json(d)),
            None => Err(McpError::validation_error("Sum is not exactly representable")),
        }
    } else if str_eq(name, TOOL_MULTIPLY) {
        let ds = match get_number_array(arguments, "numbers") {
            Ok(ds) => ds,
            Err(e) => {
                return Err(e);
            },
        };
        match dec_prod(&ds) {
            Some(d) => Ok(result_json(d)),
            None => Err(McpError::validation_error("Product is not exactly representable")),
        }
    } else if str_eq(name, TOOL_SUBTRACT) {
        let a = match get_number(arguments, "a") {
            Ok(d) => d,
            Err(e) => {
                return Err(e);
            },
        };
        let b = match get_number(arguments, "b") {
            Ok(d) => d,
            Err(e) => {
                return Err(e);
            },
        };
        match dec_sub(a, b) {
            Some(d) => Ok(result_json(d)),
            None => Err(McpError::validation_error("Difference is not exactly representable")),
        }
    } else if str_eq(name, TOOL_DIVIDE) {
        let a = match get_number(arguments, "a") {
            Ok(d) => d,
            Err(e) => {
                return Err(e);
            },
        };
        let b = match get_number(arguments, "b") {
            Ok(d) => d,
            Err(e) => {
                return Err(e);
            },
        };
        if b.m == 0 {
            return Err(McpError::validation_error("Division by zero"));
        }
        match dec_div(a, b) {
            Some(d) => {
                proof {
                    crate::dec::lemma_div_witness(a, b, d);
                }
                Ok(result_json(d))
            },
            None => Err(McpError::validation_error("Quotient is not exactly representable")),
        }
    } else if str_eq(name, TOOL_SQRT) {
        let n = match get_number(arguments, "number") {
            Ok(d) => d,
            Err(e) => {
                return Err(e);
            },
        };
        if n.m < 0 {
            return Err(
                McpError::validation_error("Cannot take square root of negative number"),
            );
        }
        match dec_sqrt(n) {
            Some(d) => {
                proof {
                    crate::dec::lemma_sqrt_witness(n, d);
                }
                Ok(result_json(d))
            },
            None => {
                proof {
                    crate::dec::lemma_sc_bound(n);
                }
                Err(McpError::validation_error("Square root is not exactly representable"))
            },
        }
    } else if str_eq(name, TOOL_ABS) {
        let n = match get_number(arguments, "number") {
            Ok(d) => d,
            Err(e) => {
                return Err(e);
            },
        };
        Ok(result_json(dec_abs(n)))
    } else if str_eq(name, TOOL_FLOOR) {
        let n = match get_number(arguments, "number") {
            Ok(d) => d,
            Err(e) => {
                return Err(e);
            },
        };
        Ok(result_json(dec_floor(n)))
    } else if str_eq(name, TOOL_CEIL) {
        let n = match get_number(arguments, "number") {
            Ok(d) => d,
            Err(e) => {
                return Err(e);
            },
        };
        Ok(result_json(dec_ceil(n)))
    } else if str_eq(name, TOOL_ROUND) {
        let n = match get_number(arguments, "number") {
            Ok(d) => d,
            Err(e) => {
                return Err(e);
            },
        };
        let places: i32 = match get_number_opt(arguments, "decimals") {
            Some(p) => {
                if p.s == 0 && -(SCALE_LIMIT as i128) <= p.m && p.m <= SCALE_LIMIT as i128 {
                    p.m as i32
                } else {
                    return Err(
                        McpError::validation_error(
                            "decimals must be a whole number of decimal places",
                        ),
                    );
                }
            },
            None => 0,
        };
        if places >= 0 {
            Ok(result_json(dec_round(n, places as u32)))
        } else {
            match crate::dec::dec_round_neg(n, (-places) as u32) {
                Some(d) => Ok(result_json(d)),
                None => Err(
                    McpError::validation_error("Rounded value is not exactly representable"),
                ),
            }
        }
    } else if str_eq(name, TOOL_MODULO) {
        let a = match get_number(arguments, "a") {
            Ok(d) => d,
            Err(e) => {
                return Err(e);
            },
        };
        let b = match get_number(arguments, "b") {
            Ok(d) => d,
            Err(e) => {
                return Err(e);
            },
        };
        if a.s != 0 || b.s != 0 {
            return Err(McpError::validation_error("Modulo arguments must be whole numbers"));
        }
        if b.m == 0 {
            return Err(McpError::validation_error("Modulo by zero"));
        }
        let ma: u128 = if a.m < 0 {
            (-a.m) as u128
        } else {
            a.m as u128
        };
        let mb: u128 = if b.m < 0 {
            (-b.m) as u128
        } else {
            b.m as u128
        };
        let rem: u128 = ma % mb;
        let m: i128 = if a.m < 0 {
            -(rem as i128)
        } else {
            rem as i128
        };
        let d = Dec { m, s: 0 };
        proof {
            assert(rem < mb);
            assert(d.wf());
            assert(d.m as int == trunc_rem(a.m as int, b.m as int));
        }
        Ok(result_json(d))
    } else {
        let mut message: String = "Unknown basic math tool: ".to_owned();
        message.append(name);
        Err(McpError { code: -32000, message, data: None })
    }
}

} // verus!
