//! Number-theoretic tools on whole numbers.

use vstd::prelude::*;
use crate::dec::{iabs, Dec, MANTISSA_LIMIT};
use crate::error::{McpError, McpResult};
use crate::json::{str_eq, JsonV, JsonValue};
use crate::utils::args::{get_number, num_of, result_json, result_jv};

verus! {

/// The greatest common divisor of two magnitudes.
pub open spec fn gcd_spec(a: nat, b: nat) -> nat
    decreases b,
{
    if b == 0 {
        a
    } else {
        gcd_spec(b, a % b)
    }
}

/// The factorial.
pub open spec fn fact(n: nat) -> nat
    decreases n,
{
    if n == 0 {
        1
    } else {
        n * fact((n - 1) as nat)
    }
}

/// What `gcd` returns: the greatest common divisor of the magnitudes of
/// two whole numbers.
pub open spec fn gcd_tool_spec(args: JsonV, r: McpResult<JsonValue>) -> bool {
    match (num_of(args, "a"@), num_of(args, "b"@)) {
        (Option::Some(a), Option::Some(b)) => {
            if a.s != 0 || b.s != 0 {
                r matches Err(e) && e.code == -32001
            } else {
                r matches Ok(v) && exists|d: Dec|
                    d.wf() && d.s == 0 && d.m as int == gcd_spec(
                        iabs(a.m as int),
                        iabs(b.m as int),
                    ) && v.jview() == result_jv(d)
            }
        },
        _ => r is Err,
    }
}

/// What `lcm` returns: the least common multiple, or a failure when it
/// leaves the exact range. Zero with anything is zero.
pub open spec fn lcm_tool_spec(args: JsonV, r: McpResult<JsonValue>) -> bool {
    match (num_of(args, "a"@), num_of(args, "b"@)) {
        (Option::Some(a), Option::Some(b)) => {
            if a.s != 0 || b.s != 0 {
                r matches Err(e) && e.code == -32001
            } else if a.m == 0 || b.m == 0 {
                r matches Ok(v) && v.jview() == result_jv(Dec { m: 0, s: 0 })
            } else {
                let g = gcd_spec(iabs(a.m as int), iabs(b.m as int));
                let l = (iabs(a.m as int) / g) * iabs(b.m as int);
                if l <= MANTISSA_LIMIT as int {
                    r matches Ok(v) && exists|d: Dec|
                        d.wf() && d.s == 0 && d.m as int == l && v.jview() == result_jv(d)
                } else {
                    r matches Err(e) && e.code == -32001
                }
            }
        },
        _ => r is Err,
    }
}

/// What `factorial` returns: `n!` for whole `0 <= n`, while it stays in
/// the exact range.
pub open spec fn factorial_tool_spec(args: JsonV, r: McpResult<JsonValue>) -> bool {
    match num_of(args, "n"@) {
        Option::Some(n) => {
            if n.s != 0 || n.m < 0 {
                r matches Err(e) && e.code == -32001
            } else if n.m > 170 || fact(n.m as nat) > MANTISSA_LIMIT as int {
                r matches Err(e) && e.code == -32001
            } else {
                r matches Ok(v) && exists|d: Dec|
                    d.wf() && d.s == 0 && d.m as int == fact(n.m as nat) && v.jview() == result_jv(
                        d,
                    )
            }
        },
        _ => r is Err,
    }
}

/// Euclid's algorithm on magnitudes.
fn gcd_u128(a0: u128, b0: u128) -> (r: u128)
    ensures
        r as nat == gcd_spec(a0 as nat, b0 as nat),
        b0 == 0 ==> r == a0,
        b0 != 0 ==> r <= b0,
        a0 != 0 || b0 != 0 ==> r >= 1,
    decreases b0,
{
    if b0 == 0 {
        a0
    } else {
        proof {
            assert((a0 as nat) % (b0 as nat) < b0 as nat) by (nonlinear_arith)
                requires
                    b0 > 0,
            ;
            lemma_gcd_bounds(b0 as nat, (a0 as nat % b0 as nat) as nat);
        }
        gcd_u128(b0, a0 % b0)
    }
}

/// The divisor Euclid finds is positive when either argument is, and
/// bounded by the second when that is not zero.
proof fn lemma_gcd_bounds(a: nat, b: nat)
    ensures
        a != 0 || b != 0 ==> gcd_spec(a, b) >= 1,
        b != 0 ==> gcd_spec(a, b) <= b,
    decreases b,
{
    if b != 0 {
        assert(a % b < b) by (nonlinear_arith)
            requires
                b > 0,
        ;
        lemma_gcd_bounds(b, a % b);
    }
}

/// Runs one of the whole-number algebra tools.
#[verifier::loop_isolation(false)]
pub fn execute(name: &str, arguments: &JsonValue) -> (r: McpResult<JsonValue>)
    ensures
        name@ == "gcd"@ ==> gcd_tool_spec(arguments.jview(), r),
        name@ == "lcm"@ ==> lcm_tool_spec(arguments.jview(), r),
        name@ == "factorial"@ ==> factorial_tool_spec(arguments.jview(), r),
{
    proof {
        crate::tools::registry::lemma_tool_names_distinct();
    }
    if str_eq(name, "gcd") {
        let a = match get_number(arguments, "a") {
            Ok(d) => d,
            Err(e) => {
                return Err(e);
            },
        };
        let b = match get_number(arguments, "b") {
            Ok(d) => d,
            Err(e) => {
                return Err(e);
            },
        };
        if a.s != 0 || b.s != 0 {
            return Err(McpError::validation_error("gcd arguments must be whole numbers"));
        }
        let ma: u128 = if a.m < 0 {
            (-a.m) as u128
        } else {
            a.m as u128
        };
        let mb: u128 = if b.m < 0 {
            (-b.m) as u128
        } else {
            b.m as u128
        };
        let g = gcd_u128(ma, mb);
        let d = Dec { m: g as i128, s: 0 };
        proof {
            assert(d.wf());
        }
        Ok(result_json(d))
    } else if str_eq(name, "lcm") {
        let a = match get_number(arguments, "a") {
            Ok(d) => d,
            Err(e) => {
                return Err(e);
            },
        };
        let b = match get_number(arguments, "b") {
            Ok(d) => d,
            Err(e) => {
                return Err(e);
            },
        };
        if a.s != 0 || b.s != 0 {
            return Err(McpError::validation_error("lcm arguments must be whole numbers"));
        }
        if a.m == 0 || b.m == 0 {
            return Ok(result_json(Dec { m: 0, s: 0 }));
        }
        let ma: u128 = if a.m < 0 {
            (-a.m) as u128
        } else {
            a.m as u128
        };
        let mb: u128 = if b.m < 0 {
            (-b.m) as u128
        } else {
            b.m as u128
        };
        let g = gcd_u128(ma, mb);
        let q = ma / g;
        proof {
            assert(q <= ma) by {
                vstd::arithmetic::div_mod::lemma_div_nonincreasing(ma as int, g as int);
            }
            assert((q as int) * (mb as int) <= MANTISSA_LIMIT as int * MANTISSA_LIMIT as int)
                by (nonlinear_arith)
                requires
                    q as int <= MANTISSA_LIMIT as int,
                    mb as int <= MANTISSA_LIMIT as int,
                    q >= 0,
                    mb >= 0,
            ;
        }
        let l: u128 = q * mb;
        if l > MANTISSA_LIMIT as u128 {
            return Err(McpError::validation_error("LCM calculation would overflow"));
        }
        let d = Dec { m: l as i128, s: 0 };
        Ok(result_json(d))
    } else if str_eq(name, "factorial") {
        let n = match get_number(arguments, "n") {
            Ok(d) => d,
            Err(e) => {
                return Err(e);
            },
        };
        if n.s != 0 {
            return Err(McpError::validation_error("n must be a whole number"));
        }
        if n.m < 0 {
            return Err(
                McpError::validation_error("Factorial is not defined for negative numbers"),
            );
        }
        if n.m > 170 {
            return Err(
                McpError::validation_error(
                    "Factorial overflow: n must be <= 170 to prevent overflow",
                ),
            );
        }
        let nn: u128 = n.m as u128;
        let mut acc: u128 = 1;
        let mut i: u128 = 0;
        while i < nn
            invariant
                0 <= i <= nn,
                nn <= 170,
                acc as nat == fact(i as nat),
                acc <= MANTISSA_LIMIT as u128,
            decreases nn - i,
        {
            proof {
                assert((acc as int) * ((i + 1) as int) <= MANTISSA_LIMIT as int * 171)
                    by (nonlinear_arith)
                    requires
                        acc as int <= MANTISSA_LIMIT as int,
                        0 <= (i as int) + 1 <= 171,
                        acc >= 0,
                ;
            }
            let next: u128 = acc * (i + 1);
            if next > MANTISSA_LIMIT as u128 {
                proof {
                    lemma_fact_grows((i + 1) as nat, nn as nat);
                    assert(fact((i + 1) as nat) == (i + 1) as nat * fact(i as nat));
                }
                return Err(
                    McpError::validation_error("Factorial overflow: result is out of range"),
                );
            }
            acc = next;
            i = i + 1;
            proof {
                assert(acc as nat == fact(i as nat)) by {
                    assert(fact(i as nat) == i as nat * fact((i - 1) as nat));
                }
            }
        }
        let d = Dec { m: acc as i128, s: 0 };
        Ok(result_json(d))
    } else {
        let mut message: String = "Unknown algebra tool: ".to_owned();
        message.append(name);
        Err(McpError { code: -32000, message, data: None })
    }
}

/// The factorial never shrinks as `n` grows.
proof fn lemma_fact_grows(a: nat, b: nat)
    requires
        a <= b,
    ensures
        fact(a) <= fact(b),
    decreases b,
{
    if a < b {
        lemma_fact_grows(a, (b - 1) as nat);
        assert(fact(b) == b * fact((b - 1) as nat));
        assert(b * fact((b - 1) as nat) >= 1 * fact((b - 1) as nat)) by (nonlinear_arith)
            requires
                b >= 1,
                fact((b - 1) as nat) >= 0,
        ;
    }
}

} // verus!
