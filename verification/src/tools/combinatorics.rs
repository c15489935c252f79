//! Counting tools on whole numbers.

use vstd::prelude::*;
use crate::dec::{Dec, MANTISSA_LIMIT};
use crate::error::{McpError, McpResult};
use crate::json::{str_eq, JsonV, JsonValue};
use crate::utils::args::{get_number, num_of, result_json, result_jv};

verus! {

/// Falling factorial: `n * (n-1) * ... * (n-r+1)`.
pub open spec fn perm_count(n: nat, r: nat) -> nat
    decreases r,
{
    if r == 0 {
        1
    } else {
        perm_count(n, (r - 1) as nat) * ((n - r + 1) as nat)
    }
}

/// Binomial coefficient, by Pascal's rule.
pub open spec fn choose_count(n: nat, r: nat) -> nat
    decreases n, r,
{
    if r == 0 {
        1
    } else if r > n {
        0
    } else {
        choose_count((n - 1) as nat, (r - 1) as nat) + choose_count((n - 1) as nat, r)
    }
}

/// What `permutation` returns: `P(n, r)` for whole `0 <= r <= n <= 170`,
/// while it stays in the exact range.
pub open spec fn permutation_tool_spec(args: JsonV, r: McpResult<JsonValue>) -> bool {
    match (num_of(args, "n"@), num_of(args, "r"@)) {
        (Option::Some(n), Option::Some(k)) => {
            if n.s != 0 || k.s != 0 || n.m < 0 || k.m < 0 || k.m > n.m || n.m > 170 {
                r matches Err(e) && e.code == -32001
            } else if perm_count(n.m as nat, k.m as nat) > MANTISSA_LIMIT as int {
                r matches Err(e) && e.code == -32001
            } else {
                r matches Ok(v) && exists|d: Dec|
                    d.wf() && d.s == 0 && d.m as int == perm_count(n.m as nat, k.m as nat)
                        && v.jview() == result_jv(d)
            }
        },
        _ => r is Err,
    }
}

/// What `combination` returns: `C(n, r)` for whole `0 <= r <= n <= 170`,
/// while it stays in the exact range.
pub open spec fn combination_tool_spec(args: JsonV, r: McpResult<JsonValue>) -> bool {
    match (num_of(args, "n"@), num_of(args, "r"@)) {
        (Option::Some(n), Option::Some(k)) => {
            if n.s != 0 || k.s != 0 || n.m < 0 || k.m < 0 || k.m > n.m || n.m > 170 {
                r matches Err(e) && e.code == -32001
            } else if choose_count(n.m as nat, k.m as nat) > MANTISSA_LIMIT as int {
                r matches Err(e) && e.code == -32001
            } else {
                r matches Ok(v) && exists|d: Dec|
                    d.wf() && d.s == 0 && d.m as int == choose_count(n.m as nat, k.m as nat)
                        && v.jview() == result_jv(d)
            }
        },
        _ => r is Err,
    }
}

/// Reads a whole argument in `0..=170`, shared by both tools.
fn get_small_whole(arguments: &JsonValue, key: &str) -> (r: McpResult<u64>)
    ensures
        match r {
            Ok(v) => num_of(arguments.jview(), key@) matches Option::Some(d) && d.s == 0 && 0
                <= d.m <= 170 && v as int == d.m as int,
            Err(e) => match num_of(arguments.jview(), key@) {
                Option::Some(d) => (d.s != 0 || d.m < 0 || d.m > 170) && e.code == -32001,
                Option::None => true,
            },
        },
{
    let d = match get_number(arguments, key) {
        Ok(d) => d,
        Err(e) => {
            return Err(e);
        },
    };
    if d.s != 0 {
        let mut message: String = key.to_owned();
        message.append(" must be a whole number");
        return Err(McpError { code: -32001, message, data: None });
    }
    if d.m < 0 {
        let mut message: String = key.to_owned();
        message.append(" must be non-negative");
        return Err(McpError { code: -32001, message, data: None });
    }
    if d.m > 170 {
        let mut message: String = key.to_owned();
        message.append(" must be at most 170");
        return Err(McpError { code: -32001, message, data: None });
    }
    Ok(d.m as u64)
}

/// Runs one of the counting tools.
#[verifier::loop_isolation(false)]
pub fn execute(name: &str, arguments: &JsonValue) -> (r: McpResult<JsonValue>)
    ensures
        name@ == "permutation"@ ==> permutation_tool_spec(arguments.jview(), r),
        name@ == "combination"@ ==> combination_tool_spec(arguments.jview(), r),
{
    proof {
        crate::tools::registry::lemma_tool_names_distinct();
    }
    if str_eq(name, "permutation") {
        let n = match get_small_whole(arguments, "n") {
            Ok(v) => v,
            Err(e) => {
                return Err(e);
            },
        };
        let k = match get_small_whole(arguments, "r") {
            Ok(v) => v,
            Err(e) => {
                return Err(e);
            },
        };
        if k > n {
            return Err(McpError::validation_error("Permutation: r must be <= n"));
        }
        let mut acc: u128 = 1;
        let mut i: u64 = 0;
        while i < k
            invariant
                0 <= i <= k <= n <= 170,
                acc as nat == perm_count(n as nat, i as nat),
                acc <= MANTISSA_LIMIT as u128,
            decreases k - i,
        {
            let factor: u128 = (n - i) as u128;
            proof {
                assert((acc as int) * (factor as int) <= MANTISSA_LIMIT as int * 171)
                    by (nonlinear_arith)
                    requires
                        0 <= acc as int <= MANTISSA_LIMIT as int,
                        0 <= factor as int <= 170,
                ;
            }
            let next: u128 = acc * factor;
            if next > MANTISSA_LIMIT as u128 {
                proof {
                    lemma_perm_grows(n as nat, (i + 1) as nat, k as nat);
                }
                return Err(
                    McpError::validation_error("Permutation overflow: result is out of range"),
                );
            }
            acc = next;
            i = i + 1;
        }
        Ok(result_json(Dec { m: acc as i128, s: 0 }))
    } else if str_eq(name, "combination") {
        let n = match get_small_whole(arguments, "n") {
            Ok(v) => v,
            Err(e) => {
                return Err(e);
            },
        };
        let k = match get_small_whole(arguments, "r") {
            Ok(v) => v,
            Err(e) => {
                return Err(e);
            },
        };
        if k > n {
            return Err(McpError::validation_error("Combination: r must be <= n"));
        }
        // Pascal's rule, row by row, with a sticky cap one past the bound.
        let cap: u128 = MANTISSA_LIMIT as u128 + 1;
        let mut row: Vec<u128> = Vec::new();
        row.push(1);
        let mut j: usize = 1;
        while j <= k as usize
            invariant
                1 <= j <= k + 1,
                row@.len() == j as int,
                forall|x: int|
                    0 <= x < j ==> (#[trigger] row@[x]) as int == clamp(
                        choose_count(0nat, x as nat),
                    ),
            decreases k as int + 1 - j,
        {
            row.push(0);
            j = j + 1;
        }
        let mut step: u64 = 1;
        while step <= n
            invariant
                1 <= step <= n + 1,
                k <= n <= 170,
                row@.len() == k as int + 1,
                forall|x: int|
                    0 <= x <= k ==> (#[trigger] row@[x]) as int == clamp(
                        choose_count((step - 1) as nat, x as nat),
                    ),
            decreases n as int + 1 - step,
        {
            // Walk the row from the right so each cell still holds the
            // previous row's value when it is read.
            let mut x: usize = k as usize;
            while x >= 1
                invariant
                    0 <= x <= k,
                    row@.len() == k as int + 1,
                    forall|y: int|
                        0 <= y <= x ==> (#[trigger] row@[y]) as int == clamp(
                            choose_count((step - 1) as nat, y as nat),
                        ),
                    forall|y: int|
                        x < y <= k ==> (#[trigger] row@[y]) as int == clamp(
                            choose_count(step as nat, y as nat),
                        ),
                decreases x,
            {
                let a = row[x - 1];
                let b = row[x];
                proof {
                    lemma_clamp_bounds(choose_count((step - 1) as nat, (x - 1) as nat));
                    lemma_clamp_bounds(choose_count((step - 1) as nat, x as nat));
                }
                let total: u128 = a + b;
                let v: u128 = if total > MANTISSA_LIMIT as u128 {
                    cap
                } else {
                    total
                };
                row.set(x, v);
                proof {
                    assert(choose_count(step as nat, x as nat) == choose_count(
                        (step - 1) as nat,
                        (x - 1) as nat,
                    ) + choose_count((step - 1) as nat, x as nat)) by {
                        assert(x as nat >= 1 && x as nat <= step as nat || x as nat > step as nat);
                        if x as nat > step as nat {
                            lemma_choose_zero(step as nat, x as nat);
                            lemma_choose_zero((step - 1) as nat, (x - 1) as nat);
                            lemma_choose_zero((step - 1) as nat, x as nat);
                        }
                    }
                }
                x = x - 1;
            }
            step = step + 1;
        }
        let c = row[k as usize];
        proof {
            lemma_clamp_bounds(choose_count(n as nat, k as nat));
        }
        if c > MANTISSA_LIMIT as u128 {
            return Err(
                McpError::validation_error("Combination overflow: result is out of range"),
            );
        }
        Ok(result_json(Dec { m: c as i128, s: 0 }))
    } else {
        let mut message: String = "Unknown combinatorics tool: ".to_owned();
        message.append(name);
        Err(McpError { code: -32000, message, data: None })
    }
}

/// Values are clamped one past the mantissa bound.
pub open spec fn clamp(v: nat) -> int {
    if v > MANTISSA_LIMIT as int {
        MANTISSA_LIMIT as int + 1
    } else {
        v as int
    }
}

proof fn lemma_clamp_bounds(v: nat)
    ensures
        0 <= clamp(v) <= MANTISSA_LIMIT as int + 1,
        clamp(v) <= MANTISSA_LIMIT as int ==> clamp(v) == v,
{
}

/// Choosing everything leaves exactly one way.
proof fn lemma_choose_all(n: nat)
    ensures
        choose_count(n, n) == 1,
    decreases n,
{
    if n > 0 {
        lemma_choose_all((n - 1) as nat);
        lemma_choose_zero((n - 1) as nat, n);
    }
}

/// Choosing `r` of `n` counts the same as leaving `r` of `n` out.
pub proof fn lemma_choose_symmetry(n: nat, r: nat)
    requires
        r <= n,
    ensures
        choose_count(n, r) == choose_count(n, (n - r) as nat),
    decreases n,
{
    if r == 0 {
        lemma_choose_all(n);
    } else if r == n {
        lemma_choose_all(n);
    } else {
        lemma_choose_symmetry((n - 1) as nat, (r - 1) as nat);
        lemma_choose_symmetry((n - 1) as nat, r);
        assert(choose_count(n, r) == choose_count((n - 1) as nat, (r - 1) as nat) + choose_count(
            (n - 1) as nat,
            r,
        ));
        assert(choose_count(n, (n - r) as nat) == choose_count((n - 1) as nat, (n - r - 1) as nat)
            + choose_count((n - 1) as nat, (n - r) as nat));
    }
}

/// Above the top row index, the count is zero; Pascal's rule still reads
/// correctly at the edge.
proof fn lemma_choose_zero(n: nat, r: nat)
    requires
        r > n,
    ensures
        choose_count(n, r) == 0,
    decreases n,
{
    if r != 0 && n != 0 {
        lemma_choose_zero((n - 1) as nat, (r - 1) as nat);
        lemma_choose_zero((n - 1) as nat, r);
    }
}

/// The falling factorial never shrinks as more factors join.
proof fn lemma_perm_grows(n: nat, a: nat, b: nat)
    requires
        a <= b <= n,
    ensures
        perm_count(n, a) <= perm_count(n, b),
    decreases b,
{
    if a < b {
        lemma_perm_grows(n, a, (b - 1) as nat);
        assert(perm_count(n, b) == perm_count(n, (b - 1) as nat) * ((n - b + 1) as nat));
        assert(perm_count(n, (b - 1) as nat) * ((n - b + 1) as nat) >= perm_count(
            n,
            (b - 1) as nat,
        ) * 1) by (nonlinear_arith)
            requires
                (n - b + 1) as int >= 1,
                perm_count(n, (b - 1) as nat) >= 0,
        ;
    }
}

} // verus!
