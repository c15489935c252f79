//! The immutable tool registry: one explicit value, built at startup,
//! shared read-only by every call.

use vstd::prelude::*;
use crate::error::{McpError, McpResult};
use crate::json::{
    jfield, jheight, jview_members, lemma_jview_members, str_eq, JsonV, JsonValue,
};
use crate::tools::traits::ToolRegistry;

verus! {

/// The tool names are pairwise distinct, so one dispatch branch never
/// answers for another.
pub open spec fn tool_names_distinct() -> bool {
    &&& "add"@ != "subtract"@
    &&& "add"@ != "multiply"@
    &&& "add"@ != "divide"@
    &&& "add"@ != "sqrt"@
    &&& "add"@ != "abs"@
    &&& "add"@ != "round"@
    &&& "add"@ != "floor"@
    &&& "add"@ != "ceil"@
    &&& "add"@ != "modulo"@
    &&& "add"@ != "min"@
    &&& "add"@ != "max"@
    &&& "add"@ != "sum"@
    &&& "add"@ != "product"@
    &&& "add"@ != "mean"@
    &&& "add"@ != "median"@
    &&& "add"@ != "mode"@
    &&& "add"@ != "gcd"@
    &&& "add"@ != "lcm"@
    &&& "add"@ != "factorial"@
    &&& "add"@ != "permutation"@
    &&& "add"@ != "combination"@
    &&& "add"@ != "batch_operations"@
    &&& "subtract"@ != "multiply"@
    &&& "subtract"@ != "divide"@
    &&& "subtract"@ != "sqrt"@
    &&& "subtract"@ != "abs"@
    &&& "subtract"@ != "round"@
    &&& "subtract"@ != "floor"@
    &&& "subtract"@ != "ceil"@
    &&& "subtract"@ != "modulo"@
    &&& "subtract"@ != "min"@
    &&& "subtract"@ != "max"@
    &&& "subtract"@ != "sum"@
    &&& "subtract"@ != "product"@
    &&& "subtract"@ != "mean"@
    &&& "subtract"@ != "median"@
    &&& "subtract"@ != "mode"@
    &&& "subtract"@ != "gcd"@
    &&& "subtract"@ != "lcm"@
    &&& "subtract"@ != "factorial"@
    &&& "subtract"@ != "permutation"@
    &&& "subtract"@ != "combination"@
    &&& "subtract"@ != "batch_operations"@
    &&& "multiply"@ != "divide"@
    &&& "multiply"@ != "sqrt"@
    &&& "multiply"@ != "abs"@
    &&& "multiply"@ != "round"@
    &&& "multiply"@ != "floor"@
    &&& "multiply"@ != "ceil"@
    &&& "multiply"@ != "modulo"@
    &&& "multiply"@ != "min"@
    &&& "multiply"@ != "max"@
    &&& "multiply"@ != "sum"@
    &&& "multiply"@ != "product"@
    &&& "multiply"@ != "mean"@
    &&& "multiply"@ != "median"@
    &&& "multiply"@ != "mode"@
    &&& "multiply"@ != "gcd"@
    &&& "multiply"@ != "lcm"@
    &&& "multiply"@ != "factorial"@
    &&& "multiply"@ != "permutation"@
    &&& "multiply"@ != "combination"@
    &&& "multiply"@ != "batch_operations"@
    &&& "divide"@ != "sqrt"@
    &&& "divide"@ != "abs"@
    &&& "divide"@ != "round"@
    &&& "divide"@ != "floor"@
    &&& "divide"@ != "ceil"@
    &&& "divide"@ != "modulo"@
    &&& "divide"@ != "min"@
    &&& "divide"@ != "max"@
    &&& "divide"@ != "sum"@
    &&& "divide"@ != "product"@
    &&& "divide"@ != "mean"@
    &&& "divide"@ != "median"@
    &&& "divide"@ != "mode"@
    &&& "divide"@ != "gcd"@
    &&& "divide"@ != "lcm"@
    &&& "divide"@ != "factorial"@
    &&& "divide"@ != "permutation"@
    &&& "divide"@ != "combination"@
    &&& "divide"@ != "batch_operations"@
    &&& "sqrt"@ != "abs"@
    &&& "sqrt"@ != "round"@
    &&& "sqrt"@ != "floor"@
    &&& "sqrt"@ != "ceil"@
    &&& "sqrt"@ != "modulo"@
    &&& "sqrt"@ != "min"@
    &&& "sqrt"@ != "max"@
    &&& "sqrt"@ != "sum"@
    &&& "sqrt"@ != "product"@
    &&& "sqrt"@ != "mean"@
    &&& "sqrt"@ != "median"@
    &&& "sqrt"@ != "mode"@
    &&& "sqrt"@ != "gcd"@
    &&& "sqrt"@ != "lcm"@
    &&& "sqrt"@ != "factorial"@
    &&& "sqrt"@ != "permutation"@
    &&& "sqrt"@ != "combination"@
    &&& "sqrt"@ != "batch_operations"@
    &&& "abs"@ != "round"@
    &&& "abs"@ != "floor"@
    &&& "abs"@ != "ceil"@
    &&& "abs"@ != "modulo"@
    &&& "abs"@ != "min"@
    &&& "abs"@ != "max"@
    &&& "abs"@ != "sum"@
    &&& "abs"@ != "product"@
    &&& "abs"@ != "mean"@
    &&& "abs"@ != "median"@
    &&& "abs"@ != "mode"@
    &&& "abs"@ != "gcd"@
    &&& "abs"@ != "lcm"@
    &&& "abs"@ != "factorial"@
    &&& "abs"@ != "permutation"@
    &&& "abs"@ != "combination"@
    &&& "abs"@ != "batch_operations"@
    &&& "round"@ != "floor"@
    &&& "round"@ != "ceil"@
    &&& "round"@ != "modulo"@
    &&& "round"@ != "min"@
    &&& "round"@ != "max"@
    &&& "round"@ != "sum"@
    &&& "round"@ != "product"@
    &&& "round"@ != "mean"@
    &&& "round"@ != "median"@
    &&& "round"@ != "mode"@
    &&& "round"@ != "gcd"@
    &&& "round"@ != "lcm"@
    &&& "round"@ != "factorial"@
    &&& "round"@ != "permutation"@
    &&& "round"@ != "combination"@
    &&& "round"@ != "batch_operations"@
    &&& "floor"@ != "ceil"@
    &&& "floor"@ != "modulo"@
    &&& "floor"@ != "min"@
    &&& "floor"@ != "max"@
    &&& "floor"@ != "sum"@
    &&& "floor"@ != "product"@
    &&& "floor"@ != "mean"@
    &&& "floor"@ != "median"@
    &&& "floor"@ != "mode"@
    &&& "floor"@ != "gcd"@
    &&& "floor"@ != "lcm"@
    &&& "floor"@ != "factorial"@
    &&& "floor"@ != "permutation"@
    &&& "floor"@ != "combination"@
    &&& "floor"@ != "batch_operations"@
    &&& "ceil"@ != "modulo"@
    &&& "ceil"@ != "min"@
    &&& "ceil"@ != "max"@
    &&& "ceil"@ != "sum"@
    &&& "ceil"@ != "product"@
    &&& "ceil"@ != "mean"@
    &&& "ceil"@ != "median"@
    &&& "ceil"@ != "mode"@
    &&& "ceil"@ != "gcd"@
    &&& "ceil"@ != "lcm"@
    &&& "ceil"@ != "factorial"@
    &&& "ceil"@ != "permutation"@
    &&& "ceil"@ != "combination"@
    &&& "ceil"@ != "batch_operations"@
    &&& "modulo"@ != "min"@
    &&& "modulo"@ != "max"@
    &&& "modulo"@ != "sum"@
    &&& "modulo"@ != "product"@
    &&& "modulo"@ != "mean"@
    &&& "modulo"@ != "median"@
    &&& "modulo"@ != "mode"@
    &&& "modulo"@ != "gcd"@
    &&& "modulo"@ != "lcm"@
    &&& "modulo"@ != "factorial"@
    &&& "modulo"@ != "permutation"@
    &&& "modulo"@ != "combination"@
    &&& "modulo"@ != "batch_operations"@
    &&& "min"@ != "max"@
    &&& "min"@ != "sum"@
    &&& "min"@ != "product"@
    &&& "min"@ != "mean"@
    &&& "min"@ != "median"@
    &&& "min"@ != "mode"@
    &&& "min"@ != "gcd"@
    &&& "min"@ != "lcm"@
    &&& "min"@ != "factorial"@
    &&& "min"@ != "permutation"@
    &&& "min"@ != "combination"@
    &&& "min"@ != "batch_operations"@
    &&& "max"@ != "sum"@
    &&& "max"@ != "product"@
    &&& "max"@ != "mean"@
    &&& "max"@ != "median"@
    &&& "max"@ != "mode"@
    &&& "max"@ != "gcd"@
    &&& "max"@ != "lcm"@
    &&& "max"@ != "factorial"@
    &&& "max"@ != "permutation"@
    &&& "max"@ != "combination"@
    &&& "max"@ != "batch_operations"@
    &&& "sum"@ != "product"@
    &&& "sum"@ != "mean"@
    &&& "sum"@ != "median"@
    &&& "sum"@ != "mode"@
    &&& "sum"@ != "gcd"@
    &&& "sum"@ != "lcm"@
    &&& "sum"@ != "factorial"@
    &&& "sum"@ != "permutation"@
    &&& "sum"@ != "combination"@
    &&& "sum"@ != "batch_operations"@
    &&& "product"@ != "mean"@
    &&& "product"@ != "median"@
    &&& "product"@ != "mode"@
    &&& "product"@ != "gcd"@
    &&& "product"@ != "lcm"@
    &&& "product"@ != "factorial"@
    &&& "product"@ != "permutation"@
    &&& "product"@ != "combination"@
    &&& "product"@ != "batch_operations"@
    &&& "mean"@ != "median"@
    &&& "mean"@ != "mode"@
    &&& "mean"@ != "gcd"@
    &&& "mean"@ != "lcm"@
    &&& "mean"@ != "factorial"@
    &&& "mean"@ != "permutation"@
    &&& "mean"@ != "combination"@
    &&& "mean"@ != "batch_operations"@
    &&& "median"@ != "mode"@
    &&& "median"@ != "gcd"@
    &&& "median"@ != "lcm"@
    &&& "median"@ != "factorial"@
    &&& "median"@ != "permutation"@
    &&& "median"@ != "combination"@
    &&& "median"@ != "batch_operations"@
    &&& "mode"@ != "gcd"@
    &&& "mode"@ != "lcm"@
    &&& "mode"@ != "factorial"@
    &&& "mode"@ != "permutation"@
    &&& "mode"@ != "combination"@
    &&& "mode"@ != "batch_operations"@
    &&& "gcd"@ != "lcm"@
    &&& "gcd"@ != "factorial"@
    &&& "gcd"@ != "permutation"@
    &&& "gcd"@ != "combination"@
    &&& "gcd"@ != "batch_operations"@
    &&& "lcm"@ != "factorial"@
    &&& "lcm"@ != "permutation"@
    &&& "lcm"@ != "combination"@
    &&& "lcm"@ != "batch_operations"@
    &&& "factorial"@ != "permutation"@
    &&& "factorial"@ != "combination"@
    &&& "factorial"@ != "batch_operations"@
    &&& "permutation"@ != "combination"@
    &&& "permutation"@ != "batch_operations"@
    &&& "combination"@ != "batch_operations"@
}

/// Establishes the pairwise distinctness of the tool names.
pub proof fn lemma_tool_names_distinct()
    ensures
        tool_names_distinct(),
{
    reveal_strlit("add");
    reveal_strlit("subtract");
    reveal_strlit("multiply");
    reveal_strlit("divide");
    reveal_strlit("sqrt");
    reveal_strlit("abs");
    reveal_strlit("round");
    reveal_strlit("floor");
    reveal_strlit("ceil");
    reveal_strlit("modulo");
    reveal_strlit("min");
    reveal_strlit("max");
    reveal_strlit("sum");
    reveal_strlit("product");
    reveal_strlit("mean");
    reveal_strlit("median");
    reveal_strlit("mode");
    reveal_strlit("gcd");
    reveal_strlit("lcm");
    reveal_strlit("factorial");
    reveal_strlit("permutation");
    reveal_strlit("combination");
    reveal_strlit("batch_operations");
    assert("add"@ != "subtract"@) by {
        assert("add"@.len() != "subtract"@.len());
    }
    assert("add"@ != "multiply"@) by {
        assert("add"@.len() != "multiply"@.len());
    }
    assert("add"@ != "divide"@) by {
        assert("add"@.len() != "divide"@.len());
    }
    assert("add"@ != "sqrt"@) by {
        assert("add"@.len() != "sqrt"@.len());
    }
    assert("add"@ != "abs"@) by {
        assert("add"@[1] != "abs"@[1]);
    }
    assert("add"@ != "round"@) by {
        assert("add"@.len() != "round"@.len());
    }
    assert("add"@ != "floor"@) by {
        assert("add"@.len() != "floor"@.len());
    }
    assert("add"@ != "ceil"@) by {
        assert("add"@.len() != "ceil"@.len());
    }
    assert("add"@ != "modulo"@) by {
        assert("add"@.len() != "modulo"@.len());
    }
    assert("add"@ != "min"@) by {
        assert("add"@[0] != "min"@[0]);
    }
    assert("add"@ != "max"@) by {
        assert("add"@[0] != "max"@[0]);
    }
    assert("add"@ != "sum"@) by {
        assert("add"@[0] != "sum"@[0]);
    }
    assert("add"@ != "product"@) by {
        assert("add"@.len() != "product"@.len());
    }
    assert("add"@ != "mean"@) by {
        assert("add"@.len() != "mean"@.len());
    }
    assert("add"@ != "median"@) by {
        assert("add"@.len() != "median"@.len());
    }
    assert("add"@ != "mode"@) by {
        assert("add"@.len() != "mode"@.len());
    }
    assert("add"@ != "gcd"@) by {
        assert("add"@[0] != "gcd"@[0]);
    }
    assert("add"@ != "lcm"@) by {
        assert("add"@[0] != "lcm"@[0]);
    }
    assert("add"@ != "factorial"@) by {
        assert("add"@.len() != "factorial"@.len());
    }
    assert("add"@ != "permutation"@) by {
        assert("add"@.len() != "permutation"@.len());
    }
    assert("add"@ != "combination"@) by {
        assert("add"@.len() != "combination"@.len());
    }
    assert("add"@ != "batch_operations"@) by {
        assert("add"@.len() != "batch_operations"@.len());
    }
    assert("subtract"@ != "multiply"@) by {
        assert("subtract"@[0] != "multiply"@[0]);
    }
    assert("subtract"@ != "divide"@) by {
        assert("subtract"@.len() != "divide"@.len());
    }
    assert("subtract"@ != "sqrt"@) by {
        assert("subtract"@.len() != "sqrt"@.len());
    }
    assert("subtract"@ != "abs"@) by {
        assert("subtract"@.len() != "abs"@.len());
    }
    assert("subtract"@ != "round"@) by {
        assert("subtract"@.len() != "round"@.len());
    }
    assert("subtract"@ != "floor"@) by {
        assert("subtract"@.len() != "floor"@.len());
    }
    assert("subtract"@ != "ceil"@) by {
        assert("subtract"@.len() != "ceil"@.len());
    }
    assert("subtract"@ != "modulo"@) by {
        assert("subtract"@.len() != "modulo"@.len());
    }
    assert("subtract"@ != "min"@) by {
        assert("subtract"@.len() != "min"@.len());
    }
    assert("subtract"@ != "max"@) by {
        assert("subtract"@.len() != "max"@.len());
    }
    assert("subtract"@ != "sum"@) by {
        assert("subtract"@.len() != "sum"@.len());
    }
    assert("subtract"@ != "product"@) by {
        assert("subtract"@.len() != "product"@.len());
    }
    assert("subtract"@ != "mean"@) by {
        assert("subtract"@.len() != "mean"@.len());
    }
    assert("subtract"@ != "median"@) by {
        assert("subtract"@.len() != "median"@.len());
    }
    assert("subtract"@ != "mode"@) by {
        assert("subtract"@.len() != "mode"@.len());
    }
    assert("subtract"@ != "gcd"@) by {
        assert("subtract"@.len() != "gcd"@.len());
    }
    assert("subtract"@ != "lcm"@) by {
        assert("subtract"@.len() != "lcm"@.len());
    }
    assert("subtract"@ != "factorial"@) by {
        assert("subtract"@.len() != "factorial"@.len());
    }
    assert("subtract"@ != "permutation"@) by {
        assert("subtract"@.len() != "permutation"@.len());
    }
    assert("subtract"@ != "combination"@) by {
        assert("subtract"@.len() != "combination"@.len());
    }
    assert("subtract"@ != "batch_operations"@) by {
        assert("subtract"@.len() != "batch_operations"@.len());
    }
    assert("multiply"@ != "divide"@) by {
        assert("multiply"@.len() != "divide"@.len());
    }
    assert("multiply"@ != "sqrt"@) by {
        assert("multiply"@.len() != "sqrt"@.len());
    }
    assert("multiply"@ != "abs"@) by {
        assert("multiply"@.len() != "abs"@.len());
    }
    assert("multiply"@ != "round"@) by {
        assert("multiply"@.len() != "round"@.len());
    }
    assert("multiply"@ != "floor"@) by {
        assert("multiply"@.len() != "floor"@.len());
    }
    assert("multiply"@ != "ceil"@) by {
        assert("multiply"@.len() != "ceil"@.len());
    }
    assert("multiply"@ != "modulo"@) by {
        assert("multiply"@.len() != "modulo"@.len());
    }
    assert("multiply"@ != "min"@) by {
        assert("multiply"@.len() != "min"@.len());
    }
    assert("multiply"@ != "max"@) by {
        assert("multiply"@.len() != "max"@.len());
    }
    assert("multiply"@ != "sum"@) by {
        assert("multiply"@.len() != "sum"@.len());
    }
    assert("multiply"@ != "product"@) by {
        assert("multiply"@.len() != "product"@.len());
    }
    assert("multiply"@ != "mean"@) by {
        assert("multiply"@.len() != "mean"@.len());
    }
    assert("multiply"@ != "median"@) by {
        assert("multiply"@.len() != "median"@.len());
    }
    assert("multiply"@ != "mode"@) by {
        assert("multiply"@.len() != "mode"@.len());
    }
    assert("multiply"@ != "gcd"@) by {
        assert("multiply"@.len() != "gcd"@.len());
    }
    assert("multiply"@ != "lcm"@) by {
        assert("multiply"@.len() != "lcm"@.len());
    }
    assert("multiply"@ != "factorial"@) by {
        assert("multiply"@.len() != "factorial"@.len());
    }
    assert("multiply"@ != "permutation"@) by {
        assert("multiply"@.len() != "permutation"@.len());
    }
    assert("multiply"@ != "combination"@) by {
        assert("multiply"@.len() != "combination"@.len());
    }
    assert("multiply"@ != "batch_operations"@) by {
        assert("multiply"@.len() != "batch_operations"@.len());
    }
    assert("divide"@ != "sqrt"@) by {
        assert("divide"@.len() != "sqrt"@.len());
    }
    assert("divide"@ != "abs"@) by {
        assert("divide"@.len() != "abs"@.len());
    }
    assert("divide"@ != "round"@) by {
        assert("divide"@.len() != "round"@.len());
    }
    assert("divide"@ != "floor"@) by {
        assert("divide"@.len() != "floor"@.len());
    }
    assert("divide"@ != "ceil"@) by {
        assert("divide"@.len() != "ceil"@.len());
    }
    assert("divide"@ != "modulo"@) by {
        assert("divide"@[0] != "modulo"@[0]);
    }
    assert("divide"@ != "min"@) by {
        assert("divide"@.len() != "min"@.len());
    }
    assert("divide"@ != "max"@) by {
        assert("divide"@.len() != "max"@.len());
    }
    assert("divide"@ != "sum"@) by {
        assert("divide"@.len() != "sum"@.len());
    }
    assert("divide"@ != "product"@) by {
        assert("divide"@.len() != "product"@.len());
    }
    assert("divide"@ != "mean"@) by {
        assert("divide"@.len() != "mean"@.len());
    }
    assert("divide"@ != "median"@) by {
        assert("divide"@[0] != "median"@[0]);
    }
    assert("divide"@ != "mode"@) by {
        assert("divide"@.len() != "mode"@.len());
    }
    assert("divide"@ != "gcd"@) by {
        assert("divide"@.len() != "gcd"@.len());
    }
    assert("divide"@ != "lcm"@) by {
        assert("divide"@.len() != "lcm"@.len());
    }
    assert("divide"@ != "factorial"@) by {
        assert("divide"@.len() != "factorial"@.len());
    }
    assert("divide"@ != "permutation"@) by {
        assert("divide"@.len() != "permutation"@.len());
    }
    assert("divide"@ != "combination"@) by {
        assert("divide"@.len() != "combination"@.len());
    }
    assert("divide"@ != "batch_operations"@) by {
        assert("divide"@.len() != "batch_operations"@.len());
    }
    assert("sqrt"@ != "abs"@) by {
        assert("sqrt"@.len() != "abs"@.len());
    }
    assert("sqrt"@ != "round"@) by {
        assert("sqrt"@.len() != "round"@.len());
    }
    assert("sqrt"@ != "floor"@) by {
        assert("sqrt"@.len() != "floor"@.len());
    }
    assert("sqrt"@ != "ceil"@) by {
        assert("sqrt"@[0] != "ceil"@[0]);
    }
    assert("sqrt"@ != "modulo"@) by {
        assert("sqrt"@.len() != "modulo"@.len());
    }
    assert("sqrt"@ != "min"@) by {
        assert("sqrt"@.len() != "min"@.len());
    }
    assert("sqrt"@ != "max"@) by {
        assert("sqrt"@.len() != "max"@.len());
    }
    assert("sqrt"@ != "sum"@) by {
        assert("sqrt"@.len() != "sum"@.len());
    }
    assert("sqrt"@ != "product"@) by {
        assert("sqrt"@.len() != "product"@.len());
    }
    assert("sqrt"@ != "mean"@) by {
        assert("sqrt"@[0] != "mean"@[0]);
    }
    assert("sqrt"@ != "median"@) by {
        assert("sqrt"@.len() != "median"@.len());
    }
    assert("sqrt"@ != "mode"@) by {
        assert("sqrt"@[0] != "mode"@[0]);
    }
    assert("sqrt"@ != "gcd"@) by {
        assert("sqrt"@.len() != "gcd"@.len());
    }
    assert("sqrt"@ != "lcm"@) by {
        assert("sqrt"@.len() != "lcm"@.len());
    }
    assert("sqrt"@ != "factorial"@) by {
        assert("sqrt"@.len() != "factorial"@.len());
    }
    assert("sqrt"@ != "permutation"@) by {
        assert("sqrt"@.len() != "permutation"@.len());
    }
    assert("sqrt"@ != "combination"@) by {
        assert("sqrt"@.len() != "combination"@.len());
    }
    assert("sqrt"@ != "batch_operations"@) by {
        assert("sqrt"@.len() != "batch_operations"@.len());
    }
    assert("abs"@ != "round"@) by {
        assert("abs"@.len() != "round"@.len());
    }
    assert("abs"@ != "floor"@) by {
        assert("abs"@.len() != "floor"@.len());
    }
    assert("abs"@ != "ceil"@) by {
        assert("abs"@.len() != "ceil"@.len());
    }
    assert("abs"@ != "modulo"@) by {
        assert("abs"@.len() != "modulo"@.len());
    }
    assert("abs"@ != "min"@) by {
        assert("abs"@[0] != "min"@[0]);
    }
    assert("abs"@ != "max"@) by {
        assert("abs"@[0] != "max"@[0]);
    }
    assert("abs"@ != "sum"@) by {
        assert("abs"@[0] != "sum"@[0]);
    }
    assert("abs"@ != "product"@) by {
        assert("abs"@.len() != "product"@.len());
    }
    assert("abs"@ != "mean"@) by {
        assert("abs"@.len() != "mean"@.len());
    }
    assert("abs"@ != "median"@) by {
        assert("abs"@.len() != "median"@.len());
    }
    assert("abs"@ != "mode"@) by {
        assert("abs"@.len() != "mode"@.len());
    }
    assert("abs"@ != "gcd"@) by {
        assert("abs"@[0] != "gcd"@[0]);
    }
    assert("abs"@ != "lcm"@) by {
        assert("abs"@[0] != "lcm"@[0]);
    }
    assert("abs"@ != "factorial"@) by {
        assert("abs"@.len() != "factorial"@.len());
    }
    assert("abs"@ != "permutation"@) by {
        assert("abs"@.len() != "permutation"@.len());
    }
    assert("abs"@ != "combination"@) by {
        assert("abs"@.len() != "combination"@.len());
    }
    assert("abs"@ != "batch_operations"@) by {
        assert("abs"@.len() != "batch_operations"@.len());
    }
    assert("round"@ != "floor"@) by {
        assert("round"@[0] != "floor"@[0]);
    }
    assert("round"@ != "ceil"@) by {
        assert("round"@.len() != "ceil"@.len());
    }
    assert("round"@ != "modulo"@) by {
        assert("round"@.len() != "modulo"@.len());
    }
    assert("round"@ != "min"@) by {
        assert("round"@.len() != "min"@.len());
    }
    assert("round"@ != "max"@) by {
        assert("round"@.len() != "max"@.len());
    }
    assert("round"@ != "sum"@) by {
        assert("round"@.len() != "sum"@.len());
    }
    assert("round"@ != "product"@) by {
        assert("round"@.len() != "product"@.len());
    }
    assert("round"@ != "mean"@) by {
        assert("round"@.len() != "mean"@.len());
    }
    assert("round"@ != "median"@) by {
        assert("round"@.len() != "median"@.len());
    }
    assert("round"@ != "mode"@) by {
        assert("round"@.len() != "mode"@.len());
    }
    assert("round"@ != "gcd"@) by {
        assert("round"@.len() != "gcd"@.len());
    }
    assert("round"@ != "lcm"@) by {
        assert("round"@.len() != "lcm"@.len());
    }
    assert("round"@ != "factorial"@) by {
        assert("round"@.len() != "factorial"@.len());
    }
    assert("round"@ != "permutation"@) by {
        assert("round"@.len() != "permutation"@.len());
    }
    assert("round"@ != "combination"@) by {
        assert("round"@.len() != "combination"@.len());
    }
    assert("round"@ != "batch_operations"@) by {
        assert("round"@.len() != "batch_operations"@.len());
    }
    assert("floor"@ != "ceil"@) by {
        assert("floor"@.len() != "ceil"@.len());
    }
    assert("floor"@ != "modulo"@) by {
        assert("floor"@.len() != "modulo"@.len());
    }
    assert("floor"@ != "min"@) by {
        assert("floor"@.len() != "min"@.len());
    }
    assert("floor"@ != "max"@) by {
        assert("floor"@.len() != "max"@.len());
    }
    assert("floor"@ != "sum"@) by {
        assert("floor"@.len() != "sum"@.len());
    }
    assert("floor"@ != "product"@) by {
        assert("floor"@.len() != "product"@.len());
    }
    assert("floor"@ != "mean"@) by {
        assert("floor"@.len() != "mean"@.len());
    }
    assert("floor"@ != "median"@) by {
        assert("floor"@.len() != "median"@.len());
    }
    assert("floor"@ != "mode"@) by {
        assert("floor"@.len() != "mode"@.len());
    }
    assert("floor"@ != "gcd"@) by {
        assert("floor"@.len() != "gcd"@.len());
    }
    assert("floor"@ != "lcm"@) by {
        assert("floor"@.len() != "lcm"@.len());
    }
    assert("floor"@ != "factorial"@) by {
        assert("floor"@.len() != "factorial"@.len());
    }
    assert("floor"@ != "permutation"@) by {
        assert("floor"@.len() != "permutation"@.len());
    }
    assert("floor"@ != "combination"@) by {
        assert("floor"@.len() != "combination"@.len());
    }
    assert("floor"@ != "batch_operations"@) by {
        assert("floor"@.len() != "batch_operations"@.len());
    }
    assert("ceil"@ != "modulo"@) by {
        assert("ceil"@.len() != "modulo"@.len());
    }
    assert("ceil"@ != "min"@) by {
        assert("ceil"@.len() != "min"@.len());
    }
    assert("ceil"@ != "max"@) by {
        assert("ceil"@.len() != "max"@.len());
    }
    assert("ceil"@ != "sum"@) by {
        assert("ceil"@.len() != "sum"@.len());
    }
    assert("ceil"@ != "product"@) by {
        assert("ceil"@.len() != "product"@.len());
    }
    assert("ceil"@ != "mean"@) by {
        assert("ceil"@[0] != "mean"@[0]);
    }
    assert("ceil"@ != "median"@) by {
        assert("ceil"@.len() != "median"@.len());
    }
    assert("ceil"@ != "mode"@) by {
        assert("ceil"@[0] != "mode"@[0]);
    }
    assert("ceil"@ != "gcd"@) by {
        assert("ceil"@.len() != "gcd"@.len());
    }
    assert("ceil"@ != "lcm"@) by {
        assert("ceil"@.len() != "lcm"@.len());
    }
    assert("ceil"@ != "factorial"@) by {
        assert("ceil"@.len() != "factorial"@.len());
    }
    assert("ceil"@ != "permutation"@) by {
        assert("ceil"@.len() != "permutation"@.len());
    }
    assert("ceil"@ != "combination"@) by {
        assert("ceil"@.len() != "combination"@.len());
    }
    assert("ceil"@ != "batch_operations"@) by {
        assert("ceil"@.len() != "batch_operations"@.len());
    }
    assert("modulo"@ != "min"@) by {
        assert("modulo"@.len() != "min"@.len());
    }
    assert("modulo"@ != "max"@) by {
        assert("modulo"@.len() != "max"@.len());
    }
    assert("modulo"@ != "sum"@) by {
        assert("modulo"@.len() != "sum"@.len());
    }
    assert("modulo"@ != "product"@) by {
        assert("modulo"@.len() != "product"@.len());
    }
    assert("modulo"@ != "mean"@) by {
        assert("modulo"@.len() != "mean"@.len());
    }
    assert("modulo"@ != "median"@) by {
        assert("modulo"@[1] != "median"@[1]);
    }
    assert("modulo"@ != "mode"@) by {
        assert("modulo"@.len() != "mode"@.len());
    }
    assert("modulo"@ != "gcd"@) by {
        assert("modulo"@.len() != "gcd"@.len());
    }
    assert("modulo"@ != "lcm"@) by {
        assert("modulo"@.len() != "lcm"@.len());
    }
    assert("modulo"@ != "factorial"@) by {
        assert("modulo"@.len() != "factorial"@.len());
    }
    assert("modulo"@ != "permutation"@) by {
        assert("modulo"@.len() != "permutation"@.len());
    }
    assert("modulo"@ != "combination"@) by {
        assert("modulo"@.len() != "combination"@.len());
    }
    assert("modulo"@ != "batch_operations"@) by {
        assert("modulo"@.len() != "batch_operations"@.len());
    }
    assert("min"@ != "max"@) by {
        assert("min"@[1] != "max"@[1]);
    }
    assert("min"@ != "sum"@) by {
        assert("min"@[0] != "sum"@[0]);
    }
    assert("min"@ != "product"@) by {
        assert("min"@.len() != "product"@.len());
    }
    assert("min"@ != "mean"@) by {
        assert("min"@.len() != "mean"@.len());
    }
    assert("min"@ != "median"@) by {
        assert("min"@.len() != "median"@.len());
    }
    assert("min"@ != "mode"@) by {
        assert("min"@.len() != "mode"@.len());
    }
    assert("min"@ != "gcd"@) by {
        assert("min"@[0] != "gcd"@[0]);
    }
    assert("min"@ != "lcm"@) by {
        assert("min"@[0] != "lcm"@[0]);
    }
    assert("min"@ != "factorial"@) by {
        assert("min"@.len() != "factorial"@.len());
    }
    assert("min"@ != "permutation"@) by {
        assert("min"@.len() != "permutation"@.len());
    }
    assert("min"@ != "combination"@) by {
        assert("min"@.len() != "combination"@.len());
    }
    assert("min"@ != "batch_operations"@) by {
        assert("min"@.len() != "batch_operations"@.len());
    }
    assert("max"@ != "sum"@) by {
        assert("max"@[0] != "sum"@[0]);
    }
    assert("max"@ != "product"@) by {
        assert("max"@.len() != "product"@.len());
    }
    assert("max"@ != "mean"@) by {
        assert("max"@.len() != "mean"@.len());
    }
    assert("max"@ != "median"@) by {
        assert("max"@.len() != "median"@.len());
    }
    assert("max"@ != "mode"@) by {
        assert("max"@.len() != "mode"@.len());
    }
    assert("max"@ != "gcd"@) by {
        assert("max"@[0] != "gcd"@[0]);
    }
    assert("max"@ != "lcm"@) by {
        assert("max"@[0] != "lcm"@[0]);
    }
    assert("max"@ != "factorial"@) by {
        assert("max"@.len() != "factorial"@.len());
    }
    assert("max"@ != "permutation"@) by {
        assert("max"@.len() != "permutation"@.len());
    }
    assert("max"@ != "combination"@) by {
        assert("max"@.len() != "combination"@.len());
    }
    assert("max"@ != "batch_operations"@) by {
        assert("max"@.len() != "batch_operations"@.len());
    }
    assert("sum"@ != "product"@) by {
        assert("sum"@.len() != "product"@.len());
    }
    assert("sum"@ != "mean"@) by {
        assert("sum"@.len() != "mean"@.len());
    }
    assert("sum"@ != "median"@) by {
        assert("sum"@.len() != "median"@.len());
    }
    assert("sum"@ != "mode"@) by {
        assert("sum"@.len() != "mode"@.len());
    }
    assert("sum"@ != "gcd"@) by {
        assert("sum"@[0] != "gcd"@[0]);
    }
    assert("sum"@ != "lcm"@) by {
        assert("sum"@[0] != "lcm"@[0]);
    }
    assert("sum"@ != "factorial"@) by {
        assert("sum"@.len() != "factorial"@.len());
    }
    assert("sum"@ != "permutation"@) by {
        assert("sum"@.len() != "permutation"@.len());
    }
    assert("sum"@ != "combination"@) by {
        assert("sum"@.len() != "combination"@.len());
    }
    assert("sum"@ != "batch_operations"@) by {
        assert("sum"@.len() != "batch_operations"@.len());
    }
    assert("product"@ != "mean"@) by {
        assert("product"@.len() != "mean"@.len());
    }
    assert("product"@ != "median"@) by {
        assert("product"@.len() != "median"@.len());
    }
    assert("product"@ != "mode"@) by {
        assert("product"@.len() != "mode"@.len());
    }
    assert("product"@ != "gcd"@) by {
        assert("product"@.len() != "gcd"@.len());
    }
    assert("product"@ != "lcm"@) by {
        assert("product"@.len() != "lcm"@.len());
    }
    assert("product"@ != "factorial"@) by {
        assert("product"@.len() != "factorial"@.len());
    }
    assert("product"@ != "permutation"@) by {
        assert("product"@.len() != "permutation"@.len());
    }
    assert("product"@ != "combination"@) by {
        assert("product"@.len() != "combination"@.len());
    }
    assert("product"@ != "batch_operations"@) by {
        assert("product"@.len() != "batch_operations"@.len());
    }
    assert("mean"@ != "median"@) by {
        assert("mean"@.len() != "median"@.len());
    }
    assert("mean"@ != "mode"@) by {
        assert("mean"@[1] != "mode"@[1]);
    }
    assert("mean"@ != "gcd"@) by {
        assert("mean"@.len() != "gcd"@.len());
    }
    assert("mean"@ != "lcm"@) by {
        assert("mean"@.len() != "lcm"@.len());
    }
    assert("mean"@ != "factorial"@) by {
        assert("mean"@.len() != "factorial"@.len());
    }
    assert("mean"@ != "permutation"@) by {
        assert("mean"@.len() != "permutation"@.len());
    }
    assert("mean"@ != "combination"@) by {
        assert("mean"@.len() != "combination"@.len());
    }
    assert("mean"@ != "batch_operations"@) by {
        assert("mean"@.len() != "batch_operations"@.len());
    }
    assert("median"@ != "mode"@) by {
        assert("median"@.len() != "mode"@.len());
    }
    assert("median"@ != "gcd"@) by {
        assert("median"@.len() != "gcd"@.len());
    }
    assert("median"@ != "lcm"@) by {
        assert("median"@.len() != "lcm"@.len());
    }
    assert("median"@ != "factorial"@) by {
        assert("median"@.len() != "factorial"@.len());
    }
    assert("median"@ != "permutation"@) by {
        assert("median"@.len() != "permutation"@.len());
    }
    assert("median"@ != "combination"@) by {
        assert("median"@.len() != "combination"@.len());
    }
    assert("median"@ != "batch_operations"@) by {
        assert("median"@.len() != "batch_operations"@.len());
    }
    assert("mode"@ != "gcd"@) by {
        assert("mode"@.len() != "gcd"@.len());
    }
    assert("mode"@ != "lcm"@) by {
        assert("mode"@.len() != "lcm"@.len());
    }
    assert("mode"@ != "factorial"@) by {
        assert("mode"@.len() != "factorial"@.len());
    }
    assert("mode"@ != "permutation"@) by {
        assert("mode"@.len() != "permutation"@.len());
    }
    assert("mode"@ != "combination"@) by {
        assert("mode"@.len() != "combination"@.len());
    }
    assert("mode"@ != "batch_operations"@) by {
        assert("mode"@.len() != "batch_operations"@.len());
    }
    assert("gcd"@ != "lcm"@) by {
        assert("gcd"@[0] != "lcm"@[0]);
    }
    assert("gcd"@ != "factorial"@) by {
        assert("gcd"@.len() != "factorial"@.len());
    }
    assert("gcd"@ != "permutation"@) by {
        assert("gcd"@.len() != "permutation"@.len());
    }
    assert("gcd"@ != "combination"@) by {
        assert("gcd"@.len() != "combination"@.len());
    }
    assert("gcd"@ != "batch_operations"@) by {
        assert("gcd"@.len() != "batch_operations"@.len());
    }
    assert("lcm"@ != "factorial"@) by {
        assert("lcm"@.len() != "factorial"@.len());
    }
    assert("lcm"@ != "permutation"@) by {
        assert("lcm"@.len() != "permutation"@.len());
    }
    assert("lcm"@ != "combination"@) by {
        assert("lcm"@.len() != "combination"@.len());
    }
    assert("lcm"@ != "batch_operations"@) by {
        assert("lcm"@.len() != "batch_operations"@.len());
    }
    assert("factorial"@ != "permutation"@) by {
        assert("factorial"@.len() != "permutation"@.len());
    }
    assert("factorial"@ != "combination"@) by {
        assert("factorial"@.len() != "combination"@.len());
    }
    assert("factorial"@ != "batch_operations"@) by {
        assert("factorial"@.len() != "batch_operations"@.len());
    }
    assert("permutation"@ != "combination"@) by {
        assert("permutation"@[0] != "combination"@[0]);
    }
    assert("permutation"@ != "batch_operations"@) by {
        assert("permutation"@.len() != "batch_operations"@.len());
    }
    assert("combination"@ != "batch_operations"@) by {
        assert("combination"@.len() != "batch_operations"@.len());
    }
}

/// Whether the default registry knows a tool by this name.
pub open spec fn known_tool(n: Seq<char>) -> bool {
    ||| n == "add"@
    ||| n == "subtract"@
    ||| n == "multiply"@
    ||| n == "divide"@
    ||| n == "sqrt"@
    ||| n == "abs"@
    ||| n == "round"@
    ||| n == "floor"@
    ||| n == "ceil"@
    ||| n == "modulo"@
    ||| n == "min"@
    ||| n == "max"@
    ||| n == "sum"@
    ||| n == "product"@
    ||| n == "mean"@
    ||| n == "median"@
    ||| n == "mode"@
    ||| n == "gcd"@
    ||| n == "lcm"@
    ||| n == "factorial"@
    ||| n == "permutation"@
    ||| n == "combination"@
    ||| n == "batch_operations"@
}

/// What one call of the default registry's table returns, by tool name:
/// the conjunction of every tool's own contract, and the unknown-tool
/// failure outside the table. A batch nested in a batch is held to the
/// batch answer's shape (`batch_shape`); the top-level batch contract in
/// `batch_spec` ties each operation back to this predicate.
pub open spec fn tool_outcome(name: Seq<char>, args: JsonV, r: McpResult<JsonValue>) -> bool {
    &&& name == "add"@ ==> crate::tools::basic_math::add_spec(args, r)
    &&& name == "subtract"@ ==> crate::tools::basic_math::subtract_spec(args, r)
    &&& name == "multiply"@ ==> crate::tools::basic_math::multiply_spec(args, r)
    &&& name == "divide"@ ==> crate::tools::basic_math::divide_spec(args, r)
    &&& name == "sqrt"@ ==> crate::tools::basic_math::sqrt_spec(args, r)
    &&& name == "abs"@ ==> crate::tools::basic_math::abs_spec(args, r)
    &&& name == "round"@ ==> crate::tools::basic_math::round_spec(args, r)
    &&& name == "floor"@ ==> crate::tools::basic_math::floor_spec(args, r)
    &&& name == "ceil"@ ==> crate::tools::basic_math::ceil_spec(args, r)
    &&& name == "modulo"@ ==> crate::tools::basic_math::modulo_spec(args, r)
    &&& name == "min"@ ==> crate::tools::statistics::min_spec(args, r)
    &&& name == "max"@ ==> crate::tools::statistics::max_spec(args, r)
    &&& name == "sum"@ ==> crate::tools::statistics::stat_sum_spec(args, r)
    &&& name == "product"@ ==> crate::tools::statistics::stat_product_spec(args, r)
    &&& name == "mean"@ ==> crate::tools::statistics::mean_spec(args, r)
    &&& name == "median"@ ==> crate::tools::statistics::median_spec(args, r)
    &&& name == "mode"@ ==> crate::tools::statistics::mode_spec(args, r)
    &&& name == "gcd"@ ==> crate::tools::algebra::gcd_tool_spec(args, r)
    &&& name == "lcm"@ ==> crate::tools::algebra::lcm_tool_spec(args, r)
    &&& name == "factorial"@ ==> crate::tools::algebra::factorial_tool_spec(args, r)
    &&& name == "permutation"@ ==> crate::tools::combinatorics::permutation_tool_spec(args, r)
    &&& name == "combination"@ ==> crate::tools::combinatorics::combination_tool_spec(args, r)
    &&& name == "batch_operations"@ ==> crate::tools::batch::batch_shape(args, r)
    &&& !known_tool(name) ==> (r matches Err(e) && e.code == -32000 && e.message@
        == "Unknown tool: "@ + name)
}

/// Runs the tool `name` on `arguments` through the default registry.
///
/// Every recognized tool keeps its own exact contract; a name outside the
/// table is the domain failure the dispatcher embeds in `result`.
pub fn execute_tool(name: &str, arguments: &JsonValue) -> (r: McpResult<JsonValue>)
    ensures
        tool_outcome(name@, arguments.jview(), r),
        name@ == "batch_operations"@ ==> crate::tools::batch::batch_spec(arguments.jview(), r),
    decreases jheight(arguments.jview()), 1int,
{
    proof {
        lemma_tool_names_distinct();
    }
    if str_eq(name, "add") || str_eq(name, "subtract") || str_eq(name, "multiply") || str_eq(
        name,
        "divide",
    ) || str_eq(name, "sqrt") || str_eq(name, "abs") || str_eq(name, "round") || str_eq(
        name,
        "floor",
    ) || str_eq(name, "ceil") || str_eq(name, "modulo") {
        crate::tools::basic_math::execute(name, arguments)
    } else if str_eq(name, "min") || str_eq(name, "max") || str_eq(name, "sum") || str_eq(
        name,
        "product",
    ) || str_eq(name, "mean") || str_eq(name, "median") || str_eq(name, "mode") {
        crate::tools::statistics::execute(name, arguments)
    } else if str_eq(name, "gcd") || str_eq(name, "lcm") || str_eq(name, "factorial") {
        crate::tools::algebra::execute(name, arguments)
    } else if str_eq(name, "permutation") || str_eq(name, "combination") {
        crate::tools::combinatorics::execute(name, arguments)
    } else if str_eq(name, "batch_operations") {
        crate::tools::batch::execute(name, arguments)
    } else {
        let mut message: String = "Unknown tool: ".to_owned();
        message.append(name);
        Err(McpError { code: -32000, message, data: None })
    }
}

/// The names in the registry, in listing order.
pub open spec fn tool_name_at(i: int) -> Seq<char> {
    if i == 0 {
        "add"@
    } else if i == 1 {
        "subtract"@
    } else if i == 2 {
        "multiply"@
    } else if i == 3 {
        "divide"@
    } else if i == 4 {
        "sqrt"@
    } else if i == 5 {
        "abs"@
    } else if i == 6 {
        "round"@
    } else if i == 7 {
        "floor"@
    } else if i == 8 {
        "ceil"@
    } else if i == 9 {
        "modulo"@
    } else if i == 10 {
        "batch_operations"@
    } else if i == 11 {
        "min"@
    } else if i == 12 {
        "max"@
    } else if i == 13 {
        "sum"@
    } else if i == 14 {
        "product"@
    } else if i == 15 {
        "mean"@
    } else if i == 16 {
        "median"@
    } else if i == 17 {
        "mode"@
    } else if i == 18 {
        "gcd"@
    } else if i == 19 {
        "lcm"@
    } else if i == 20 {
        "factorial"@
    } else if i == 21 {
        "permutation"@
    } else {
        "combination"@
    }
}

/// How many tools the registry lists.
pub const TOOL_COUNT: usize = 23;

/// One tool descriptor: name, description, and input schema.
pub fn tool_descriptor(name: &str, description: &str, schema: JsonValue) -> (r: JsonValue)
    ensures
        jfield(r.jview(), "name"@) == Option::Some(JsonV::Text(name@)),
{
    let mut members: Vec<(String, JsonValue)> = Vec::new();
    members.push(("name".to_owned(), JsonValue::Text(name.to_owned())));
    members.push(("description".to_owned(), JsonValue::Text(description.to_owned())));
    members.push(("inputSchema".to_owned(), schema));
    proof {
        lemma_jview_members(members@);
        assert(jview_members(members@)[0] == ("name"@, JsonV::Text(name@)));
    }
    JsonValue::Object(members)
}

/// An input schema asking for an array of numbers under `numbers`.
pub fn schema_numbers() -> JsonValue {
    let mut item: Vec<(String, JsonValue)> = Vec::new();
    item.push(("type".to_owned(), JsonValue::Text("number".to_owned())));
    let mut prop: Vec<(String, JsonValue)> = Vec::new();
    prop.push(("type".to_owned(), JsonValue::Text("array".to_owned())));
    prop.push(("items".to_owned(), JsonValue::Object(item)));
    prop.push((
        "description".to_owned(),
        JsonValue::Text("Array of numbers".to_owned()),
    ));
    let mut props: Vec<(String, JsonValue)> = Vec::new();
    props.push(("numbers".to_owned(), JsonValue::Object(prop)));
    let mut required: Vec<JsonValue> = Vec::new();
    required.push(JsonValue::Text("numbers".to_owned()));
    let mut schema: Vec<(String, JsonValue)> = Vec::new();
    schema.push(("type".to_owned(), JsonValue::Text("object".to_owned())));
    schema.push(("properties".to_owned(), JsonValue::Object(props)));
    schema.push(("required".to_owned(), JsonValue::Array(required)));
    JsonValue::Object(schema)
}

/// The input schema of the batch tool: an array of operation objects.
pub fn schema_operations() -> JsonValue {
    let mut prop: Vec<(String, JsonValue)> = Vec::new();
    prop.push(("type".to_owned(), JsonValue::Text("array".to_owned())));
    prop.push((
        "description".to_owned(),
        JsonValue::Text("Array of operations to execute".to_owned()),
    ));
    let mut props: Vec<(String, JsonValue)> = Vec::new();
    props.push(("operations".to_owned(), JsonValue::Object(prop)));
    let mut required: Vec<JsonValue> = Vec::new();
    required.push(JsonValue::Text("operations".to_owned()));
    let mut schema: Vec<(String, JsonValue)> = Vec::new();
    schema.push(("type".to_owned(), JsonValue::Text("object".to_owned())));
    schema.push(("properties".to_owned(), JsonValue::Object(props)));
    schema.push(("required".to_owned(), JsonValue::Array(required)));
    JsonValue::Object(schema)
}

/// An input schema asking for the named number arguments.
pub fn schema_number_keys(keys: &Vec<&str>) -> JsonValue {
    let mut props: Vec<(String, JsonValue)> = Vec::new();
    let mut required: Vec<JsonValue> = Vec::new();
    let mut i: usize = 0;
    while i < keys.len()
        decreases keys.len() - i,
    {
        let mut prop: Vec<(String, JsonValue)> = Vec::new();
        prop.push(("type".to_owned(), JsonValue::Text("number".to_owned())));
        props.push((keys[i].to_owned(), JsonValue::Object(prop)));
        required.push(JsonValue::Text(keys[i].to_owned()));
        i = i + 1;
    }
    let mut schema: Vec<(String, JsonValue)> = Vec::new();
    schema.push(("type".to_owned(), JsonValue::Text("object".to_owned())));
    schema.push(("properties".to_owned(), JsonValue::Object(props)));
    schema.push(("required".to_owned(), JsonValue::Array(required)));
    JsonValue::Object(schema)
}

/// The listing the default registry serves: one descriptor per tool, in
/// the fixed order, each named.
pub open spec fn default_listing(tools: JsonV) -> bool {
    tools matches JsonV::Array(els) && els.len() == TOOL_COUNT as int && forall|i: int|
        0 <= i < TOOL_COUNT as int ==> jfield(#[trigger] els[i], "name"@) == Option::Some(
            JsonV::Text(tool_name_at(i)),
        )
}

/// All tool descriptors, in listing order.
pub fn get_all_tools() -> (r: JsonValue)
    ensures
        default_listing(r.jview()),
{
    let mut tools: Vec<JsonValue> = Vec::new();
    let mut two: Vec<&str> = Vec::new();
    two.push("a");
    two.push("b");
    let mut one: Vec<&str> = Vec::new();
    one.push("number");
    let mut round_keys: Vec<&str> = Vec::new();
    round_keys.push("number");
    round_keys.push("decimals");
    let mut nr: Vec<&str> = Vec::new();
    nr.push("n");
    nr.push("r");
    let mut n_only: Vec<&str> = Vec::new();
    n_only.push("n");
    tools.push(
        tool_descriptor("add", "Add two or more numbers together", schema_numbers()),
    );
    tools.push(
        tool_descriptor(
            "subtract",
            "Subtract the second number from the first",
            schema_number_keys(&two),
        ),
    );
    tools.push(
        tool_descriptor("multiply", "Multiply two or more numbers together", schema_numbers()),
    );
    tools.push(tool_descriptor("divide", "Divide two numbers", schema_number_keys(&two)));
    tools.push(
        tool_descriptor(
            "sqrt",
            "Calculate the square root of a number",
            schema_number_keys(&one),
        ),
    );
    tools.push(
        tool_descriptor("abs", "Get the absolute value of a number", schema_number_keys(&one)),
    );
    tools.push(
        tool_descriptor(
            "round",
            "Round a number to the nearest integer or to a number of decimal places",
            schema_number_keys(&round_keys),
        ),
    );
    tools.push(
        tool_descriptor(
            "floor",
            "Round down to the nearest integer",
            schema_number_keys(&one),
        ),
    );
    tools.push(
        tool_descriptor("ceil", "Round up to the nearest integer", schema_number_keys(&one)),
    );
    tools.push(
        tool_descriptor(
            "modulo",
            "Calculate the remainder of division",
            schema_number_keys(&two),
        ),
    );
    tools.push(
        tool_descriptor(
            "batch_operations",
            "Execute multiple math operations in a single call; each operation has a unique ID and runs independently",
            schema_operations(),
        ),
    );
    tools.push(
        tool_descriptor(
            "min",
            "Find the minimum value in a list of numbers",
            schema_numbers(),
        ),
    );
    tools.push(
        tool_descriptor(
            "max",
            "Find the maximum value in a list of numbers",
            schema_numbers(),
        ),
    );
    tools.push(
        tool_descriptor("sum", "Calculate the sum of a list of numbers", schema_numbers()),
    );
    tools.push(
        tool_descriptor(
            "product",
            "Calculate the product of a list of numbers",
            schema_numbers(),
        ),
    );
    tools.push(
        tool_descriptor(
            "mean",
            "Calculate the arithmetic mean (average) of a list of numbers",
            schema_numbers(),
        ),
    );
    tools.push(
        tool_descriptor(
            "median",
            "Calculate the median of a list of numbers",
            schema_numbers(),
        ),
    );
    tools.push(
        tool_descriptor(
            "mode",
            "Find the mode (most frequently occurring value) of a list of numbers",
            schema_numbers(),
        ),
    );
    tools.push(
        tool_descriptor(
            "gcd",
            "Calculate the greatest common divisor of two numbers",
            schema_number_keys(&two),
        ),
    );
    tools.push(
        tool_descriptor(
            "lcm",
            "Calculate the least common multiple of two numbers",
            schema_number_keys(&two),
        ),
    );
    tools.push(
        tool_descriptor(
            "factorial",
            "Calculate the factorial of a non-negative integer",
            schema_number_keys(&n_only),
        ),
    );
    tools.push(
        tool_descriptor(
            "permutation",
            "Count the permutations of r items drawn from n",
            schema_number_keys(&nr),
        ),
    );
    tools.push(
        tool_descriptor(
            "combination",
            "Count the combinations of r items drawn from n",
            schema_number_keys(&nr),
        ),
    );
    proof {
        crate::json::lemma_jview_elems(tools@);
    }
    JsonValue::Array(tools)
}

/// All tool descriptors behind a shared handle, for callers that keep the
/// listing around.
pub fn get_all_tools_arc() -> (r: std::sync::Arc<JsonValue>)
    ensures
        default_listing((*r).jview()),
{
    std::sync::Arc::new(get_all_tools())
}

/// The default registry: the fixed table above.
pub struct DefaultToolRegistry;

impl ToolRegistry for DefaultToolRegistry {
    open spec fn listing_spec(&self, tools: JsonV) -> bool {
        default_listing(tools)
    }

    open spec fn outcome_spec(&self, name: Seq<char>, args: JsonV, r: McpResult<JsonValue>) -> bool {
        tool_outcome(name, args, r) && (name == "batch_operations"@
            ==> crate::tools::batch::batch_spec(args, r))
    }

    fn get_all_tools(&self) -> JsonValue {
        get_all_tools()
    }

    fn execute_tool(&self, name: &str, arguments: &JsonValue) -> McpResult<JsonValue> {
        execute_tool(name, arguments)
    }
}

} // verus!
