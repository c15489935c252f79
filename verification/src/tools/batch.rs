//! The batch meta-operation: several tool calls in one request.

use vstd::prelude::*;
use crate::dec::digits_of;
use crate::error::{McpError, McpResult};
use crate::json::{
    jfield, jheight, jview_members, lemma_jheight_elem, lemma_jlookup_height, lemma_jview_elems,
    lemma_jview_members, JsonV, JsonValue,
};

verus! {

pub const TOOL_BATCH: &'static str = "batch_operations";

/// Most operations one batch may carry.
pub const MAX_BATCH_SIZE: usize = 50;

/// A single requested operation.
#[derive(Debug)]
pub struct BatchOperation {
    /// Identifier echoed in the matching result.
    pub id: String,
    /// Name of the tool to run.
    pub tool: String,
    /// Arguments for the tool.
    pub arguments: JsonValue,
}

/// The outcome of a single operation.
#[derive(Debug)]
pub struct BatchOperationResult {
    /// Identifier of the originating operation.
    pub id: String,
    /// Whether the operation succeeded.
    pub success: bool,
    /// The tool result, on success.
    pub result: Option<JsonValue>,
    /// The failure message, otherwise.
    pub error: Option<String>,
}

/// The identity, tool name, and arguments of an operation object.
pub open spec fn op_fields(op: JsonV) -> Option<(Seq<char>, Seq<char>, JsonV)> {
    match (jfield(op, "id"@), jfield(op, "tool"@), jfield(op, "arguments"@)) {
        (
            Option::Some(JsonV::Text(id)),
            Option::Some(JsonV::Text(tool)),
            Option::Some(args),
        ) => Option::Some((id, tool, args)),
        _ => Option::None,
    }
}

/// All operations' fields, when each is well shaped.
pub open spec fn ops_fields(ops: Seq<JsonV>) -> Option<Seq<(Seq<char>, Seq<char>, JsonV)>>
    decreases ops,
{
    if ops.len() == 0 {
        Option::Some(Seq::empty())
    } else {
        match (ops_fields(ops.drop_last()), op_fields(ops.last())) {
            (Option::Some(pre), Option::Some(f)) => Option::Some(pre.push(f)),
            _ => Option::None,
        }
    }
}

/// Whether all operation identifiers differ.
pub open spec fn ids_unique(fs: Seq<(Seq<char>, Seq<char>, JsonV)>) -> bool {
    forall|i: int, j: int| 0 <= i < j < fs.len() ==> (#[trigger] fs[i]).0 != (#[trigger] fs[j]).0
}

/// How many operations succeeded.
pub open spec fn count_trues(flags: Seq<bool>) -> int
    decreases flags,
{
    if flags.len() == 0 {
        0
    } else {
        count_trues(flags.drop_last()) + if flags.last() {
            1int
        } else {
            0int
        }
    }
}

/// The document of one operation's result: the echoed id, the success
/// flag, and the result or the error message.
pub open spec fn op_result_jv(id: Seq<char>, success: bool, out: JsonV) -> JsonV {
    JsonV::Object(
        seq![("id"@, JsonV::Text(id)), ("success"@, JsonV::Bool(success))] + (if success {
            seq![("result"@, out)]
        } else {
            seq![("error"@, out)]
        }),
    )
}

/// The shape of a batch answer: rejection conditions, id echo, and a
/// summary consistent with some per-operation flags. The flags are tied
/// to the sub-tools' own contracts by `batch_spec` below; this weaker
/// form is what a batch nested inside another batch is held to.
pub open spec fn batch_shape(args: JsonV, r: McpResult<JsonValue>) -> bool {
    match jfield(args, "operations"@) {
        Option::Some(JsonV::Array(ops)) => match ops_fields(ops) {
            Option::Some(fs) => {
                if ops.len() == 0 || ops.len() > MAX_BATCH_SIZE as int || !ids_unique(fs) {
                    r matches Err(e) && e.code == -32602
                } else {
                    r matches Ok(v) && exists|flags: Seq<bool>, outs: Seq<JsonV>|
                        {
                            &&& flags.len() == fs.len()
                            &&& outs.len() == fs.len()
                            &&& v.jview() == batch_result_jv(fs, flags, outs)
                        }
                }
            },
            Option::None => r matches Err(e) && e.code == -32602,
        },
        _ => r matches Err(e) && e.code == -32602,
    }
}

/// The document a sub-operation's outcome contributes: the tool result on
/// success, the failure message otherwise.
pub open spec fn out_of(r: McpResult<JsonValue>) -> JsonV {
    match r {
        Ok(v) => v.jview(),
        Err(e) => JsonV::Text(e.message@),
    }
}

/// The success flags of a list of outcomes.
pub open spec fn flags_of(rs: Seq<McpResult<JsonValue>>) -> Seq<bool> {
    Seq::new(rs.len(), |i: int| rs[i] is Ok)
}

/// The documents of a list of outcomes.
pub open spec fn outs_of(rs: Seq<McpResult<JsonValue>>) -> Seq<JsonV> {
    Seq::new(rs.len(), |i: int| out_of(rs[i]))
}

/// What `batch_operations` returns. A malformed, empty, oversized, or
/// duplicated batch is rejected whole; otherwise each operation's outcome
/// meets its own tool's contract, each result echoes its operation's id
/// with the success flag of that outcome, and the summary counts exactly
/// the successes.
pub open spec fn batch_spec(args: JsonV, r: McpResult<JsonValue>) -> bool {
    match jfield(args, "operations"@) {
        Option::Some(JsonV::Array(ops)) => match ops_fields(ops) {
            Option::Some(fs) => {
                if ops.len() == 0 || ops.len() > MAX_BATCH_SIZE as int || !ids_unique(fs) {
                    r matches Err(e) && e.code == -32602
                } else {
                    r matches Ok(v) && exists|rs: Seq<McpResult<JsonValue>>|
                        {
                            &&& rs.len() == fs.len()
                            &&& (forall|i: int|
                                0 <= i < fs.len()
                                    ==> crate::tools::registry::tool_outcome(
                                    (#[trigger] fs[i]).1,
                                    fs[i].2,
                                    rs[i],
                                ))
                            &&& v.jview() == batch_result_jv(fs, flags_of(rs), outs_of(rs))
                        }
                }
            },
            Option::None => r matches Err(e) && e.code == -32602,
        },
        _ => r matches Err(e) && e.code == -32602,
    }
}

/// Extracts and checks the operations of a batch request.
#[verifier::loop_isolation(false)]
fn parse_operations(arguments: &JsonValue) -> (r: McpResult<Vec<BatchOperation>>)
    ensures
        match r {
            Ok(ops) => {
                &&& jfield(arguments.jview(), "operations"@) matches Option::Some(
                    JsonV::Array(els),
                ) && ops_fields(els) matches Option::Some(fs) && fs.len() == ops@.len() && (forall|
                    i: int,
                |
                    0 <= i < ops@.len() ==> (#[trigger] ops@[i]).id@ == fs[i].0 && ops@[i].tool@
                        == fs[i].1 && ops@[i].arguments.jview() == fs[i].2) && ids_unique(fs) && 1
                    <= els.len() <= MAX_BATCH_SIZE as int
                &&& forall|i: int|
                    0 <= i < ops@.len() ==> jheight((#[trigger] ops@[i]).arguments.jview())
                        < jheight(arguments.jview())
            },
            Err(e) => e.code == -32602 && (match jfield(arguments.jview(), "operations"@) {
                Option::Some(JsonV::Array(els)) => match ops_fields(els) {
                    Option::Some(fs) => els.len() == 0 || els.len() > MAX_BATCH_SIZE as int
                        || !ids_unique(fs),
                    Option::None => true,
                },
                _ => true,
            }),
        },
{
    let items = match arguments.get("operations") {
        Some(v) => match v {
            JsonValue::Array(items) => items,
            _ => {
                return Err(McpError::invalid_params("Invalid batch arguments: operations"));
            },
        },
        None => {
            return Err(McpError::invalid_params("Invalid batch arguments: operations"));
        },
    };
    let ghost els = crate::json::jview_elems(items@);
    proof {
        lemma_jview_elems(items@);
    }
    if items.len() == 0 {
        return Err(McpError::invalid_params("No operations provided"));
    }
    if items.len() > MAX_BATCH_SIZE {
        return Err(McpError::invalid_params("Batch size exceeds maximum of 50 operations"));
    }
    let mut ops: Vec<BatchOperation> = Vec::new();
    let mut i: usize = 0;
    while i < items.len()
        invariant
            0 <= i <= items@.len(),
            els == crate::json::jview_elems(items@),
            els.len() == items@.len(),
            forall|x: int| 0 <= x < items@.len() ==> els[x] == (#[trigger] items@[x]).jview(),
            ops_fields(els.take(i as int)) matches Option::Some(fs) && fs.len() == ops@.len() && (
            forall|x: int|
                0 <= x < ops@.len() ==> (#[trigger] ops@[x]).id@ == fs[x].0 && ops@[x].tool@
                    == fs[x].1 && ops@[x].arguments.jview() == fs[x].2),
            forall|x: int|
                0 <= x < ops@.len() ==> jheight((#[trigger] ops@[x]).arguments.jview()) < jheight(
                    JsonV::Array(els),
                ),
        decreases items@.len() - i,
    {
        proof {
            assert(els.take(i + 1).drop_last() =~= els.take(i as int));
            assert(els.take(i + 1).last() == items@[i as int].jview());
        }
        let item = &items[i];
        let id: String = match item.get("id") {
            Some(JsonValue::Text(s)) => s.clone(),
            _ => {
                proof {
                    lemma_ops_fields_bad(els, i as int);
                }
                return Err(
                    McpError::invalid_params("Invalid batch arguments: operation id"),
                );
            },
        };
        let tool: String = match item.get("tool") {
            Some(JsonValue::Text(s)) => s.clone(),
            _ => {
                proof {
                    lemma_ops_fields_bad(els, i as int);
                }
                return Err(
                    McpError::invalid_params("Invalid batch arguments: operation tool"),
                );
            },
        };
        let op_args: JsonValue = match item.get("arguments") {
            Some(v) => v.deep_clone(),
            None => {
                proof {
                    lemma_ops_fields_bad(els, i as int);
                }
                return Err(
                    McpError::invalid_params("Invalid batch arguments: operation arguments"),
                );
            },
        };
        proof {
            // The arguments tree sits under the operation, which sits in
            // the array.
            let opv = els[i as int];
            match opv {
                JsonV::Object(ms) => {
                    lemma_jlookup_height(ms, "arguments"@);
                },
                _ => {},
            }
            lemma_jheight_elem(els, i as int);
        }
        ops.push(BatchOperation { id, tool, arguments: op_args });
        i = i + 1;
    }
    proof {
        assert(els.take(els.len() as int) =~= els);
        // The operations array sits under the request object, so every
        // argument tree is strictly below the request.
        match arguments.jview() {
            JsonV::Object(ms) => {
                lemma_jlookup_height(ms, "operations"@);
            },
            _ => {},
        }
    }
    // All-or-nothing: duplicate identifiers reject the whole batch.
    let mut i: usize = 0;
    while i < ops.len()
        invariant
            0 <= i <= ops@.len(),
            forall|x: int, y: int| 0 <= x < y < i ==> (#[trigger] ops@[x]).id@ != (
            #[trigger] ops@[y]).id@,
        decreases ops@.len() - i,
    {
        let mut j: usize = 0;
        while j < i
            invariant
                0 <= j <= i < ops@.len(),
                forall|y: int| 0 <= y < j ==> (#[trigger] ops@[y]).id@ != ops@[i as int].id@,
            decreases i - j,
        {
            if ops[j].id.eq(&ops[i].id) {
                let mut message: String = "Duplicate operation ID: ".to_owned();
                message.append(ops[i].id.as_str());
                return Err(McpError { code: -32602, message, data: None });
            }
            j = j + 1;
        }
        i = i + 1;
    }
    proof {
        let els2 = (match jfield(arguments.jview(), "operations"@) {
            Option::Some(JsonV::Array(e)) => e,
            _ => Seq::empty(),
        });
        let fs = ops_fields(els2)->Some_0;
        assert(ids_unique(fs)) by {
            assert forall|x: int, y: int| 0 <= x < y < fs.len() implies (#[trigger] fs[x]).0 != (
            #[trigger] fs[y]).0 by {
                assert(ops@[x].id@ == fs[x].0 && ops@[y].id@ == fs[y].0);
            }
        }
    }
    Ok(ops)
}

/// A badly shaped operation poisons the whole list.
proof fn lemma_ops_fields_bad(els: Seq<JsonV>, i: int)
    requires
        0 <= i < els.len(),
        op_fields(els[i]) is None,
    ensures
        ops_fields(els) is None,
    decreases els,
{
    if i == els.len() - 1 {
    } else {
        assert(els.drop_last()[i] == els[i]);
        lemma_ops_fields_bad(els.drop_last(), i);
    }
}

/// Runs a batch of operations, each independently.
#[verifier::loop_isolation(false)]
pub fn execute(name: &str, arguments: &JsonValue) -> (r: McpResult<JsonValue>)
    ensures
        batch_spec(arguments.jview(), r),
        batch_shape(arguments.jview(), r),
    decreases jheight(arguments.jview()), 0int,
{
    let ops = match parse_operations(arguments) {
        Ok(ops) => ops,
        Err(e) => {
            return Err(e);
        },
    };
    let ghost fs = (match jfield(arguments.jview(), "operations"@) {
        Option::Some(JsonV::Array(els)) => ops_fields(els)->Some_0,
        _ => Seq::empty(),
    });
    let mut results: Vec<JsonValue> = Vec::new();
    let ghost mut flags: Seq<bool> = Seq::empty();
    let ghost mut outs: Seq<JsonV> = Seq::empty();
    let ghost mut rs: Seq<McpResult<JsonValue>> = Seq::empty();
    let mut successful: usize = 0;
    let mut i: usize = 0;
    while i < ops.len()
        invariant
            0 <= i <= ops@.len(),
            flags.len() == i as int,
            outs.len() == i as int,
            rs.len() == i as int,
            results@.len() == i as int,
            successful as int == count_trues(flags),
            successful <= i,
            forall|x: int|
                0 <= x < i ==> crate::tools::registry::tool_outcome(
                    (#[trigger] fs[x]).1,
                    fs[x].2,
                    rs[x],
                ),
            forall|x: int| 0 <= x < i ==> (#[trigger] flags[x]) == (rs[x] is Ok),
            forall|x: int| 0 <= x < i ==> (#[trigger] outs[x]) == out_of(rs[x]),
            forall|x: int|
                0 <= x < i ==> (#[trigger] results@[x]).jview() == op_result_jv(
                    fs[x].0,
                    flags[x],
                    outs[x],
                ),
        decreases ops@.len() - i,
    {
        let op = &ops[i];
        let outcome = crate::tools::registry::execute_tool(op.tool.as_str(), &op.arguments);
        proof {
            rs = rs.push(outcome);
        }
        let mut members: Vec<(String, JsonValue)> = Vec::new();
        members.push(("id".to_owned(), JsonValue::Text(op.id.clone())));
        let ok: bool = match &outcome {
            Ok(_) => true,
            Err(_) => false,
        };
        members.push(("success".to_owned(), JsonValue::Bool(ok)));
        let ghost out_jv: JsonV = (match &outcome {
            Ok(v) => v.jview(),
            Err(e) => JsonV::Text(e.message@),
        });
        match outcome {
            Ok(v) => {
                members.push(("result".to_owned(), v));
            },
            Err(e) => {
                members.push(("error".to_owned(), JsonValue::Text(e.message)));
            },
        }
        proof {
            lemma_jview_members(members@);
            let got = jview_members(members@);
            let want = (match op_result_jv(fs[i as int].0, ok, out_jv) {
                JsonV::Object(ms) => ms,
                _ => Seq::empty(),
            });
            assert(got.len() == want.len());
            assert(forall|x: int| 0 <= x < got.len() ==> got[x] == want[x]);
            assert(got =~= want);
        }
        results.push(JsonValue::Object(members));
        proof {
            let flags_prev = flags;
            flags = flags.push(ok);
            outs = outs.push(out_jv);
            assert(flags.drop_last() =~= flags_prev);
            assert(count_trues(flags) == count_trues(flags_prev) + if ok {
                1int
            } else {
                0int
            });
        }
        if ok {
            successful = successful + 1;
        }
        i = i + 1;
    }
    // Assemble the results array and the summary.
    let total = ops.len();
    let failed = total - successful;
    let mut summary: Vec<(String, JsonValue)> = Vec::new();
    summary.push(("total".to_owned(), JsonValue::Num(crate::dec::usize_string(total))));
    summary.push((
        "successful".to_owned(),
        JsonValue::Num(crate::dec::usize_string(successful)),
    ));
    summary.push(("failed".to_owned(), JsonValue::Num(crate::dec::usize_string(failed))));
    let mut top: Vec<(String, JsonValue)> = Vec::new();
    top.push(("results".to_owned(), JsonValue::Array(results)));
    top.push(("summary".to_owned(), JsonValue::Object(summary)));
    let out = JsonValue::Object(top);
    proof {
        lemma_count_trues_bound(flags);
        lemma_jview_members(summary@);
        assert(jview_members(summary@) =~= seq![
            ("total"@, JsonV::Num(digits_of(fs.len()))),
            ("successful"@, JsonV::Num(digits_of(count_trues(flags) as nat))),
            ("failed"@, JsonV::Num(digits_of((fs.len() - count_trues(flags)) as nat))),
        ]);
        let rows = Seq::new(fs.len(), |x: int| op_result_jv(fs[x].0, flags[x], outs[x]));
        assert(crate::json::jview_elems(results@) =~= rows) by {
            lemma_jview_elems(results@);
        }
        lemma_jview_members(top@);
        assert(jview_members(top@) =~= seq![
            ("results"@, JsonV::Array(rows)),
            ("summary"@, JsonV::Object(jview_members(summary@))),
        ]);
        assert(out.jview() == batch_result_jv(fs, flags, outs));
        // The concrete outcomes witness the per-operation contract form.
        assert(flags =~= flags_of(rs));
        assert(outs =~= outs_of(rs));
        assert(out.jview() == batch_result_jv(fs, flags_of(rs), outs_of(rs)));
    }
    Ok(out)
}

/// The whole response document of a successful batch.
pub open spec fn batch_result_jv(
    fs: Seq<(Seq<char>, Seq<char>, JsonV)>,
    flags: Seq<bool>,
    outs: Seq<JsonV>,
) -> JsonV {
    JsonV::Object(
        seq![
            (
                "results"@,
                JsonV::Array(
                    Seq::new(fs.len(), |i: int| op_result_jv(fs[i].0, flags[i], outs[i])),
                ),
            ),
            (
                "summary"@,
                JsonV::Object(
                    seq![
                        ("total"@, JsonV::Num(digits_of(fs.len()))),
                        ("successful"@, JsonV::Num(digits_of(count_trues(flags) as nat))),
                        (
                            "failed"@,
                            JsonV::Num(digits_of((fs.len() - count_trues(flags)) as nat)),
                        ),
                    ],
                ),
            ),
        ],
    )
}

/// The count of successes never passes the count of operations.
proof fn lemma_count_trues_bound(flags: Seq<bool>)
    ensures
        0 <= count_trues(flags) <= flags.len(),
    decreases flags,
{
    if flags.len() > 0 {
        lemma_count_trues_bound(flags.drop_last());
    }
}

} // verus!
