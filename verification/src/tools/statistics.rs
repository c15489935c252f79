//! Statistics tools over lists of numbers, computed exactly.

use vstd::prelude::*;
use vstd::multiset::Multiset;
use vstd::seq_lib::group_to_multiset_ensures;
use crate::dec::{
    dec_add, dec_div, dec_sum, dec_prod, div_representable, lemma_div_witness, lemma_wf_unique,
    spec_dec_add, spec_dec_div, sum_chain, prod_chain, Dec,
};
use crate::error::{McpError, McpResult};
use crate::json::{jfield, jview_members, str_eq, JsonV, JsonValue};
use crate::utils::args::{
    get_number_array, lemma_parse_elems_len, num_of, parse_elems, result_json, result_jv,
};

verus! {

/// The total order the statistics sort by: value first, then the (unique)
/// representation fields to break ties among ill-formed inputs.
pub open spec fn dec_leq() -> spec_fn(Dec, Dec) -> bool {
    |a: Dec, b: Dec|
        a.sc() < b.sc() || (a.sc() == b.sc() && (a.m < b.m || (a.m == b.m && a.s <= b.s)))
}

pub proof fn lemma_dec_leq_total()
    ensures
        vstd::relations::total_ordering(dec_leq()),
{
    let leq = dec_leq();
    assert(vstd::relations::total_ordering(leq)) by {
        assert forall|x: Dec, y: Dec| !(#[trigger] leq(x, y)) implies leq(y, x) by {}
        assert forall|x: Dec, y: Dec| #[trigger] leq(x, y) && leq(y, x) implies x == y by {}
        assert forall|x: Dec, y: Dec, z: Dec| #[trigger] leq(x, y) && #[trigger] leq(
            y,
            z,
        ) implies leq(x, z) by {}
        assert(forall|x: Dec| #[trigger] leq(x, x));
    }
}

/// The smallest of a nonempty list, by a left fold.
pub open spec fn min_chain(ds: Seq<Dec>) -> Dec
    decreases ds,
{
    if ds.len() <= 1 {
        ds[0]
    } else {
        let m = min_chain(ds.drop_last());
        if ds.last().sc() < m.sc() {
            ds.last()
        } else {
            m
        }
    }
}

/// The largest of a nonempty list, by a left fold.
pub open spec fn max_chain(ds: Seq<Dec>) -> Dec
    decreases ds,
{
    if ds.len() <= 1 {
        ds[0]
    } else {
        let m = max_chain(ds.drop_last());
        if ds.last().sc() > m.sc() {
            ds.last()
        } else {
            m
        }
    }
}

/// The numbers under `numbers`, when the field is a valid bounded array.
pub open spec fn nums_of(args: JsonV) -> Option<Seq<Dec>> {
    match jfield(args, "numbers"@) {
        Option::Some(JsonV::Array(els)) => {
            if els.len() > crate::config::DEFAULT_MAX_ARRAY_SIZE as int {
                Option::None
            } else {
                parse_elems(els)
            }
        },
        _ => Option::None,
    }
}

/// What `min` returns: the smallest number of a nonempty list.
pub open spec fn min_spec(args: JsonV, r: McpResult<JsonValue>) -> bool {
    match nums_of(args) {
        Option::Some(ds) => {
            if ds.len() == 0 {
                r matches Err(e) && e.code == -32001
            } else {
                r matches Ok(v) && v.jview() == result_jv(min_chain(ds))
            }
        },
        Option::None => r is Err,
    }
}

/// What `max` returns: the largest number of a nonempty list.
pub open spec fn max_spec(args: JsonV, r: McpResult<JsonValue>) -> bool {
    match nums_of(args) {
        Option::Some(ds) => {
            if ds.len() == 0 {
                r matches Err(e) && e.code == -32001
            } else {
                r matches Ok(v) && v.jview() == result_jv(max_chain(ds))
            }
        },
        Option::None => r is Err,
    }
}

/// What `sum` returns: the exact sum, as `add` has it.
pub open spec fn stat_sum_spec(args: JsonV, r: McpResult<JsonValue>) -> bool {
    match nums_of(args) {
        Option::Some(ds) => match sum_chain(ds) {
            Option::Some(d) => r matches Ok(v) && v.jview() == result_jv(d),
            Option::None => r is Err,
        },
        Option::None => r is Err,
    }
}

/// What `product` returns: the exact product, as `multiply` has it.
pub open spec fn stat_product_spec(args: JsonV, r: McpResult<JsonValue>) -> bool {
    match nums_of(args) {
        Option::Some(ds) => match prod_chain(ds) {
            Option::Some(d) => r matches Ok(v) && v.jview() == result_jv(d),
            Option::None => r is Err,
        },
        Option::None => r is Err,
    }
}

/// What `mean` returns: the exact sum divided exactly by the count.
pub open spec fn mean_spec(args: JsonV, r: McpResult<JsonValue>) -> bool {
    match nums_of(args) {
        Option::Some(ds) => {
            if ds.len() == 0 {
                r matches Err(e) && e.code == -32001
            } else {
                match sum_chain(ds) {
                    Option::Some(total) => {
                        let n = Dec { m: ds.len() as i128, s: 0 };
                        if div_representable(total, n) {
                            r matches Ok(v) && v.jview() == result_jv(spec_dec_div(total, n))
                        } else {
                            r is Err
                        }
                    },
                    Option::None => r is Err,
                }
            }
        },
        Option::None => r is Err,
    }
}

/// What `median` returns: the middle of the sorted list, or the exact
/// average of the two middles for an even count.
pub open spec fn median_spec(args: JsonV, r: McpResult<JsonValue>) -> bool {
    match nums_of(args) {
        Option::Some(ds) => {
            if ds.len() == 0 {
                r matches Err(e) && e.code == -32001
            } else {
                let ss = ds.sort_by(dec_leq());
                if ds.len() % 2 == 1 {
                    r matches Ok(v) && v.jview() == result_jv(ss[ds.len() as int / 2])
                } else {
                    let lo = ss[ds.len() as int / 2 - 1];
                    let hi = ss[ds.len() as int / 2];
                    match spec_dec_add(lo, hi) {
                        Option::Some(total) => {
                            let two = Dec { m: 2, s: 0 };
                            if div_representable(total, two) {
                                r matches Ok(v) && v.jview() == result_jv(
                                    spec_dec_div(total, two),
                                )
                            } else {
                                r is Err
                            }
                        },
                        Option::None => r is Err,
                    }
                }
            }
        },
        Option::None => r is Err,
    }
}

/// How many elements of `ds` equal `x`.
pub open spec fn count_of(ds: Seq<Dec>, x: Dec) -> nat
    decreases ds,
{
    if ds.len() == 0 {
        0
    } else {
        count_of(ds.drop_last(), x) + if ds.last() == x {
            1nat
        } else {
            0nat
        }
    }
}

/// The greatest frequency among the first `k` elements' values.
pub open spec fn max_count_upto(ds: Seq<Dec>, k: int) -> nat
    decreases k,
{
    if k <= 0 {
        0
    } else {
        let rest = max_count_upto(ds, k - 1);
        let c = count_of(ds, ds[k - 1]);
        if c > rest {
            c
        } else {
            rest
        }
    }
}

/// The greatest frequency of any value in `ds`.
pub open spec fn max_count(ds: Seq<Dec>) -> nat {
    max_count_upto(ds, ds.len() as int)
}

/// Whether position `i` is the first appearance of its value.
pub open spec fn first_occurrence(ds: Seq<Dec>, i: int) -> bool {
    forall|j: int| 0 <= j < i ==> ds[j] != ds[i]
}

/// The values whose frequency reaches the maximum, one representative
/// each, in first-appearance order over the first `k` positions.
pub open spec fn mode_reps(ds: Seq<Dec>, k: int) -> Seq<Dec>
    decreases k,
{
    if k <= 0 {
        Seq::empty()
    } else {
        let pre = mode_reps(ds, k - 1);
        if first_occurrence(ds, k - 1) && count_of(ds, ds[k - 1]) == max_count(ds) {
            pre.push(ds[k - 1])
        } else {
            pre
        }
    }
}

/// The lexemes of a list of decimals, as JSON numbers.
pub open spec fn lex_elems(ds: Seq<Dec>) -> Seq<JsonV> {
    Seq::new(ds.len(), |i: int| JsonV::Num(crate::dec::dec_lexeme_spec(ds[i])))
}

/// The document reporting that every value is unique.
pub open spec fn no_mode_jv() -> JsonV {
    JsonV::Object(
        seq![
            ("mode"@, JsonV::Null),
            ("message"@, JsonV::Text("No mode - all values are unique"@)),
        ],
    )
}

/// The document carrying the modes, sorted by value, and their frequency.
pub open spec fn mode_jv(ds: Seq<Dec>) -> JsonV {
    JsonV::Object(
        seq![
            (
                "mode"@,
                JsonV::Array(lex_elems(mode_reps(ds, ds.len() as int).sort_by(dec_leq()))),
            ),
            ("frequency"@, JsonV::Num(crate::dec::digits_of(max_count(ds)))),
        ],
    )
}

/// What `mode` returns: the most frequent values of a nonempty list, or
/// the no-mode report when every value appears once.
pub open spec fn mode_spec(args: JsonV, r: McpResult<JsonValue>) -> bool {
    match nums_of(args) {
        Option::Some(ds) => {
            if ds.len() == 0 {
                r matches Err(e) && e.code == -32001
            } else if max_count(ds) <= 1 {
                r matches Ok(v) && v.jview() == no_mode_jv()
            } else {
                r matches Ok(v) && v.jview() == mode_jv(ds)
            }
        },
        Option::None => r is Err,
    }
}

/// Counts the elements equal to `x`.
#[verifier::loop_isolation(false)]
fn count_eq(ds: &Vec<Dec>, x: Dec) -> (c: usize)
    ensures
        c as nat == count_of(ds@, x),
        c <= ds@.len(),
{
    let mut c: usize = 0;
    let mut i: usize = 0;
    proof {
        assert(ds@.take(0) =~= Seq::empty());
    }
    while i < ds.len()
        invariant
            0 <= i <= ds@.len(),
            c <= i,
            c as nat == count_of(ds@.take(i as int), x),
        decreases ds@.len() - i,
    {
        proof {
            assert(ds@.take(i + 1).drop_last() =~= ds@.take(i as int));
            assert(ds@.take(i + 1).last() == ds@[i as int]);
        }
        if ds[i] == x {
            c = c + 1;
        }
        i = i + 1;
    }
    proof {
        assert(ds@.take(ds@.len() as int) =~= ds@);
    }
    c
}

/// Computes the mode report for a nonempty list.
#[verifier::loop_isolation(false)]
fn mode_of(ds: &Vec<Dec>) -> (r: JsonValue)
    requires
        ds@.len() > 0,
        forall|i: int| 0 <= i < ds@.len() ==> (#[trigger] ds@[i]).wf(),
    ensures
        r.jview() == (if max_count(ds@) <= 1 {
            no_mode_jv()
        } else {
            mode_jv(ds@)
        }),
{
    // The greatest frequency.
    let mut mf: usize = 0;
    let mut i: usize = 0;
    while i < ds.len()
        invariant
            0 <= i <= ds@.len(),
            mf as nat == max_count_upto(ds@, i as int),
            mf <= ds@.len(),
        decreases ds@.len() - i,
    {
        let c = count_eq(ds, ds[i]);
        if c > mf {
            mf = c;
        }
        i = i + 1;
    }
    if mf <= 1 {
        let mut members: Vec<(String, JsonValue)> = Vec::new();
        members.push(("mode".to_owned(), JsonValue::Null));
        members.push((
            "message".to_owned(),
            JsonValue::Text("No mode - all values are unique".to_owned()),
        ));
        proof {
            crate::json::lemma_jview_members(members@);
            assert(jview_members(members@) =~= seq![
                ("mode"@, JsonV::Null),
                ("message"@, JsonV::Text("No mode - all values are unique"@)),
            ]);
        }
        return JsonValue::Object(members);
    }
    // One representative of each value at the greatest frequency, in
    // first-appearance order.
    let mut reps: Vec<Dec> = Vec::new();
    let mut i: usize = 0;
    while i < ds.len()
        invariant
            0 <= i <= ds@.len(),
            reps@ == mode_reps(ds@, i as int),
            forall|x: int| 0 <= x < reps@.len() ==> (#[trigger] reps@[x]).wf(),
        decreases ds@.len() - i,
    {
        let mut fresh = true;
        let mut j: usize = 0;
        while j < i
            invariant
                0 <= j <= i,
                fresh == (forall|y: int| 0 <= y < j ==> ds@[y] != ds@[i as int]),
            decreases i - j,
        {
            if ds[j] == ds[i] {
                fresh = false;
            }
            j = j + 1;
        }
        if fresh {
            let c = count_eq(ds, ds[i]);
            if c == mf {
                reps.push(ds[i]);
            }
        }
        i = i + 1;
    }
    let sorted = sort_decs(reps);
    let mut items: Vec<JsonValue> = Vec::new();
    let mut i: usize = 0;
    while i < sorted.len()
        invariant
            0 <= i <= sorted@.len(),
            items@.len() == i as int,
            forall|x: int|
                0 <= x < i ==> (#[trigger] items@[x]).jview() == JsonV::Num(
                    crate::dec::dec_lexeme_spec(sorted@[x]),
                ),
        decreases sorted@.len() - i,
    {
        let lex = crate::dec::dec_lexeme(sorted[i]);
        items.push(JsonValue::Num(lex));
        i = i + 1;
    }
    proof {
        crate::json::lemma_jview_elems(items@);
        assert(crate::json::jview_elems(items@) =~= lex_elems(sorted@));
    }
    let freq = crate::dec::usize_string(mf);
    let mut members: Vec<(String, JsonValue)> = Vec::new();
    members.push(("mode".to_owned(), JsonValue::Array(items)));
    members.push(("frequency".to_owned(), JsonValue::Num(freq)));
    proof {
        crate::json::lemma_jview_members(members@);
        assert(jview_members(members@) =~= seq![
            ("mode"@, JsonV::Array(lex_elems(mode_reps(ds@, ds@.len() as int).sort_by(dec_leq())))),
            ("frequency"@, JsonV::Num(crate::dec::digits_of(max_count(ds@)))),
        ]);
    }
    JsonValue::Object(members)
}

/// Sorts a list of well-formed decimals by value, by repeated selection of
/// the smallest.
#[verifier::loop_isolation(false)]
fn sort_decs(input: Vec<Dec>) -> (r: Vec<Dec>)
    requires
        forall|i: int| 0 <= i < input@.len() ==> (#[trigger] input@[i]).wf(),
    ensures
        r@ == input@.sort_by(dec_leq()),
        r@.len() == input@.len(),
        forall|i: int| 0 <= i < r@.len() ==> (#[trigger] r@[i]).wf(),
{
    broadcast use group_to_multiset_ensures;

    let ghost leq = dec_leq();
    proof {
        lemma_dec_leq_total();
        input@.lemma_sort_by_ensures(leq);
    }
    let mut src = input;
    let mut out: Vec<Dec> = Vec::new();
    while src.len() > 0
        invariant
            out@.to_multiset().add(src@.to_multiset()) =~= input@.to_multiset(),
            vstd::relations::sorted_by(out@, leq),
            forall|i: int, j: int|
                0 <= i < out@.len() && 0 <= j < src@.len() ==> leq(out@[i], src@[j]),
            forall|i: int| 0 <= i < src@.len() ==> (#[trigger] src@[i]).wf(),
            forall|i: int| 0 <= i < out@.len() ==> (#[trigger] out@[i]).wf(),
        decreases src.len(),
    {
        let mut min_idx: usize = 0;
        let mut j: usize = 1;
        while j < src.len()
            invariant
                0 <= min_idx < src@.len(),
                1 <= j <= src@.len(),
                forall|k: int| 0 <= k < j ==> src@[min_idx as int].sc() <= (#[trigger] src@[k]).sc(),
            decreases src.len() - j,
        {
            if !crate::dec::dec_le(src[min_idx], src[j]) {
                min_idx = j;
            }
            j = j + 1;
        }
        let ghost src_prev = src@;
        let ghost out_prev = out@;
        let x = src.remove(min_idx);
        out.push(x);
        proof {
            // Removing x from the source and pushing it on the output
            // keeps the combined multiset.
            assert(src_prev.contains(x));
            assert(src@.to_multiset() =~= src_prev.to_multiset().remove(x));
            assert(out@.to_multiset() =~= out_prev.to_multiset().insert(x));
            assert(out@.to_multiset().add(src@.to_multiset()) =~= input@.to_multiset());
        }
        proof {
            assert(forall|i: int, jx: int|
                0 <= i < out@.len() && 0 <= jx < src@.len() ==> leq(out@[i], src@[jx])) by {
                assert(forall|a: Dec, b: Dec| a.wf() && b.wf() && a.sc() <= b.sc() ==> leq(a, b))
                    by {
                    assert forall|a: Dec, b: Dec|
                        a.wf() && b.wf() && a.sc() <= b.sc() implies leq(a, b) by {
                        if a.sc() == b.sc() {
                            lemma_wf_unique(a, b);
                        }
                    }
                }
            }
            assert(vstd::relations::sorted_by(out@, leq));
        }
    }
    proof {
        assert(out@.to_multiset() =~= input@.to_multiset());
        assert(out@.to_multiset().len() == out@.len());
        assert(input@.sort_by(leq).to_multiset().len() == input@.sort_by(leq).len());
        vstd::seq_lib::lemma_sorted_unique(out@, input@.sort_by(leq), leq);
        assert(out@.len() == input@.len()) by {
            assert(input@.to_multiset().len() == input@.len());
        }
        assert(forall|i: int| 0 <= i < out@.len() ==> (#[trigger] out@[i]).wf());
    }
    out
}

/// Runs one of the statistics tools.
#[verifier::loop_isolation(false)]
pub fn execute(name: &str, arguments: &JsonValue) -> (r: McpResult<JsonValue>)
    ensures
        name@ == "min"@ ==> min_spec(arguments.jview(), r),
        name@ == "max"@ ==> max_spec(arguments.jview(), r),
        name@ == "sum"@ ==> stat_sum_spec(arguments.jview(), r),
        name@ == "product"@ ==> stat_product_spec(arguments.jview(), r),
        name@ == "mean"@ ==> mean_spec(arguments.jview(), r),
        name@ == "median"@ ==> median_spec(arguments.jview(), r),
        name@ == "mode"@ ==> mode_spec(arguments.jview(), r),
{
    proof {
        crate::tools::registry::lemma_tool_names_distinct();
    }
    if str_eq(name, "min") || str_eq(name, "max") {
        let want_min = str_eq(name, "min");
        let ds = match get_number_array(arguments, "numbers") {
            Ok(ds) => ds,
            Err(e) => {
                return Err(e);
            },
        };
        if ds.len() == 0 {
            return Err(
                McpError::validation_error(
                    if want_min {
                        "Cannot find min of empty array"
                    } else {
                        "Cannot find max of empty array"
                    },
                ),
            );
        }
        let mut best: Dec = ds[0];
        let mut i: usize = 1;
        proof {
            assert(ds@.take(1) =~= seq![ds@[0]]);
        }
        while i < ds.len()
            invariant
                1 <= i <= ds@.len(),
                best.wf(),
                best == if want_min {
                    min_chain(ds@.take(i as int))
                } else {
                    max_chain(ds@.take(i as int))
                },
            decreases ds@.len() - i,
        {
            proof {
                assert(ds@.take(i + 1).drop_last() =~= ds@.take(i as int));
                assert(ds@.take(i + 1).last() == ds@[i as int]);
            }
            let keep_best = if want_min {
                crate::dec::dec_le(best, ds[i])
            } else {
                crate::dec::dec_le(ds[i], best)
            };
            if !keep_best {
                best = ds[i];
            }
            i = i + 1;
        }
        proof {
            assert(ds@.take(ds@.len() as int) =~= ds@);
        }
        Ok(result_json(best))
    } else if str_eq(name, "sum") {
        let ds = match get_number_array(arguments, "numbers") {
            Ok(ds) => ds,
            Err(e) => {
                return Err(e);
            },
        };
        match dec_sum(&ds) {
            Some(d) => Ok(result_json(d)),
            None => Err(McpError::validation_error("Sum is not exactly representable")),
        }
    } else if str_eq(name, "product") {
        let ds = match get_number_array(arguments, "numbers") {
            Ok(ds) => ds,
            Err(e) => {
                return Err(e);
            },
        };
        match dec_prod(&ds) {
            Some(d) => Ok(result_json(d)),
            None => Err(McpError::validation_error("Product is not exactly representable")),
        }
    } else if str_eq(name, "mean") {
        let ds = match get_number_array(arguments, "numbers") {
            Ok(ds) => ds,
            Err(e) => {
                return Err(e);
            },
        };
        if ds.len() == 0 {
            return Err(McpError::validation_error("Cannot calculate mean of empty array"));
        }
        let total = match dec_sum(&ds) {
            Some(d) => d,
            None => {
                return Err(McpError::validation_error("Sum is not exactly representable"));
            },
        };
        let n = Dec { m: ds.len() as i128, s: 0 };
        proof {
            match jfield(arguments.jview(), "numbers"@) {
                Option::Some(JsonV::Array(els)) => {
                    lemma_parse_elems_len(els);
                },
                _ => {},
            }
            assert(ds@.len() <= crate::config::DEFAULT_MAX_ARRAY_SIZE as int);
            assert(n.wf());
        }
        match dec_div(total, n) {
            Some(d) => {
                proof {
                    lemma_div_witness(total, n, d);
                }
                Ok(result_json(d))
            },
            None => Err(McpError::validation_error("Mean is not exactly representable")),
        }
    } else if str_eq(name, "mode") {
        let ds = match get_number_array(arguments, "numbers") {
            Ok(ds) => ds,
            Err(e) => {
                return Err(e);
            },
        };
        if ds.len() == 0 {
            return Err(McpError::validation_error("Cannot calculate mode of empty array"));
        }
        Ok(mode_of(&ds))
    } else if str_eq(name, "median") {
        let ds = match get_number_array(arguments, "numbers") {
            Ok(ds) => ds,
            Err(e) => {
                return Err(e);
            },
        };
        if ds.len() == 0 {
            return Err(McpError::validation_error("Cannot calculate median of empty array"));
        }
        let n = ds.len();
        let sorted = sort_decs(ds);
        if n % 2 == 1 {
            Ok(result_json(sorted[n / 2]))
        } else {
            let lo = sorted[n / 2 - 1];
            let hi = sorted[n / 2];
            let total = match dec_add(lo, hi) {
                Some(d) => d,
                None => {
                    return Err(
                        McpError::validation_error("Median is not exactly representable"),
                    );
                },
            };
            let two = Dec { m: 2, s: 0 };
            match dec_div(total, two) {
                Some(d) => {
                    proof {
                        lemma_div_witness(total, two, d);
                    }
                    Ok(result_json(d))
                },
                None => Err(McpError::validation_error("Median is not exactly representable")),
            }
        }
    } else {
        let mut message: String = "Unknown statistics tool: ".to_owned();
        message.append(name);
        Err(McpError { code: -32000, message, data: None })
    }
}

} // verus!
