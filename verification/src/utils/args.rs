//! Extraction of tool arguments from a JSON object.

use vstd::prelude::*;
use crate::config::Config;
use crate::dec::{dec_lexeme_spec, parse_dec, parse_dec_spec, Dec};
use crate::error::{McpError, McpResult};
use crate::json::{jfield, jview_members, JsonV, JsonValue};
use crate::utils::validation::validate_array_size;

verus! {

/// The lexeme under `key`, when the field is there and is a number.
pub open spec fn num_field_lex(v: JsonV, key: Seq<char>) -> Option<Seq<char>> {
    match jfield(v, key) {
        Option::Some(JsonV::Num(l)) => Option::Some(l),
        _ => Option::None,
    }
}

/// Element-wise exact reading of an array of numbers; `None` as soon as an
/// element is not a number or has no exact reading.
pub open spec fn parse_elems(els: Seq<JsonV>) -> Option<Seq<Dec>>
    decreases els,
{
    if els.len() == 0 {
        Option::Some(Seq::empty())
    } else {
        match parse_elems(els.drop_last()) {
            Option::None => Option::None,
            Option::Some(pre) => match els.last() {
                JsonV::Num(l) => match parse_dec_spec(l) {
                    Option::Some(d) => Option::Some(pre.push(d)),
                    Option::None => Option::None,
                },
                _ => Option::None,
            },
        }
    }
}

/// Whether one element reads as an exact number.
pub open spec fn elem_ok(v: JsonV) -> bool {
    v matches JsonV::Num(l) && parse_dec_spec(l) is Some
}

/// The first position whose element does not read, or the length.
pub open spec fn first_bad(els: Seq<JsonV>, i: int) -> int
    decreases els.len() - i,
{
    if i < 0 || i >= els.len() {
        els.len() as int
    } else if elem_ok(els[i]) {
        first_bad(els, i + 1)
    } else {
        i
    }
}

/// Whether `key` holds an array of exactly readable numbers within the
/// default size bound.
pub open spec fn array_arg_ok(v: JsonV, key: Seq<char>) -> bool {
    match jfield(v, key) {
        Option::Some(JsonV::Array(els)) => els.len()
            <= crate::config::DEFAULT_MAX_ARRAY_SIZE as int && parse_elems(els) is Some,
        _ => false,
    }
}

/// Extracts a required number argument, read exactly.
pub fn get_number(arguments: &JsonValue, key: &str) -> (r: McpResult<Dec>)
    ensures
        match r {
            Ok(d) => {
                &&& num_field_lex(arguments.jview(), key@) matches Option::Some(l)
                    && parse_dec_spec(l) == Option::Some(d)
                &&& d.wf()
            },
            Err(e) => match num_field_lex(arguments.jview(), key@) {
                Option::None => e.code == -32602,
                Option::Some(l) => parse_dec_spec(l) is None && e.code == -32001,
            },
        },
{
    match arguments.get(key) {
        Some(v) => match v {
            JsonValue::Num(s) => match parse_dec(s.as_str()) {
                Some(d) => Ok(d),
                None => {
                    let mut message: String = "Invalid argument: ".to_owned();
                    message.append(key);
                    message.append(" is not an exactly representable number");
                    Err(McpError { code: -32001, message, data: None })
                },
            },
            _ => {
                let mut message: String = "Invalid argument: ".to_owned();
                message.append(key);
                message.append(" must be a number");
                Err(McpError { code: -32602, message, data: None })
            },
        },
        None => {
            let mut message: String = "Invalid argument: ".to_owned();
            message.append(key);
            message.append(" must be a number");
            Err(McpError { code: -32602, message, data: None })
        },
    }
}

/// Extracts an optional number argument; absent, non-numeric, and inexact
/// values all read as `None`.
pub fn get_number_opt(arguments: &JsonValue, key: &str) -> (r: Option<Dec>)
    ensures
        r == (match num_field_lex(arguments.jview(), key@) {
            Option::Some(l) => parse_dec_spec(l),
            Option::None => Option::None::<Dec>,
        }),
        r matches Option::Some(d) ==> d.wf(),
{
    match arguments.get(key) {
        Some(v) => match v {
            JsonValue::Num(s) => parse_dec(s.as_str()),
            _ => None,
        },
        None => None,
    }
}

/// Extracts a required array of numbers, read exactly and bounded by the
/// configured maximum array size.
pub fn get_number_array(arguments: &JsonValue, key: &str) -> (r: McpResult<Vec<Dec>>)
    ensures
        match r {
            Ok(ds) => {
                &&& jfield(arguments.jview(), key@) matches Option::Some(JsonV::Array(els))
                    && parse_elems(els) == Option::Some(ds@) && els.len()
                    <= crate::config::DEFAULT_MAX_ARRAY_SIZE as int
                &&& forall|i: int| 0 <= i < ds@.len() ==> (#[trigger] ds@[i]).wf()
            },
            Err(e) => {
                &&& !array_arg_ok(arguments.jview(), key@)
                &&& match jfield(arguments.jview(), key@) {
                    Option::Some(JsonV::Array(els)) => {
                        if els.len() > crate::config::DEFAULT_MAX_ARRAY_SIZE as int {
                            e.code == -32002
                        } else {
                            let k = first_bad(els, 0);
                            k < els.len() && (if els[k] is Num {
                                e.code == -32001
                            } else {
                                e.code == -32602
                            })
                        }
                    },
                    _ => e.code == -32602,
                }
            },
        },
{
    let config = Config::new();
    match arguments.get(key) {
        Some(v) => match v {
            JsonValue::Array(items) => {
                let ghost els = crate::json::jview_elems(items@);
                proof {
                    crate::json::lemma_jview_elems(items@);
                }
                match validate_array_size(items.len(), &config) {
                    Ok(_) => {},
                    Err(e) => {
                        return Err(e);
                    },
                }
                let mut ds: Vec<Dec> = Vec::new();
                let mut i: usize = 0;
                while i < items.len()
                    invariant
                        0 <= i <= items@.len(),
                        els == crate::json::jview_elems(items@),
                        els.len() == items@.len(),
                        jfield(arguments.jview(), key@) == Option::Some(JsonV::Array(els)),
                        els.len() <= crate::config::DEFAULT_MAX_ARRAY_SIZE as int,
                        forall|x: int| 0 <= x < items@.len() ==> els[x] == items@[x].jview(),
                        parse_elems(els.take(i as int)) == Option::Some(ds@),
                        ds@.len() == i as int,
                        forall|x: int| 0 <= x < i ==> elem_ok(#[trigger] els[x]),
                        forall|x: int| 0 <= x < ds@.len() ==> (#[trigger] ds@[x]).wf(),
                    decreases items@.len() - i,
                {
                    let item = &items[i];
                    match item {
                        JsonValue::Num(s) => match parse_dec(s.as_str()) {
                            Some(d) => {
                                ds.push(d);
                                proof {
                                    assert(els.take(i + 1).drop_last() =~= els.take(i as int));
                                    assert(els.take(i + 1).last() == items@[i as int].jview());
                                }
                                i = i + 1;
                            },
                            None => {
                                proof {
                                    lemma_parse_elems_bad(els, i as int);
                                    lemma_first_bad_at(els, i as int);
                                }
                                let mut message: String = "Invalid argument: ".to_owned();
                                message.append(key);
                                message.append("[");
                                let idx_str = crate::dec::usize_string(i);
                                message.append(idx_str.as_str());
                                message.append("] is not an exactly representable number");
                                return Err(McpError { code: -32001, message, data: None });
                            },
                        },
                        _ => {
                            proof {
                                lemma_parse_elems_bad(els, i as int);
                                lemma_first_bad_at(els, i as int);
                            }
                            let mut message: String = "Invalid arguments: ".to_owned();
                            message.append(key);
                            message.append(" must be an array of numbers");
                            return Err(McpError { code: -32602, message, data: None });
                        },
                    }
                }
                proof {
                    assert(els.take(els.len() as int) =~= els);
                }
                Ok(ds)
            },
            _ => {
                let mut message: String = "Invalid arguments: ".to_owned();
                message.append(key);
                message.append(" must be an array");
                Err(McpError { code: -32602, message, data: None })
            },
        },
        None => {
            let mut message: String = "Invalid arguments: ".to_owned();
            message.append(key);
            message.append(" must be an array");
            Err(McpError { code: -32602, message, data: None })
        },
    }
}

/// A scan that read every earlier element and stops on a bad one names
/// the first bad position.
proof fn lemma_first_bad_at(els: Seq<JsonV>, i: int)
    requires
        0 <= i < els.len(),
        forall|x: int| 0 <= x < i ==> elem_ok(#[trigger] els[x]),
        !elem_ok(els[i]),
    ensures
        first_bad(els, 0) == i,
{
    lemma_first_bad_from(els, 0, i);
}

proof fn lemma_first_bad_from(els: Seq<JsonV>, st: int, i: int)
    requires
        0 <= st <= i < els.len(),
        forall|x: int| st <= x < i ==> elem_ok(#[trigger] els[x]),
        !elem_ok(els[i]),
    ensures
        first_bad(els, st) == i,
    decreases i - st,
{
    if st < i {
        lemma_first_bad_from(els, st + 1, i);
    }
}

/// An exact reading has one number per element.
pub proof fn lemma_parse_elems_len(els: Seq<JsonV>)
    requires
        parse_elems(els) is Some,
    ensures
        parse_elems(els)->Some_0.len() == els.len(),
    decreases els,
{
    if els.len() > 0 {
        lemma_parse_elems_len(els.drop_last());
    }
}

/// An element with no exact reading poisons the whole array.
proof fn lemma_parse_elems_bad(els: Seq<JsonV>, i: int)
    requires
        0 <= i < els.len(),
        match els[i] {
            JsonV::Num(l) => parse_dec_spec(l) is None,
            _ => true,
        },
        !(els[i] is Num) || (els[i] matches JsonV::Num(l) && parse_dec_spec(l) is None),
    ensures
        parse_elems(els) is None,
    decreases els,
{
    if i == els.len() - 1 {
    } else {
        lemma_parse_elems_bad(els.drop_last(), i);
    }
}

/// Extracts an optional boolean argument.
pub fn get_bool_opt(arguments: &JsonValue, key: &str) -> (r: Option<bool>)
    ensures
        r == (match jfield(arguments.jview(), key@) {
            Option::Some(JsonV::Bool(b)) => Option::Some(b),
            _ => Option::None::<bool>,
        }),
{
    match arguments.get(key) {
        Some(v) => match v {
            JsonValue::Bool(b) => Some(*b),
            _ => None,
        },
        None => None,
    }
}

/// The `{"result": d}` document for a decimal.
pub open spec fn result_jv(d: Dec) -> JsonV {
    JsonV::Object(seq![("result"@, JsonV::Num(dec_lexeme_spec(d)))])
}

/// The number under `key`, read exactly.
pub open spec fn num_of(args: JsonV, key: Seq<char>) -> Option<Dec> {
    match num_field_lex(args, key) {
        Option::Some(l) => parse_dec_spec(l),
        Option::None => Option::None,
    }
}

/// Wraps a numeric result as the object `{"result": <value>}`.
pub fn result_json(value: Dec) -> (r: JsonValue)
    requires
        value.wf(),
    ensures
        r.jview() == result_jv(value),
{
    let lex = crate::dec::dec_lexeme(value);
    let mut members: Vec<(String, JsonValue)> = Vec::new();
    members.push(("result".to_owned(), JsonValue::Num(lex)));
    proof {
        jview_members_singleton(members@);
    }
    JsonValue::Object(members)
}

/// The member view of a one-member vector.
proof fn jview_members_singleton(o: Seq<(String, JsonValue)>)
    requires
        o.len() == 1,
    ensures
        jview_members(o) =~= seq![(o[0].0@, o[0].1.jview())],
{
    assert(jview_members(o).len() == 1) by {
        crate::json::lemma_jview_members(o);
    }
    crate::json::lemma_jview_members(o);
}

} // verus!
