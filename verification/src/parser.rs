//! The message reader: detects the wire encoding, assembles one complete
//! request, and reports which encoding it used.
//!
//! The reader is incremental: it is handed every byte read so far and
//! whether the stream has ended, and it answers with one of four outcomes —
//! read more, clean shutdown, a parsed request, or a classified failure —
//! consuming only the bytes of the message it reports.

use vstd::prelude::*;
use crate::error::{McpError, McpResult};
use crate::json::{jfield, JsonV, JsonValue};
use crate::protocol::JsonRpcRequest;

verus! {

/// Largest accepted message size, in bytes, for both encodings.
pub const MAX_CONTENT_LENGTH: usize = 10_000_000;

/// A parsed request and the encoding it arrived in.
#[derive(Debug)]
pub struct ParseResult {
    pub request: JsonRpcRequest,
    pub uses_content_length: bool,
}

/// What one reading step concluded.
#[derive(Debug)]
pub enum ParseStep {
    /// More bytes are needed before anything can be decided.
    NeedMoreData,
    /// The stream ended cleanly between messages.
    CleanShutdown,
    /// A complete request was read; drop `consumed` bytes.
    Parsed { result: ParseResult, consumed: usize },
    /// A malformed message was abandoned; drop `consumed` bytes and go on.
    Failed { error: McpError, consumed: usize },
}

/// What the JSON reader concluded about a byte span.
#[derive(Debug)]
pub enum JsonOutcome {
    /// The span is exactly one JSON document.
    Parsed(JsonValue),
    /// The span is a prefix of a JSON document.
    Incomplete,
    /// The span cannot begin a JSON document.
    Malformed,
}

/// The name for what `serde_json::from_slice` concludes about a byte span,
/// with strings and number lexemes carried over losslessly.
pub uninterp spec fn json_parse_spec(bytes: Seq<u8>) -> JsonOutcome;

#[verifier::external_type_specification]
#[verifier::external_body]
pub struct ExSerdeValue(serde_json::Value);

/// Carries a parsed document into the library's model: nulls, booleans and
/// strings move over one for one, and object members arrive in the
/// parser's (sorted) key order. A number keeps its wire lexeme, except
/// that the scanner writes an exponent in lowercase with an explicit
/// sign; whole and fractional digits are kept byte for byte.
#[verifier::external_body]
fn from_outside_value(v: serde_json::Value) -> JsonValue {
    match v {
        serde_json::Value::Null => JsonValue::Null,
        serde_json::Value::Bool(b) => JsonValue::Bool(b),
        serde_json::Value::Number(n) => JsonValue::Num(n.to_string()),
        serde_json::Value::String(s) => JsonValue::Text(s),
        serde_json::Value::Array(a) => JsonValue::Array(
            a.into_iter().map(from_outside_value).collect(),
        ),
        serde_json::Value::Object(o) => JsonValue::Object(
            o.into_iter().map(|p| (p.0, from_outside_value(p.1))).collect(),
        ),
    }
}

/// Relies on `serde_json::from_slice`: the same bytes always parse to the
/// same document, an error in the `Eof` category means the span is a
/// proper prefix of a document, and any other error is terminal.
#[verifier::external_body]
fn parse_json_bytes(bytes: &[u8]) -> (r: JsonOutcome)
    ensures
        r == json_parse_spec(bytes@),
{
    match serde_json::from_slice::<serde_json::Value>(bytes) {
        Ok(v) => JsonOutcome::Parsed(from_outside_value(v)),
        Err(e) => {
            if e.is_eof() {
                JsonOutcome::Incomplete
            } else {
                JsonOutcome::Malformed
            }
        },
    }
}

/// The header token that selects length-prefixed framing.
pub open spec fn cl_header() -> Seq<u8> {
    seq![67u8, 111u8, 110u8, 116u8, 101u8, 110u8, 116u8, 45u8, 76u8, 101u8, 110u8, 103u8, 116u8,
        104u8, 58u8]
}

/// Whether the buffer opens with the full header token.
pub open spec fn starts_with_header(b: Seq<u8>) -> bool {
    b.len() >= 15 && b.take(15) == cl_header()
}

/// Whether the buffer is a proper prefix of the header token.
pub open spec fn is_header_prefix(b: Seq<u8>) -> bool {
    b.len() < 15 && b == cl_header().take(b.len() as int)
}

/// The first position of `x` at or after `i`, or the length.
pub open spec fn find_byte(b: Seq<u8>, x: u8, i: int) -> int
    decreases b.len() - i,
{
    if i < 0 || i >= b.len() {
        b.len() as int
    } else if b[i] == x {
        i
    } else {
        find_byte(b, x, i + 1)
    }
}

/// ASCII whitespace, as the header line is split by.
pub open spec fn is_wsb(x: u8) -> bool {
    x == 32 || x == 9 || x == 13 || x == 10
}

/// The first non-whitespace position at or after `i`, or the length.
pub open spec fn next_non_ws(b: Seq<u8>, i: int) -> int
    decreases b.len() - i,
{
    if i < 0 || i >= b.len() {
        b.len() as int
    } else if !is_wsb(b[i]) {
        i
    } else {
        next_non_ws(b, i + 1)
    }
}

/// The first whitespace position at or after `i`, or the length.
pub open spec fn next_ws(b: Seq<u8>, i: int) -> int
    decreases b.len() - i,
{
    if i < 0 || i >= b.len() {
        b.len() as int
    } else if is_wsb(b[i]) {
        i
    } else {
        next_ws(b, i + 1)
    }
}

/// Whether the bytes of `b[i..j]` are all decimal digits.
pub open spec fn all_digit_bytes(b: Seq<u8>, i: int, j: int) -> bool {
    forall|x: int| i <= x < j ==> 48 <= #[trigger] b[x] <= 57
}

/// The value of the digit bytes `b[i..j]`.
pub open spec fn bval(b: Seq<u8>, i: int, j: int) -> nat
    decreases j - i,
{
    if j <= i {
        0
    } else {
        bval(b, i, j - 1) * 10 + (b[j - 1] - 48) as nat
    }
}

/// The declared length on a header line: the second whitespace-separated
/// token, read as a decimal that fits a `usize`.
pub open spec fn header_len_of(line: Seq<u8>) -> Option<int> {
    let a = next_non_ws(line, 0);
    let b0 = next_ws(line, a);
    let c = next_non_ws(line, b0);
    let d = next_ws(line, c);
    if c >= line.len() {
        Option::None
    } else if !all_digit_bytes(line, c, d) || c == d {
        Option::None
    } else if bval(line, c, d) > usize::MAX as nat {
        Option::None
    } else {
        Option::Some(bval(line, c, d) as int)
    }
}

/// Whether a parsed document has the shape of a request: an object whose
/// `jsonrpc` and `method` members are strings.
pub open spec fn shape_ok(j: JsonV) -> bool {
    &&& j is Object
    &&& jfield(j, "jsonrpc"@) matches Option::Some(JsonV::Text(v))
    &&& jfield(j, "method"@) matches Option::Some(JsonV::Text(m))
}

/// Whether the protocol tag is exactly the supported literal.
pub open spec fn version_ok(j: JsonV) -> bool {
    jfield(j, "jsonrpc"@) == Option::Some(JsonV::Text("2.0"@))
}

/// The method name of a well-shaped request document.
pub open spec fn method_of(j: JsonV) -> Seq<char> {
    match jfield(j, "method"@) {
        Option::Some(JsonV::Text(m)) => m,
        _ => Seq::empty(),
    }
}

/// The request id: absent and `null` both read as none.
pub open spec fn id_of(j: JsonV) -> Option<JsonV> {
    match jfield(j, "id"@) {
        Option::Some(JsonV::Null) => Option::None,
        Option::Some(v) => Option::Some(v),
        Option::None => Option::None,
    }
}

/// The params member: absent and `null` both read as none.
pub open spec fn params_of(j: JsonV) -> Option<JsonV> {
    match jfield(j, "params"@) {
        Option::Some(JsonV::Null) => Option::None,
        Option::Some(v) => Option::Some(v),
        Option::None => Option::None,
    }
}

/// The view of an optional value.
pub open spec fn opt_jv(o: Option<JsonValue>) -> Option<JsonV> {
    match o {
        Option::Some(v) => Option::Some(v.jview()),
        Option::None => Option::None,
    }
}

/// Builds the request record from a parsed document, validating its shape
/// and protocol tag.
fn build_request(v: JsonValue) -> (r: McpResult<JsonRpcRequest>)
    ensures
        match r {
            Ok(req) => {
                &&& shape_ok(v.jview())
                &&& version_ok(v.jview())
                &&& req.jsonrpc@ == "2.0"@
                &&& req.method@ == method_of(v.jview())
                &&& opt_jv(req.id) == id_of(v.jview())
                &&& opt_jv(req.params) == params_of(v.jview())
            },
            Err(e) => e.code == -32600 && !(shape_ok(v.jview()) && version_ok(v.jview())),
        },
{
    let jsonrpc: String = match v.get("jsonrpc") {
        Some(JsonValue::Text(s)) => s.clone(),
        _ => {
            return Err(McpError::invalid_request("Missing or invalid jsonrpc member"));
        },
    };
    let method: String = match v.get("method") {
        Some(JsonValue::Text(s)) => s.clone(),
        _ => {
            return Err(McpError::invalid_request("Missing or invalid method member"));
        },
    };
    proof {
        reveal_strlit("2.0");
    }
    if !jsonrpc.eq(&"2.0".to_owned()) {
        let mut message: String =
            "Invalid JSON-RPC version: expected '2.0', got '".to_owned();
        message.append(jsonrpc.as_str());
        message.append("'");
        return Err(McpError { code: -32600, message, data: None });
    }
    let id: Option<JsonValue> = match v.get("id") {
        Some(JsonValue::Null) => None,
        Some(x) => Some(x.deep_clone()),
        None => None,
    };
    let params: Option<JsonValue> = match v.get("params") {
        Some(JsonValue::Null) => None,
        Some(x) => Some(x.deep_clone()),
        None => None,
    };
    proof {
        assert(v.jview() is Object) by {
            match v {
                JsonValue::Object(_) => {},
                _ => {
                    assert(jfield(v.jview(), "jsonrpc"@) is None);
                },
            }
        }
    }
    Ok(JsonRpcRequest { jsonrpc, id, method, params })
}

/// Characterizes a left-to-right byte scan.
proof fn lemma_find_byte(b: Seq<u8>, x: u8, st: int, found: int)
    requires
        0 <= st <= found <= b.len(),
        forall|k: int| st <= k < found ==> b[k] != x,
        found < b.len() ==> b[found] == x,
    ensures
        find_byte(b, x, st) == if found < b.len() {
            found
        } else {
            b.len() as int
        },
    decreases found - st,
{
    if st < found {
        lemma_find_byte(b, x, st + 1, found);
    }
}

/// Characterizes a left-to-right whitespace scan.
proof fn lemma_next_ws(b: Seq<u8>, st: int, found: int, want_ws: bool)
    requires
        0 <= st <= found <= b.len(),
        forall|k: int| st <= k < found ==> is_wsb(#[trigger] b[k]) != want_ws,
        found < b.len() ==> is_wsb(b[found]) == want_ws,
    ensures
        want_ws ==> next_ws(b, st) == if found < b.len() {
            found
        } else {
            b.len() as int
        },
        !want_ws ==> next_non_ws(b, st) == if found < b.len() {
            found
        } else {
            b.len() as int
        },
    decreases found - st,
{
    if st < found {
        lemma_next_ws(b, st + 1, found, want_ws);
    }
}

/// Scans forward to the first newline at or after `from`.
#[verifier::loop_isolation(false)]
fn find_newline(buf: &Vec<u8>, from: usize) -> (r: usize)
    requires
        from <= buf@.len(),
    ensures
        r as int == find_byte(buf@, 10u8, from as int),
        from <= r <= buf@.len(),
{
    let mut i: usize = from;
    while i < buf.len() && buf[i] != 10u8
        invariant
            from <= i <= buf@.len(),
            forall|k: int| from <= k < i ==> buf@[k] != 10u8,
        decreases buf@.len() - i,
    {
        i = i + 1;
    }
    proof {
        lemma_find_byte(buf@, 10u8, from as int, i as int);
    }
    i
}

/// Reads one complete message from the bytes gathered so far.
///
/// The contract mirrors the detection algorithm: an empty buffer at end of
/// stream is the clean shutdown; a buffer opening with the header token is
/// length-prefixed — the declared length is bounded before the body is
/// awaited — and one opening with `{` is bare JSON, grown until the
/// document completes; anything else is rejected a line at a time.
#[verifier::loop_isolation(false)]
pub fn parse_message(buf: &Vec<u8>, eof: bool) -> (r: ParseStep)
    ensures
        buf@.len() == 0 ==> (if eof {
            r is CleanShutdown
        } else {
            r is NeedMoreData
        }),
        buf@.len() > 0 && buf@[0] == 123u8 ==> bare_json_step(buf@, eof, r),
        starts_with_header(buf@) ==> header_step(buf@, eof, r),
        buf@.len() > 0 && is_header_prefix(buf@) ==> (if eof {
            r matches ParseStep::Failed { error, consumed } && error.code == -32600 && consumed
                == buf@.len()
        } else {
            r is NeedMoreData
        }),
        buf@.len() > 0 && buf@[0] != 123u8 && !starts_with_header(buf@) && !is_header_prefix(
            buf@,
        ) ==> unknown_step(buf@, eof, r),
{
    let n = buf.len();
    if n == 0 {
        if eof {
            return ParseStep::CleanShutdown;
        }
        return ParseStep::NeedMoreData;
    }
    if buf[0] == 123u8 {
        // Bare JSON: the ceiling binds before any parse is attempted.
        if n > MAX_CONTENT_LENGTH {
            return ParseStep::Failed {
                error: McpError::resource_limit(
                    "Message exceeds maximum allowed size of 10000000 bytes",
                ),
                consumed: n,
            };
        }
        let whole: &[u8] = buf.as_slice();
        let outcome = parse_json_bytes(whole);
        match outcome {
            JsonOutcome::Parsed(v) => match build_request(v) {
                Ok(request) => {
                    return ParseStep::Parsed {
                        result: ParseResult { request, uses_content_length: false },
                        consumed: n,
                    };
                },
                Err(error) => {
                    return ParseStep::Failed { error, consumed: n };
                },
            },
            JsonOutcome::Incomplete => {
                if eof {
                    return ParseStep::Failed {
                        error: McpError::parse_error("JSON parse error: unexpected end of input"),
                        consumed: n,
                    };
                }
                return ParseStep::NeedMoreData;
            },
            JsonOutcome::Malformed => {
                return ParseStep::Failed {
                    error: McpError::parse_error("JSON parse error: invalid input"),
                    consumed: n,
                };
            },
        }
    }
    // Compare against the header token.
    let header = header_token();
    let mut i: usize = 0;
    while i < n && i < 15 && buf[i] == header[i]
        invariant
            0 <= i <= 15,
            i <= n,
            forall|k: int| 0 <= k < i ==> buf@[k] == cl_header()[k],
        decreases 15 - i,
    {
        i = i + 1;
    }
    if i == 15 {
        proof {
            assert(buf@.take(15) =~= cl_header());
        }
        return parse_header_message(buf, eof);
    }
    if i == n {
        // The buffer so far is a prefix of the header token.
        proof {
            assert(buf@ =~= cl_header().take(buf@.len() as int));
        }
        if eof {
            return ParseStep::Failed {
                error: McpError::invalid_request("Unknown message format"),
                consumed: n,
            };
        }
        return ParseStep::NeedMoreData;
    }
    proof {
        assert(!starts_with_header(buf@)) by {
            if starts_with_header(buf@) {
                assert(buf@.take(15)[i as int] == cl_header()[i as int]);
            }
        }
        assert(!is_header_prefix(buf@)) by {
            if is_header_prefix(buf@) {
                assert(cl_header().take(buf@.len() as int)[i as int] == cl_header()[i as int]);
            }
        }
    }
    // Unknown format: reject one line, naming its start.
    let nl = find_newline(buf, 0);
    if nl == n && !eof {
        return ParseStep::NeedMoreData;
    }
    let line_end: usize = if nl < n {
        nl
    } else {
        n
    };
    let consumed: usize = if nl < n {
        nl + 1
    } else {
        n
    };
    let preview = preview_text(buf, line_end);
    let mut message: String =
        "Unknown message format, expected Content-Length header or JSON, got: ".to_owned();
    message.append(preview.as_str());
    ParseStep::Failed { error: McpError { code: -32600, message, data: None }, consumed }
}

/// What reading a bare-JSON buffer must conclude. The size ceiling binds
/// this encoding too, before any parse is attempted.
pub open spec fn bare_json_step(b: Seq<u8>, eof: bool, r: ParseStep) -> bool {
    if b.len() > MAX_CONTENT_LENGTH as int {
        r matches ParseStep::Failed { error, consumed } && error.code == -32002 && consumed
            == b.len()
    } else {
        bare_json_parse_step(b, eof, r)
    }
}

/// The parse half of the bare-JSON reading.
pub open spec fn bare_json_parse_step(b: Seq<u8>, eof: bool, r: ParseStep) -> bool {
    match json_parse_spec(b) {
        JsonOutcome::Parsed(v) => {
            if shape_ok(v.jview()) && version_ok(v.jview()) {
                r matches ParseStep::Parsed { result, consumed } && consumed == b.len()
                    && !result.uses_content_length && result.request.jsonrpc@ == "2.0"@
                    && result.request.method@ == method_of(v.jview()) && opt_jv(result.request.id)
                    == id_of(v.jview()) && opt_jv(result.request.params) == params_of(v.jview())
            } else {
                r matches ParseStep::Failed { error, consumed } && error.code == -32600
                    && consumed == b.len()
            }
        },
        JsonOutcome::Incomplete => {
            if eof {
                r matches ParseStep::Failed { error, consumed } && error.code == -32700
                    && consumed == b.len()
            } else {
                r is NeedMoreData
            }
        },
        JsonOutcome::Malformed => {
            r matches ParseStep::Failed { error, consumed } && error.code == -32700 && consumed
                == b.len()
        },
    }
}

/// What reading an unrecognized buffer must conclude: one line is
/// abandoned as an invalid request whose message carries a truncated
/// preview of the unrecognized prefix.
pub open spec fn unknown_step(b: Seq<u8>, eof: bool, r: ParseStep) -> bool {
    let nl = find_byte(b, 10u8, 0);
    if nl == b.len() && !eof {
        r is NeedMoreData
    } else {
        let line = b.take(if nl < b.len() {
            nl
        } else {
            b.len() as int
        });
        r matches ParseStep::Failed { error, consumed } && error.code == -32600 && error.message@
            == "Unknown message format, expected Content-Length header or JSON, got: "@
            + preview_of(line) && consumed == (if nl < b.len() {
            nl + 1
        } else {
            b.len() as int
        })
    }
}

/// What reading a length-prefixed buffer must conclude, step by step:
/// header line, size ceiling, separator line, exact body, then the parse
/// and validation of the body.
pub open spec fn header_step(b: Seq<u8>, eof: bool, r: ParseStep) -> bool {
    let nl = find_byte(b, 10u8, 0);
    if nl == b.len() && !eof {
        r is NeedMoreData
    } else {
        let line = b.take(nl);
        match header_len_of(line) {
            Option::None => r matches ParseStep::Failed { error, consumed } && error.code
                == -32600 && consumed == after_line(b, nl),
            Option::Some(length) => {
                if length > MAX_CONTENT_LENGTH as int {
                    r matches ParseStep::Failed { error, consumed } && error.code == -32002
                        && consumed == after_line(b, nl)
                } else {
                    let nl2 = find_byte(b, 10u8, nl + 1);
                    if nl2 == b.len() && !eof {
                        r is NeedMoreData
                    } else if nl2 == b.len() {
                        r matches ParseStep::Failed { error, consumed } && error.code == -32603
                            && consumed == b.len()
                    } else if b.len() - (nl2 + 1) < length {
                        if eof {
                            r matches ParseStep::Failed { error, consumed } && error.code
                                == -32603 && consumed == b.len()
                        } else {
                            r is NeedMoreData
                        }
                    } else {
                        body_step(b, nl2 + 1, length, r)
                    }
                }
            },
        }
    }
}

/// The bytes a rejected header line takes with it.
pub open spec fn after_line(b: Seq<u8>, nl: int) -> int {
    if nl < b.len() {
        nl + 1
    } else {
        b.len() as int
    }
}

/// What parsing a complete length-prefixed body must conclude.
pub open spec fn body_step(b: Seq<u8>, bs: int, length: int, r: ParseStep) -> bool {
    let body = b.subrange(bs, bs + length);
    let consumed_want = bs + length;
    match json_parse_spec(body) {
        JsonOutcome::Parsed(v) => {
            if shape_ok(v.jview()) && version_ok(v.jview()) {
                r matches ParseStep::Parsed { result, consumed } && consumed == consumed_want
                    && result.uses_content_length && result.request.jsonrpc@ == "2.0"@
                    && result.request.method@ == method_of(v.jview()) && opt_jv(result.request.id)
                    == id_of(v.jview()) && opt_jv(result.request.params) == params_of(v.jview())
            } else {
                r matches ParseStep::Failed { error, consumed } && error.code == -32600
                    && consumed == consumed_want
            }
        },
        _ => r matches ParseStep::Failed { error, consumed } && error.code == -32700 && consumed
            == consumed_want,
    }
}

/// Index of the end of `b` with trailing whitespace dropped.
pub open spec fn trim_end(b: Seq<u8>) -> int
    decreases b,
{
    if b.len() == 0 {
        0
    } else if is_wsb(b.last()) {
        trim_end(b.drop_last())
    } else {
        b.len() as int
    }
}

/// How one byte is shown in a preview: its character when printable
/// ASCII, a question mark otherwise.
pub open spec fn preview_char(x: u8) -> char {
    if 32 <= x <= 126 {
        " !\"#$%&'()*+,-./0123456789:;<=>?@ABCDEFGHIJKLMNOPQRSTUVWXYZ[\\]^_`abcdefghijklmnopqrstuvwxyz{|}~"@[x - 32]
    } else {
        '?'
    }
}

/// The preview of a rejected line: trimmed of surrounding whitespace,
/// shown byte by byte, and cut to fifty characters with an ellipsis.
pub open spec fn preview_of(line: Seq<u8>) -> Seq<char> {
    let s = next_non_ws(line, 0);
    let e = trim_end(line);
    if s >= e {
        Seq::empty()
    } else {
        let t = line.subrange(s, e);
        if t.len() > 50 {
            Seq::new(50, |i: int| preview_char(t[i])) + "..."@
        } else {
            Seq::new(t.len(), |i: int| preview_char(t[i]))
        }
    }
}

/// Characterizes the end of the whitespace trim.
proof fn lemma_trim_end(b: Seq<u8>, e: int)
    requires
        0 <= e <= b.len(),
        forall|k: int| e <= k < b.len() ==> is_wsb(#[trigger] b[k]),
        e > 0 ==> !is_wsb(b[e - 1]),
    ensures
        trim_end(b) == e,
    decreases b.len(),
{
    if e < b.len() {
        lemma_trim_end(b.drop_last(), e);
    }
}

/// Writes the preview of the line `buf[..line_end]`.
#[verifier::loop_isolation(false)]
fn preview_text(buf: &Vec<u8>, line_end: usize) -> (r: String)
    requires
        line_end <= buf@.len(),
    ensures
        r@ == preview_of(buf@.take(line_end as int)),
{
    let ghost line = buf@.take(line_end as int);
    proof {
        reveal_strlit(" !\"#$%&'()*+,-./0123456789:;<=>?@ABCDEFGHIJKLMNOPQRSTUVWXYZ[\\]^_`abcdefghijklmnopqrstuvwxyz{|}~");
        assert(vstd::string::is_ascii(" !\"#$%&'()*+,-./0123456789:;<=>?@ABCDEFGHIJKLMNOPQRSTUVWXYZ[\\]^_`abcdefghijklmnopqrstuvwxyz{|}~"));
    }
    let s = scan_non_ws(buf, 0, line_end);
    let mut e: usize = line_end;
    while e > 0 && (buf[e - 1] == 32u8 || buf[e - 1] == 9u8 || buf[e - 1] == 13u8 || buf[e - 1]
        == 10u8)
        invariant
            0 <= e <= line_end,
            forall|k: int| e <= k < line_end ==> is_wsb(#[trigger] line[k]),
        decreases e,
    {
        e = e - 1;
    }
    proof {
        lemma_trim_end(line, e as int);
    }
    let mut out: String = String::new();
    if s >= e {
        return out;
    }
    let truncated: bool = e - s > 50;
    let limit: usize = if truncated {
        s + 50
    } else {
        e
    };
    let mut i: usize = s;
    while i < limit
        invariant
            s <= i <= limit <= e,
            out@ == Seq::new((i - s) as nat, |k: int| preview_char(line[s + k])),
        decreases limit - i,
    {
        let x = buf[i];
        if 32 <= x && x <= 126 {
            let idx: usize = (x - 32) as usize;
            let piece: &str = " !\"#$%&'()*+,-./0123456789:;<=>?@ABCDEFGHIJKLMNOPQRSTUVWXYZ[\\]^_`abcdefghijklmnopqrstuvwxyz{|}~".substring_ascii(idx, idx + 1);
            out.append(piece);
        } else {
            out.append("?");
            proof {
                reveal_strlit("?");
            }
        }
        proof {
            assert(out@ =~= Seq::new((i + 1 - s) as nat, |k: int| preview_char(line[s + k])));
        }
        i = i + 1;
    }
    if truncated {
        out.append("...");
    }
    proof {
        let t = line.subrange(s as int, e as int);
        assert(forall|k: int| 0 <= k < t.len() ==> t[k] == line[s + k]);
        assert(out@ =~= preview_of(line));
    }
    out
}

/// The header token, as bytes.
fn header_token() -> (r: Vec<u8>)
    ensures
        r@ == cl_header(),
        r@.len() == 15,
{
    let mut v: Vec<u8> = Vec::new();
    v.push(67u8);
    v.push(111u8);
    v.push(110u8);
    v.push(116u8);
    v.push(101u8);
    v.push(110u8);
    v.push(116u8);
    v.push(45u8);
    v.push(76u8);
    v.push(101u8);
    v.push(110u8);
    v.push(103u8);
    v.push(116u8);
    v.push(104u8);
    v.push(58u8);
    proof {
        assert(v@ =~= cl_header());
    }
    v
}

/// Reads a length-prefixed message once the buffer opens with the header
/// token.
#[verifier::loop_isolation(false)]
fn parse_header_message(buf: &Vec<u8>, eof: bool) -> (r: ParseStep)
    requires
        starts_with_header(buf@),
    ensures
        header_step(buf@, eof, r),
{
    let n = buf.len();
    let nl = find_newline(buf, 0);
    if nl == n && !eof {
        return ParseStep::NeedMoreData;
    }
    let line_end: usize = nl;
    let after: usize = if nl < n {
        nl + 1
    } else {
        n
    };
    // Parse the second whitespace-separated token of the line as the
    // declared length.
    let ghost line = buf@.take(nl as int);
    let a = scan_non_ws(buf, 0, line_end);
    let b0 = scan_ws(buf, a, line_end);
    let c = scan_non_ws(buf, b0, line_end);
    let d = scan_ws(buf, c, line_end);
    if c == line_end {
        return ParseStep::Failed {
            error: McpError::invalid_request("Invalid Content-Length header format"),
            consumed: after,
        };
    }
    // The token must be digits that fit a usize.
    let mut value: usize = 0;
    let mut k: usize = c;
    let ghost line_c = c as int;
    while k < d
        invariant
            line_c <= c as int <= k as int <= d as int,
            all_digit_bytes(line, c as int, k as int),
            value as nat == bval(line, c as int, k as int),
        decreases d - k,
    {
        let byte = buf[k];
        if byte < 48 || byte > 57 {
            proof {
                lemma_header_len_none(line, c as int, d as int, k as int);
            }
            return ParseStep::Failed {
                error: McpError::invalid_request("Invalid Content-Length value"),
                consumed: after,
            };
        }
        let digit = (byte - 48) as usize;
        if value > (usize::MAX - digit) / 10 {
            // The numeral does not fit a usize.
            proof {
                lemma_bval_grows(line, c as int, k as int + 1, d as int);
                assert(bval(line, c as int, k as int + 1) == value as nat * 10 + digit as nat);
                let m = usize::MAX as int;
                let q = (m - digit) / 10;
                vstd::arithmetic::div_mod::lemma_fundamental_div_mod(m - digit, 10);
                assert(value as int * 10 >= (q + 1) * 10) by (nonlinear_arith)
                    requires
                        value as int >= q + 1,
                ;
                assert(value as int * 10 + digit > m);
            }
            return ParseStep::Failed {
                error: McpError::invalid_request("Invalid Content-Length value"),
                consumed: after,
            };
        }
        value = value * 10 + digit;
        k = k + 1;
    }
    proof {
        assert(header_len_of(line) == Option::Some(value as int)) by {
            assert(next_non_ws(line, 0) == a as int);
            assert(next_ws(line, a as int) == b0 as int);
            assert(next_non_ws(line, b0 as int) == c as int);
            assert(next_ws(line, c as int) == d as int);
            assert(c != d) by {
                if c == d {
                    assert(!is_wsb(line[c as int]) && is_wsb(line[d as int]));
                }
            }
        }
    }
    if value > MAX_CONTENT_LENGTH {
        return ParseStep::Failed {
            error: McpError::resource_limit(
                "Content-Length exceeds maximum allowed size of 10000000 bytes",
            ),
            consumed: after,
        };
    }
    // The separator line, then exactly `value` body bytes.
    if nl == n {
        // At end of stream with no header newline, the body can never come.
        return ParseStep::Failed {
            error: McpError::internal_error("Failed to read JSON message: unexpected end of input"),
            consumed: n,
        };
    }
    let nl2 = find_newline(buf, nl + 1);
    if nl2 == n {
        if !eof {
            return ParseStep::NeedMoreData;
        }
        return ParseStep::Failed {
            error: McpError::internal_error("Failed to read JSON message: unexpected end of input"),
            consumed: n,
        };
    }
    let bs = nl2 + 1;
    if n - bs < value {
        if eof {
            return ParseStep::Failed {
                error: McpError::internal_error(
                    "Failed to read JSON message: unexpected end of input",
                ),
                consumed: n,
            };
        }
        return ParseStep::NeedMoreData;
    }
    let body: &[u8] = buf.as_slice();
    let body = &body[bs..bs + value];
    proof {
        assert(body@ == buf@.subrange(bs as int, bs as int + value as int));
    }
    let outcome = parse_json_bytes(body);
    match outcome {
        JsonOutcome::Parsed(v) => match build_request(v) {
            Ok(request) => ParseStep::Parsed {
                result: ParseResult { request, uses_content_length: true },
                consumed: bs + value,
            },
            Err(error) => ParseStep::Failed { error, consumed: bs + value },
        },
        JsonOutcome::Incomplete => ParseStep::Failed {
            error: McpError::parse_error("JSON parse error: unexpected end of input"),
            consumed: bs + value,
        },
        JsonOutcome::Malformed => ParseStep::Failed {
            error: McpError::parse_error("JSON parse error: invalid input"),
            consumed: bs + value,
        },
    }
}

/// A numeral only grows as digits extend it.
proof fn lemma_bval_grows(b: Seq<u8>, i: int, j: int, k: int)
    requires
        i <= j <= k,
    ensures
        bval(b, i, j) <= bval(b, i, k),
    decreases k - j,
{
    if j < k {
        lemma_bval_grows(b, i, j, k - 1);
        assert(bval(b, i, k - 1) * 10 >= bval(b, i, k - 1)) by (nonlinear_arith);
    }
}

/// A non-digit inside the token sinks the whole header value.
proof fn lemma_header_len_none(line: Seq<u8>, c: int, d: int, k: int)
    requires
        next_non_ws(line, next_ws(line, next_non_ws(line, 0))) == c,
        next_ws(line, c) == d,
        c <= k < d,
        k < line.len(),
        !(48 <= line[k] <= 57),
    ensures
        header_len_of(line) is None,
{
    assert(!all_digit_bytes(line, c, d));
}

/// Scans forward to the first non-whitespace byte before `end`.
#[verifier::loop_isolation(false)]
fn scan_non_ws(buf: &Vec<u8>, from: usize, end: usize) -> (r: usize)
    requires
        from <= end <= buf@.len(),
    ensures
        from <= r <= end,
        r as int == next_non_ws(buf@.take(end as int), from as int),
        r < end ==> !is_wsb(buf@.take(end as int)[r as int]),
{
    let mut i: usize = from;
    while i < end && (buf[i] == 32u8 || buf[i] == 9u8 || buf[i] == 13u8 || buf[i] == 10u8)
        invariant
            from <= i <= end,
            forall|k: int| from <= k < i ==> is_wsb(#[trigger] buf@.take(end as int)[k]),
        decreases end - i,
    {
        i = i + 1;
    }
    proof {
        lemma_next_ws(buf@.take(end as int), from as int, i as int, false);
    }
    i
}

/// Scans forward to the first whitespace byte before `end`.
#[verifier::loop_isolation(false)]
fn scan_ws(buf: &Vec<u8>, from: usize, end: usize) -> (r: usize)
    requires
        from <= end <= buf@.len(),
    ensures
        from <= r <= end,
        r as int == next_ws(buf@.take(end as int), from as int),
        r < end ==> is_wsb(buf@.take(end as int)[r as int]),
{
    let mut i: usize = from;
    while i < end && !(buf[i] == 32u8 || buf[i] == 9u8 || buf[i] == 13u8 || buf[i] == 10u8)
        invariant
            from <= i <= end,
            forall|k: int| from <= k < i ==> !is_wsb(#[trigger] buf@.take(end as int)[k]),
        decreases end - i,
    {
        i = i + 1;
    }
    proof {
        lemma_next_ws(buf@.take(end as int), from as int, i as int, true);
    }
    i
}

} // verus!
