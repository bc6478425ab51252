//! The decisions of the process adapters: what a target's output becomes,
//! which failures map to which broker errors, and the structural limits on
//! JSON that crosses the boundary.
use vstd::prelude::*;
use crate::codes::{BrokerErrorCode, MAX_ARRAY_ITEMS, MAX_JSON_DEPTH, MAX_STRING_BYTES};
use crate::config::OutputKind;
use crate::json::{JsonValue, JsonNumber, lookup, get_key, find_key_index, clone_value, json_same, canonicalize, canonical_of};
use crate::protocol::{BoundedMessage, is_modern_discovery, is_legacy_initialize, offers_modern, field};
use crate::schema::str_is;
use crate::text::{push_char, push_str, utf8_len, string_views, str_eq};

verus! {

/// Maximum size of one newline-delimited message on the upstream MCP wire.
pub const UPSTREAM_MESSAGE_BYTES: usize = 1048576;

/// Calls that may run at once across all targets.
pub const GLOBAL_CALL_SLOTS: usize = 16;

/// The outcome of a target call that ran.
#[derive(Debug)]
pub struct ExecutionResult {
    pub code: BrokerErrorCode,
    pub is_error: bool,
    pub text: Option<String>,
    /// Text blocks in the order the target produced them.
    pub text_blocks: Vec<String>,
    pub structured: Option<JsonValue>,
}

/// A call that did not produce a result.
#[derive(Debug)]
pub struct RuntimeError {
    pub code: BrokerErrorCode,
    pub message: &'static str,
}

impl RuntimeError {
    pub fn new(code: BrokerErrorCode, message: &'static str) -> (r: Self)
        ensures
            r.code == code,
            r.message@ == message@,
    {
        RuntimeError { code, message }
    }
}

/// The process adapter.
#[derive(Debug)]
pub struct Runtime;

impl Runtime {
    pub fn new() -> (r: Self) {
        Runtime
    }

    /// The code of a target that cannot be reached.
    pub fn unavailable(&self) -> (r: BrokerErrorCode)
        ensures
            r == BrokerErrorCode::TargetUnavailable,
    {
        BrokerErrorCode::TargetUnavailable
    }
}

/// Why reading a target's output stopped.
#[derive(Debug, Clone, Copy, PartialEq, Eq, Structural)]
pub enum ReadError {
    LimitExceeded,
    Io,
}

/// The broker error for a failed output read.
pub fn reader_error(error: &ReadError) -> (r: RuntimeError)
    ensures
        *error == ReadError::LimitExceeded ==> r.code == BrokerErrorCode::OutputLimitExceeded
            && r.message@ == "target output exceeded configured limit"@,
        *error == ReadError::Io ==> r.code == BrokerErrorCode::TargetFailed && r.message@ == "target output read failed"@,
{
    match error {
        ReadError::LimitExceeded => RuntimeError::new(BrokerErrorCode::OutputLimitExceeded, "target output exceeded configured limit"),
        ReadError::Io => RuntimeError::new(BrokerErrorCode::TargetFailed, "target output read failed"),
    }
}

/// Whether `read` more bytes still fit in `limit` after `held` bytes.
pub fn read_fits(held: usize, read: usize, limit: usize) -> (r: bool)
    ensures
        r == (held + read <= limit),
{
    held <= limit && read <= limit - held
}

// ---------------------------------------------------------------------------
// Structural limits on JSON.

/// `v`, whose top sits at nesting level `depth`, stays within `max_depth`
/// levels, strings and keys of at most 256 KiB, and arrays of at most 1024
/// items.
pub open spec fn within_limits(v: JsonValue, depth: nat, max_depth: nat) -> bool
    decreases v,
{
    if depth > max_depth {
        false
    } else {
        match v {
            JsonValue::Str(s) => utf8_len(s@) <= MAX_STRING_BYTES,
            JsonValue::Array(xs) => xs@.len() <= MAX_ARRAY_ITEMS
                && forall|i: int| 0 <= i < xs@.len() ==> within_limits(#[trigger] xs@[i], depth + 1, max_depth),
            JsonValue::Object(es) => forall|i: int| 0 <= i < es@.len() ==> utf8_len((#[trigger] es@[i]).0@) <= MAX_STRING_BYTES
                && within_limits(es@[i].1, depth + 1, max_depth),
            _ => true,
        }
    }
}

/// Why a public request is answered with an error before it is dispatched.
#[derive(Debug)]
pub struct RequestRefusal {
    pub code: BrokerErrorCode,
    pub message: &'static str,
    /// The connection is read no further: where a message ended is unknown.
    pub stop: bool,
}

/// The refusal of a framed message before it is parsed: a message over the
/// framing limit ends the connection; a complete one over `request_bytes`
/// is refused and reading goes on; any other passes.
pub fn frame_refusal(frame: &BoundedMessage, request_bytes: usize) -> (r: Option<RequestRefusal>)
    ensures
        match frame {
            BoundedMessage::TooLarge => r matches Some(x) && x.code == BrokerErrorCode::InvalidArguments
                && x.message@ == "request exceeds configured limit"@ && x.stop,
            BoundedMessage::Complete(m) => if m@.len() > request_bytes {
                r matches Some(x) && x.code == BrokerErrorCode::InvalidArguments
                    && x.message@ == "request exceeds configured limit"@ && !x.stop
            } else {
                r is None
            },
        },
{
    match frame {
        BoundedMessage::TooLarge => Some(RequestRefusal {
            code: BrokerErrorCode::InvalidArguments,
            message: "request exceeds configured limit",
            stop: true,
        }),
        BoundedMessage::Complete(m) => if m.len() > request_bytes {
            Some(RequestRefusal {
                code: BrokerErrorCode::InvalidArguments,
                message: "request exceeds configured limit",
                stop: false,
            })
        } else {
            None
        },
    }
}

/// The refusal of a message once it was parsed (`None` where it is not
/// JSON): text that is not JSON, and a value beyond the nesting limit
/// `json_depth` or the string and array limits, are refused and reading goes
/// on; any other value passes.
pub fn request_refusal(parsed: Option<&JsonValue>, json_depth: usize) -> (r: Option<RequestRefusal>)
    ensures
        match parsed {
            None => r matches Some(x) && x.code == BrokerErrorCode::InvalidArguments
                && x.message@ == "invalid JSON request"@ && !x.stop,
            Some(v) => if within_limits(*v, 1, json_depth as nat) {
                r is None
            } else {
                r matches Some(x) && x.code == BrokerErrorCode::InvalidArguments
                    && x.message@ == "request exceeds configured JSON limits"@ && !x.stop
            },
        },
{
    match parsed {
        None => Some(RequestRefusal {
            code: BrokerErrorCode::InvalidArguments,
            message: "invalid JSON request",
            stop: false,
        }),
        Some(v) => if request_within_limits(v, 1, json_depth) {
            None
        } else {
            Some(RequestRefusal {
                code: BrokerErrorCode::InvalidArguments,
                message: "request exceeds configured JSON limits",
                stop: false,
            })
        },
    }
}

/// Law: a value within a nesting limit stays within every larger one, and
/// within the same limit when it sits no deeper.
pub proof fn law_limits_monotonic(v: JsonValue, depth: nat, shallower: nat, max_depth: nat, larger: nat)
    requires
        within_limits(v, depth, max_depth),
        shallower <= depth,
        max_depth <= larger,
    ensures
        within_limits(v, shallower, larger),
    decreases v,
{
    match v {
        JsonValue::Array(xs) => {
            assert forall|i: int| 0 <= i < xs@.len() implies within_limits(#[trigger] xs@[i], shallower + 1, larger) by {
                assert(decreases_to!(v => xs));
                assert(decreases_to!(xs => xs@));
                assert(decreases_to!(xs@ => xs@[i]));
                law_limits_monotonic(xs@[i], depth + 1, shallower + 1, max_depth, larger);
            }
        },
        JsonValue::Object(es) => {
            assert forall|i: int| 0 <= i < es@.len() implies within_limits((#[trigger] es@[i]).1, shallower + 1, larger) by {
                assert(decreases_to!(v => es));
                assert(decreases_to!(es => es@));
                assert(decreases_to!(es@ => es@[i]));
                assert(decreases_to!(es@[i] => es@[i].1));
                law_limits_monotonic(es@[i].1, depth + 1, shallower + 1, max_depth, larger);
            }
        },
        _ => {},
    }
}

/// Whether a request stays within the configured nesting limit and the
/// string and array limits.
pub fn request_within_limits(value: &JsonValue, depth: usize, max_depth: usize) -> (r: bool)
    ensures
        r == within_limits(*value, depth as nat, max_depth as nat),
    decreases *value,
{
    if depth > max_depth {
        return false;
    }
    match value {
        JsonValue::Str(s) => s.as_str().len() <= MAX_STRING_BYTES,
        JsonValue::Array(xs) => {
            if xs.len() > MAX_ARRAY_ITEMS {
                return false;
            }
            if xs.len() > 0 && depth == max_depth {
                assert(!within_limits(xs@[0], depth as nat + 1, max_depth as nat));
                return false;
            }
            let mut i: usize = 0;
            while i < xs.len()
                invariant
                    *value == JsonValue::Array(*xs),
                    depth <= max_depth,
                    xs@.len() > 0 ==> depth < max_depth,
                    i <= xs@.len(),
                    forall|j: int| 0 <= j < i ==> within_limits(#[trigger] xs@[j], depth as nat + 1, max_depth as nat),
                decreases xs@.len() - i,
            {
                proof {
                    assert(decreases_to!(*value => (*value)->Array_0));
                    assert(decreases_to!(*xs => xs@));
                    assert(decreases_to!(xs@ => xs@[i as int]));
                }
                if !request_within_limits(&xs[i], depth + 1, max_depth) {
                    return false;
                }
                i += 1;
            }
            true
        },
        JsonValue::Object(es) => {
            if es.len() > 0 && depth == max_depth {
                assert(!within_limits(es@[0].1, depth as nat + 1, max_depth as nat));
                return false;
            }
            let mut i: usize = 0;
            while i < es.len()
                invariant
                    *value == JsonValue::Object(*es),
                    depth <= max_depth,
                    es@.len() > 0 ==> depth < max_depth,
                    i <= es@.len(),
                    forall|j: int| 0 <= j < i ==> utf8_len((#[trigger] es@[j]).0@) <= MAX_STRING_BYTES
                        && within_limits(es@[j].1, depth as nat + 1, max_depth as nat),
                decreases es@.len() - i,
            {
                proof {
                    assert(decreases_to!(*value => (*value)->Object_0));
                    assert(decreases_to!(*es => es@));
                    assert(decreases_to!(es@ => es@[i as int]));
                    assert(decreases_to!(es@[i as int] => es@[i as int].1));
                }
                if es[i].0.as_str().len() > MAX_STRING_BYTES {
                    return false;
                }
                if !request_within_limits(&es[i].1, depth + 1, max_depth) {
                    return false;
                }
                i += 1;
            }
            true
        },
        _ => true,
    }
}

/// Why an upstream call failed before it produced a result.
#[derive(Debug)]
pub enum McpCallError {
    Runtime(RuntimeError),
    StderrOverflow,
    StderrFailed,
    ConnectionClosed,
    Protocol,
    RemoteError,
    Output,
    MessageLimit,
}

/// The broker error code an upstream call failure is reported with.
pub open spec fn call_error_code(e: McpCallError) -> BrokerErrorCode {
    match e {
        McpCallError::Runtime(r) => r.code,
        McpCallError::StderrOverflow => BrokerErrorCode::OutputLimitExceeded,
        McpCallError::StderrFailed => BrokerErrorCode::TargetFailed,
        McpCallError::ConnectionClosed => BrokerErrorCode::TargetFailed,
        McpCallError::Protocol => BrokerErrorCode::TargetFailed,
        McpCallError::RemoteError => BrokerErrorCode::TargetFailed,
        McpCallError::Output => BrokerErrorCode::InvalidTargetOutput,
        McpCallError::MessageLimit => BrokerErrorCode::OutputLimitExceeded,
    }
}

/// The message an upstream call failure is reported with.
pub open spec fn call_error_message(e: McpCallError) -> Seq<char> {
    match e {
        McpCallError::Runtime(r) => r.message@,
        McpCallError::StderrOverflow => "upstream stderr exceeded configured limit"@,
        McpCallError::StderrFailed => "upstream stderr could not be read"@,
        McpCallError::ConnectionClosed => "upstream connection failed"@,
        McpCallError::Protocol => "upstream protocol response was invalid"@,
        McpCallError::RemoteError => "upstream returned an error"@,
        McpCallError::Output => "upstream output was invalid"@,
        McpCallError::MessageLimit => "upstream message exceeded configured limit"@,
    }
}

/// The broker error an upstream call failure is reported as.
pub fn call_error_to_runtime(e: McpCallError) -> (r: RuntimeError)
    ensures
        r.code == call_error_code(e),
        r.message@ == call_error_message(e),
{
    match e {
        McpCallError::Runtime(value) => value,
        McpCallError::StderrOverflow => RuntimeError::new(BrokerErrorCode::OutputLimitExceeded, "upstream stderr exceeded configured limit"),
        McpCallError::StderrFailed => RuntimeError::new(BrokerErrorCode::TargetFailed, "upstream stderr could not be read"),
        McpCallError::ConnectionClosed => RuntimeError::new(BrokerErrorCode::TargetFailed, "upstream connection failed"),
        McpCallError::Protocol => RuntimeError::new(BrokerErrorCode::TargetFailed, "upstream protocol response was invalid"),
        McpCallError::RemoteError => RuntimeError::new(BrokerErrorCode::TargetFailed, "upstream returned an error"),
        McpCallError::Output => RuntimeError::new(BrokerErrorCode::InvalidTargetOutput, "upstream output was invalid"),
        McpCallError::MessageLimit => RuntimeError::new(BrokerErrorCode::OutputLimitExceeded, "upstream message exceeded configured limit"),
    }
}

/// Passes JSON from a target on when it is within the structural limits.
pub fn bounded_json(value: JsonValue, depth: usize) -> (r: Result<JsonValue, McpCallError>)
    ensures
        within_limits(value, depth as nat, MAX_JSON_DEPTH as nat) ==> r == Ok::<JsonValue, McpCallError>(value),
        !within_limits(value, depth as nat, MAX_JSON_DEPTH as nat) ==> r matches Err(McpCallError::Output),
{
    if request_within_limits(&value, depth, MAX_JSON_DEPTH) {
        Ok(value)
    } else {
        Err(McpCallError::Output)
    }
}


// ---------------------------------------------------------------------------
// Upstream results.

/// The text of a content block: a `text` block whose text is a string of at
/// most 256 KiB.
pub open spec fn block_text(b: JsonValue) -> Option<Seq<char>> {
    match b {
        JsonValue::Object(f) => if lookup(f@, "type"@) matches Some(t) && str_is(t, "text"@) {
            match lookup(f@, "text"@) {
                Some(JsonValue::Str(x)) => if utf8_len(x@) <= MAX_STRING_BYTES {
                    Some(x@)
                } else {
                    None
                },
                _ => None,
            }
        } else {
            None
        },
        _ => None,
    }
}

/// The texts of the `content` blocks of a result object, when there is no
/// content (none) or all of it is text.
pub open spec fn content_texts(obj: Seq<(String, JsonValue)>) -> Option<Seq<Seq<char>>> {
    match lookup(obj, "content"@) {
        None => Some(Seq::empty()),
        Some(JsonValue::Array(bs)) => if forall|i: int| 0 <= i < bs@.len() ==> (#[trigger] block_text(bs@[i])) is Some {
            Some(Seq::new(bs@.len(), |i: int| block_text(bs@[i])->0))
        } else {
            None
        },
        Some(_) => None,
    }
}

/// The texts joined with a newline after every non-empty prefix.
pub open spec fn join_texts(ts: Seq<Seq<char>>) -> Seq<char>
    decreases ts.len(),
{
    if ts.len() == 0 {
        Seq::empty()
    } else {
        let a = join_texts(ts.drop_last());
        if a.len() > 0 {
            a + seq!['\n'] + ts.last()
        } else {
            a + ts.last()
        }
    }
}

/// How adapting an upstream result can fail.
#[derive(Debug, Clone, Copy, PartialEq, Eq, Structural)]
pub enum AdaptFailure {
    Output,
    MessageLimit,
}

/// What an upstream result becomes: whether it reports a tool error, its text
/// blocks and its structured content, or why it is refused. `structured_bytes`
/// is the size of the structured content as serialized.
pub open spec fn adapt_outcome(value: JsonValue, kind: OutputKind, output_limit: usize, structured_bytes: usize)
    -> Result<(bool, Seq<Seq<char>>, Option<JsonValue>), AdaptFailure> {
    match value {
        JsonValue::Object(es) => match content_texts(es@) {
            None => Err(AdaptFailure::Output),
            Some(blocks) => {
                let st = lookup(es@, "structuredContent"@);
                let is_error = lookup(es@, "isError"@) == Some(JsonValue::Bool(true));
                if st matches Some(x) && !within_limits(x, 1, MAX_JSON_DEPTH as nat) {
                    Err(AdaptFailure::Output)
                } else if kind == OutputKind::Text && (st is Some || blocks.len() == 0) {
                    Err(AdaptFailure::Output)
                } else if kind == OutputKind::Structured && st is None {
                    Err(AdaptFailure::Output)
                } else if utf8_len(join_texts(blocks)) + (if st is Some { structured_bytes as int } else { 0 }) > output_limit {
                    Err(AdaptFailure::MessageLimit)
                } else {
                    Ok((is_error, blocks, st))
                }
            },
        },
        _ => Err(AdaptFailure::Output),
    }
}

/// `r` is the execution result of the outcome `o`.
pub open spec fn adapted(r: ExecutionResult, o: (bool, Seq<Seq<char>>, Option<JsonValue>)) -> bool {
    &&& r.code == BrokerErrorCode::TargetFailed
    &&& r.is_error == o.0
    &&& if o.0 {
        r.text is None && r.text_blocks@.len() == 0 && r.structured is None
    } else {
        &&& string_views(r.text_blocks@) == o.1
        &&& (if o.1.len() > 0 { r.text matches Some(t) && t@ == join_texts(o.1) } else { r.text is None })
        &&& r.structured == o.2
    }
}

/// Law: an adapted upstream result that is not a tool error carries the
/// upstream result's `structuredContent` unchanged (present exactly when the
/// upstream result holds that key), and its text blocks in order; it is
/// marked a tool error exactly when the upstream result sets `isError` to
/// true, and then carries nothing else; a text tool's result never had
/// structured content, and a structured tool's result always had it.
pub proof fn law_structured_content_kept(value: JsonValue, kind: OutputKind, output_limit: usize, structured_bytes: usize, x: ExecutionResult)
    requires
        adapt_outcome(value, kind, output_limit, structured_bytes) matches Ok(o) && adapted(x, o),
    ensures
        value matches JsonValue::Object(es) && x.is_error == (lookup(es@, "isError"@) == Some(JsonValue::Bool(true))),
        !x.is_error ==> (value matches JsonValue::Object(es) && x.structured == lookup(es@, "structuredContent"@)
            && content_texts(es@) == Some(string_views(x.text_blocks@))),
        kind == OutputKind::Text ==> (value matches JsonValue::Object(es) && lookup(es@, "structuredContent"@) is None),
        kind == OutputKind::Structured ==> (value matches JsonValue::Object(es) && lookup(es@, "structuredContent"@) is Some),
        x.is_error ==> x.structured is None && x.text is None && x.text_blocks@.len() == 0,
{
}

/// Adapts the result object of an upstream tool call to the tool's output
/// kind and the target's output limit. `structured_bytes` is the serialized
/// size of its structured content, if any.
pub fn adapt_result(value: JsonValue, kind: OutputKind, output_limit: usize, structured_bytes: usize) -> (r: Result<ExecutionResult, McpCallError>)
    ensures
        match adapt_outcome(value, kind, output_limit, structured_bytes) {
            Ok(o) => r matches Ok(x) && adapted(x, o),
            Err(AdaptFailure::Output) => r matches Err(McpCallError::Output),
            Err(AdaptFailure::MessageLimit) => r matches Err(McpCallError::MessageLimit),
        },
        r matches Ok(x) ==> (!x.is_error ==> (value matches JsonValue::Object(es)
            && x.structured == lookup(es@, "structuredContent"@))),
{
    let ghost whole = value;
    let mut es = match value {
        JsonValue::Object(es) => es,
        _ => {
            return Err(McpCallError::Output);
        },
    };
    let is_error = match get_key(&es, "isError") {
        Some(JsonValue::Bool(b)) => *b,
        _ => false,
    };
    let mut text = String::new();
    let mut text_blocks: Vec<String> = Vec::new();
    match get_key(&es, "content") {
        Some(JsonValue::Array(bs)) => {
            let mut i: usize = 0;
            while i < bs.len()
                invariant
                    value == JsonValue::Object(es),
                    lookup(es@, "content"@) == Some(JsonValue::Array(*bs)),
                    i <= bs@.len(),
                    text_blocks@.len() == i,
                    forall|j: int| 0 <= j < i ==> (#[trigger] block_text(bs@[j])) == Some(text_blocks@[j]@),
                    text@ == join_texts(string_views(text_blocks@)),
                decreases bs@.len() - i,
            {
                let part = match block_text_of(&bs[i]) {
                    Some(p) => p,
                    None => {
                        assert(content_texts(es@) is None);
                        return Err(McpCallError::Output);
                    },
                };
                let ghost before = string_views(text_blocks@);
                if !text.as_str().is_empty() {
                    push_char(&mut text, '\n');
                }
                push_str(&mut text, part.as_str());
                text_blocks.push(part);
                assert(string_views(text_blocks@).drop_last() =~= before);
                assert(string_views(text_blocks@).last() == part@);
                i += 1;
            }
            assert(string_views(text_blocks@) =~= content_texts(es@)->0);
        },
        Some(_) => {
            return Err(McpCallError::Output);
        },
        None => {
            assert(string_views(text_blocks@) =~= Seq::<Seq<char>>::empty());
        },
    }
    let ghost entries = es@;
    let structured: Option<JsonValue> = match find_key_index(&es, "structuredContent") {
        Some(idx) => {
            if !request_within_limits(&es[idx].1, 1, MAX_JSON_DEPTH) {
                return Err(McpCallError::Output);
            }
            let entry = es.remove(idx);
            Some(entry.1)
        },
        None => None,
    };
    assert(structured == lookup(entries, "structuredContent"@));
    if kind == OutputKind::Text && (structured.is_some() || text_blocks.len() == 0) {
        return Err(McpCallError::Output);
    }
    if kind == OutputKind::Structured && structured.is_none() {
        return Err(McpCallError::Output);
    }
    let sbytes = if structured.is_some() { structured_bytes } else { 0 };
    let tlen = text.as_str().len();
    if tlen > output_limit || sbytes > output_limit - tlen {
        return Err(McpCallError::MessageLimit);
    }
    if is_error {
        return Ok(ExecutionResult {
            code: BrokerErrorCode::TargetFailed,
            is_error: true,
            text: None,
            text_blocks: Vec::new(),
            structured: None,
        });
    }
    let out_text = if text_blocks.len() > 0 { Some(text) } else { None };
    Ok(ExecutionResult {
        code: BrokerErrorCode::TargetFailed,
        is_error: false,
        text: out_text,
        text_blocks,
        structured,
    })
}

/// The text of one content block, when it is a bounded text block.
fn block_text_of(b: &JsonValue) -> (r: Option<String>)
    ensures
        match r {
            Some(t) => block_text(*b) == Some(t@),
            None => block_text(*b) is None,
        },
{
    let f = match b {
        JsonValue::Object(f) => f,
        _ => {
            return None;
        },
    };
    let is_text = match get_key(f, "type") {
        Some(JsonValue::Str(t)) => str_eq(t.as_str(), "text"),
        _ => false,
    };
    if !is_text {
        return None;
    }
    match get_key(f, "text") {
        Some(JsonValue::Str(x)) => {
            if x.as_str().len() > MAX_STRING_BYTES {
                None
            } else {
                Some(x.clone())
            }
        },
        _ => None,
    }
}


// ---------------------------------------------------------------------------
// Upstream session decisions.

/// What a decoded upstream message means while a reply to request `id` is
/// awaited: a notification to skip, or the end of the wait.
pub open spec fn reply_outcome(value: JsonValue, id: u64) -> Option<Result<JsonValue, McpCallErrorKind>> {
    match value {
        JsonValue::Object(o) => if !(lookup(o@, "jsonrpc"@) matches Some(v) && str_is(v, "2.0"@)) {
            Some(Err(McpCallErrorKind::Protocol))
        } else if lookup(o@, "method"@) is Some {
            if lookup(o@, "id"@) is None {
                None
            } else {
                Some(Err(McpCallErrorKind::Protocol))
            }
        } else if lookup(o@, "id"@) != Some(JsonValue::Number(JsonNumber::PosInt(id))) {
            Some(Err(McpCallErrorKind::Protocol))
        } else {
            match (lookup(o@, "result"@), lookup(o@, "error"@)) {
                (Some(_), Some(_)) => Some(Err(McpCallErrorKind::Protocol)),
                (None, Some(e)) => if e is Object {
                    Some(Err(McpCallErrorKind::RemoteError))
                } else {
                    Some(Err(McpCallErrorKind::Protocol))
                },
                (Some(r), None) => Some(Ok(r)),
                (None, None) => Some(Err(McpCallErrorKind::Protocol)),
            }
        },
        _ => Some(Err(McpCallErrorKind::Protocol)),
    }
}

/// The failures a reply can end in.
#[derive(Debug, Clone, Copy, PartialEq, Eq, Structural)]
pub enum McpCallErrorKind {
    Protocol,
    RemoteError,
}

pub open spec fn kind_of(e: McpCallError) -> Option<McpCallErrorKind> {
    match e {
        McpCallError::Protocol => Some(McpCallErrorKind::Protocol),
        McpCallError::RemoteError => Some(McpCallErrorKind::RemoteError),
        _ => None,
    }
}

/// Classifies a decoded upstream message while the reply to `id` is awaited:
/// `None` for a notification, otherwise the reply's result or the failure.
pub fn classify_reply(value: &JsonValue, id: u64) -> (r: Option<Result<JsonValue, McpCallError>>)
    ensures
        match reply_outcome(*value, id) {
            None => r is None,
            Some(Ok(x)) => r matches Some(Ok(y)) && json_same(x, y),
            Some(Err(k)) => r matches Some(Err(e)) && kind_of(e) == Some(k),
        },
{
    let o = match value {
        JsonValue::Object(o) => o,
        _ => {
            return Some(Err(McpCallError::Protocol));
        },
    };
    let version_ok = match get_key(o, "jsonrpc") {
        Some(JsonValue::Str(v)) => str_eq(v.as_str(), "2.0"),
        _ => false,
    };
    if !version_ok {
        return Some(Err(McpCallError::Protocol));
    }
    if get_key(o, "method").is_some() {
        if get_key(o, "id").is_none() {
            return None;
        }
        return Some(Err(McpCallError::Protocol));
    }
    let id_ok = match get_key(o, "id") {
        Some(JsonValue::Number(JsonNumber::PosInt(n))) => *n == id,
        _ => false,
    };
    if !id_ok {
        return Some(Err(McpCallError::Protocol));
    }
    match (get_key(o, "result"), get_key(o, "error")) {
        (Some(_), Some(_)) => Some(Err(McpCallError::Protocol)),
        (None, Some(e)) => match e {
            JsonValue::Object(_) => Some(Err(McpCallError::RemoteError)),
            _ => Some(Err(McpCallError::Protocol)),
        },
        (Some(x), None) => Some(Ok(clone_value(x))),
        (None, None) => Some(Err(McpCallError::Protocol)),
    }
}

/// How a session continues after the discovery request.
#[derive(Debug)]
pub enum Negotiation {
    /// The server speaks the modern revision; the next request ID is 2.
    Modern,
    /// Initialize with the legacy revision using request ID `id`, on a
    /// restarted process when `restart`.
    Legacy { restart: bool, id: u64 },
    /// The session cannot start.
    Fail(McpCallError),
}

/// Decides how to continue after the discovery request answered `reply`.
pub fn after_discovery(reply: Result<JsonValue, McpCallError>) -> (r: Negotiation)
    ensures
        match reply {
            Ok(v) => if offers_modern(v) {
                r is Modern
            } else {
                r == (Negotiation::Legacy { restart: false, id: 2 })
            },
            Err(McpCallError::RemoteError) => r == (Negotiation::Legacy { restart: false, id: 2 }),
            Err(McpCallError::ConnectionClosed) => r == (Negotiation::Legacy { restart: true, id: 1 }),
            Err(e) => r == Negotiation::Fail(e),
        },
{
    match reply {
        Ok(v) => {
            if is_modern_discovery(&v) {
                Negotiation::Modern
            } else {
                Negotiation::Legacy { restart: false, id: 2 }
            }
        },
        Err(McpCallError::RemoteError) => Negotiation::Legacy { restart: false, id: 2 },
        Err(McpCallError::ConnectionClosed) => Negotiation::Legacy { restart: true, id: 1 },
        Err(e) => Negotiation::Fail(e),
    }
}

/// Whether a legacy `initialize` answer lets the session start.
pub fn initialize_accepted(reply: &JsonValue) -> (r: bool)
    ensures
        r == (field(*reply, "protocolVersion"@) matches Some(x) && str_is(x, "2025-11-25"@)),
{
    is_legacy_initialize(reply)
}

/// The request ID after `id`.
pub fn next_request_id(id: u64) -> (r: u64)
    ensures
        r == if id < u64::MAX { id + 1 } else { id as int },
{
    if id < u64::MAX { id + 1 } else { id }
}


/// Whether a serialized upstream request of `len` bytes fits on the wire with
/// its newline.
pub fn upstream_fits(len: usize) -> (r: bool)
    ensures
        r == (len + 1 <= UPSTREAM_MESSAGE_BYTES),
{
    len < UPSTREAM_MESSAGE_BYTES
}

/// What one upstream reply frame gives: a frame over the message limit fails
/// with `MessageLimit`, an empty one with `Protocol`; any other is the reply.
pub fn upstream_reply(frame: BoundedMessage) -> (r: Result<Vec<u8>, McpCallError>)
    ensures
        match frame {
            BoundedMessage::TooLarge => r matches Err(McpCallError::MessageLimit),
            BoundedMessage::Complete(m) => if m@.len() == 0 {
                r matches Err(McpCallError::Protocol)
            } else {
                r matches Ok(b) && b@ == m@
            },
        },
{
    match frame {
        BoundedMessage::TooLarge => Err(McpCallError::MessageLimit),
        BoundedMessage::Complete(m) => if m.len() == 0 {
            Err(McpCallError::Protocol)
        } else {
            Ok(m)
        },
    }
}

/// The code a run that ends for several reasons at once is reported with:
/// cancellation first, then output over its limit, then the deadline, then
/// an I/O or process failure; none where no such reason holds.
pub fn termination_code(cancelled: bool, output_exceeded: bool, timed_out: bool, failed: bool) -> (r: Option<BrokerErrorCode>)
    ensures
        r == if cancelled {
            Some(BrokerErrorCode::Cancelled)
        } else if output_exceeded {
            Some(BrokerErrorCode::OutputLimitExceeded)
        } else if timed_out {
            Some(BrokerErrorCode::TargetTimeout)
        } else if failed {
            Some(BrokerErrorCode::TargetFailed)
        } else {
            None::<BrokerErrorCode>
        },
{
    if cancelled {
        Some(BrokerErrorCode::Cancelled)
    } else if output_exceeded {
        Some(BrokerErrorCode::OutputLimitExceeded)
    } else if timed_out {
        Some(BrokerErrorCode::TargetTimeout)
    } else if failed {
        Some(BrokerErrorCode::TargetFailed)
    } else {
        None
    }
}

/// The error a run that ends with `error` is reported as, once the other
/// reasons that hold at that moment (cancellation, the deadline having
/// passed) are weighed in the order of `termination_code`: a cancelled run is
/// reported cancelled; output over its limit stands; a run past its deadline
/// is reported timed out; any other failure stands.
pub fn settle_termination(error: RuntimeError, cancelled: bool, deadline_passed: bool) -> (r: RuntimeError)
    ensures
        cancelled ==> r.code == BrokerErrorCode::Cancelled && r.message@ == "broker is shutting down"@,
        !cancelled && error.code == BrokerErrorCode::OutputLimitExceeded ==> r == error,
        !cancelled && error.code != BrokerErrorCode::OutputLimitExceeded
            && (error.code == BrokerErrorCode::TargetTimeout || deadline_passed)
            ==> r.code == BrokerErrorCode::TargetTimeout && r.message@ == "target timed out"@,
        !cancelled && error.code != BrokerErrorCode::OutputLimitExceeded && error.code != BrokerErrorCode::TargetTimeout
            && !deadline_passed ==> r == error,
{
    let output = error.code == BrokerErrorCode::OutputLimitExceeded;
    let timed_out = error.code == BrokerErrorCode::TargetTimeout || deadline_passed;
    let failed = !output && error.code != BrokerErrorCode::TargetTimeout;
    match termination_code(cancelled, output, timed_out, failed) {
        Some(BrokerErrorCode::Cancelled) => RuntimeError::new(BrokerErrorCode::Cancelled, "broker is shutting down"),
        Some(BrokerErrorCode::TargetTimeout) => RuntimeError::new(BrokerErrorCode::TargetTimeout, "target timed out"),
        _ => error,
    }
}

/// Counts `read` more stderr bytes: the new total (saturating) and whether it
/// is over `limit`.
pub fn stderr_step(total: usize, read: usize, limit: usize) -> (r: (usize, bool))
    ensures
        r.0 == if total + read <= usize::MAX { total + read } else { usize::MAX as int },
        r.1 == (r.0 > limit),
{
    let t = if total <= usize::MAX - read { total + read } else { usize::MAX };
    (t, t > limit)
}

/// The structured result of a command-line target's JSON output: within the
/// structural limits, zeros written as the integer `0`.
pub fn normalize_cli_json(value: JsonValue) -> (r: Result<JsonValue, RuntimeError>)
    ensures
        match r {
            Ok(v) => within_limits(value, 1, MAX_JSON_DEPTH as nat) && canonical_of(v, value),
            Err(e) => !within_limits(value, 1, MAX_JSON_DEPTH as nat) && e.code == BrokerErrorCode::InvalidTargetOutput
                && e.message@ == "target JSON output exceeded structural limits"@,
        },
{
    match bounded_json(value, 1) {
        Ok(v) => Ok(canonicalize(v)),
        Err(_) => Err(RuntimeError::new(BrokerErrorCode::InvalidTargetOutput, "target JSON output exceeded structural limits")),
    }
}

/// The result of a command-line run that exited unsuccessfully: a tool error
/// that carries none of the target's output.
pub open spec fn failed_run(r: ExecutionResult) -> bool {
    &&& r.code == BrokerErrorCode::TargetFailed
    &&& r.is_error
    &&& r.text is None
    &&& r.text_blocks@.len() == 0
    &&& r.structured is None
}

/// A successful run whose output text is `t`, with `structured` as its
/// structured content.
pub open spec fn output_run(r: ExecutionResult, t: Seq<char>, structured: Option<JsonValue>) -> bool {
    &&& r.code == BrokerErrorCode::TargetFailed
    &&& !r.is_error
    &&& r.text matches Some(x) && x@ == t
    &&& r.text_blocks@.len() == 1
    &&& r.text_blocks@[0]@ == t
    &&& r.structured == structured
}

/// What a finished command-line run comes to before its output is decoded:
/// an unsuccessful exit is a tool error without output; a tool that asks for
/// structured upstream content cannot be served by a command line; otherwise
/// (`None`) the output is decoded as the output kind says.
pub fn cli_exit_outcome(success: bool, kind: OutputKind) -> (r: Option<Result<ExecutionResult, RuntimeError>>)
    ensures
        !success ==> (r matches Some(Ok(x)) && failed_run(x)),
        success && kind == OutputKind::Structured ==> (r matches Some(Err(e)) && e.code == BrokerErrorCode::InvalidTargetOutput
            && e.message@ == "CLI targets do not support structured upstream output"@),
        success && kind != OutputKind::Structured ==> r is None,
{
    if !success {
        return Some(Ok(ExecutionResult {
            code: BrokerErrorCode::TargetFailed,
            is_error: true,
            text: None,
            text_blocks: Vec::new(),
            structured: None,
        }));
    }
    match kind {
        OutputKind::Structured => Some(Err(RuntimeError::new(BrokerErrorCode::InvalidTargetOutput, "CLI targets do not support structured upstream output"))),
        _ => None,
    }
}

/// The result of a text-output run whose standard output, read as UTF-8, is
/// `text` (`None`: the output is not UTF-8).
pub fn cli_text_outcome(text: Option<String>) -> (r: Result<ExecutionResult, RuntimeError>)
    ensures
        match text {
            Some(t) => r matches Ok(x) && output_run(x, t@, None),
            None => r matches Err(e) && e.code == BrokerErrorCode::InvalidTargetOutput && e.message@ == "target output was not UTF-8"@,
        },
{
    match text {
        Some(t) => {
            let copy = t.clone();
            let mut blocks: Vec<String> = Vec::new();
            blocks.push(t);
            Ok(ExecutionResult { code: BrokerErrorCode::TargetFailed, is_error: false, text: Some(copy), text_blocks: blocks, structured: None })
        },
        None => Err(RuntimeError::new(BrokerErrorCode::InvalidTargetOutput, "target output was not UTF-8")),
    }
}

/// The structured value of a JSON-output run whose standard output parsed as
/// `parsed` (`None`: not JSON): the value within the structural limits, in
/// canonical form.
pub fn cli_json_value(parsed: Option<JsonValue>) -> (r: Result<JsonValue, RuntimeError>)
    ensures
        match parsed {
            Some(v) => match r {
                Ok(w) => within_limits(v, 1, MAX_JSON_DEPTH as nat) && canonical_of(w, v),
                Err(e) => !within_limits(v, 1, MAX_JSON_DEPTH as nat) && e.code == BrokerErrorCode::InvalidTargetOutput
                    && e.message@ == "target JSON output exceeded structural limits"@,
            },
            None => r matches Err(e) && e.code == BrokerErrorCode::InvalidTargetOutput && e.message@ == "target output was not valid JSON"@,
        },
{
    match parsed {
        Some(v) => normalize_cli_json(v),
        None => Err(RuntimeError::new(BrokerErrorCode::InvalidTargetOutput, "target output was not valid JSON")),
    }
}

/// The result of a JSON-output run: the canonical value `value` as structured
/// content and `text`, its compact rendering, as the text (`None`: the value
/// could not be rendered).
pub fn cli_json_outcome(value: JsonValue, text: Option<String>) -> (r: Result<ExecutionResult, RuntimeError>)
    ensures
        match text {
            Some(t) => r matches Ok(x) && output_run(x, t@, Some(value)),
            None => r matches Err(e) && e.code == BrokerErrorCode::InvalidTargetOutput
                && e.message@ == "target output could not be normalized"@,
        },
{
    match text {
        Some(t) => {
            let copy = t.clone();
            let mut blocks: Vec<String> = Vec::new();
            blocks.push(t);
            Ok(ExecutionResult { code: BrokerErrorCode::TargetFailed, is_error: false, text: Some(copy), text_blocks: blocks, structured: Some(value) })
        },
        None => Err(RuntimeError::new(BrokerErrorCode::InvalidTargetOutput, "target output could not be normalized")),
    }
}

} // verus!
