//! The public MCP server's request decisions: which requests are well formed,
//! what each method does, and how results and errors are written.
use vstd::prelude::*;
use crate::codes::{BrokerErrorCode, code_name};
use crate::config::ValidatedConfig;
use crate::runtime::ExecutionResult;
use crate::json::{JsonValue, JsonNumber, lookup, has_key, get_key, contains_key, clone_value, json_same, lemma_find_iff_has, lemma_lookup_at, lemma_no_key};
use crate::schema::str_is;
use crate::text::{str_eq, string_of, push_str, string_views};

verus! {

/// The protocol revision a client negotiated.
#[derive(Clone, Copy, Debug, PartialEq, Eq, Structural)]
pub enum PublicRevision {
    Modern,
    Legacy,
}

pub open spec fn envelope_key(k: Seq<char>) -> bool {
    k == "jsonrpc"@ || k == "id"@ || k == "method"@ || k == "params"@
}

pub open spec fn is_id_value(v: JsonValue) -> bool {
    v is Null || v is Str || v is Number
}

/// Why a request is not a JSON-RPC envelope, in the order the checks are
/// made.
pub open spec fn envelope_error(request: JsonValue) -> Option<Seq<char>> {
    match request {
        JsonValue::Object(o) => if exists|i: int| 0 <= i < o@.len() && !envelope_key((#[trigger] o@[i]).0@) {
            Some("unknown JSON-RPC envelope field"@)
        } else if !(lookup(o@, "jsonrpc"@) matches Some(v) && str_is(v, "2.0"@)) {
            Some("jsonrpc must be exactly 2.0"@)
        } else if !(lookup(o@, "method"@) matches Some(v) && v is Str) {
            Some("method is required"@)
        } else if lookup(o@, "id"@) matches Some(v) && !is_id_value(v) {
            Some("id must be a string, number, or null"@)
        } else if lookup(o@, "params"@) matches Some(v) && !(v is Object) {
            Some("params must be an object"@)
        } else {
            None
        },
        _ => Some("request must be an object"@),
    }
}

fn is_string(v: Option<&JsonValue>) -> (r: bool)
    ensures
        r == (v matches Some(x) && x is Str),
{
    match v {
        Some(JsonValue::Str(_)) => true,
        _ => false,
    }
}

fn is_object(v: Option<&JsonValue>) -> (r: bool)
    ensures
        r == (v matches Some(x) && x is Object),
{
    match v {
        Some(JsonValue::Object(_)) => true,
        _ => false,
    }
}

fn is_text(v: Option<&JsonValue>, t: &str) -> (r: bool)
    ensures
        r == (v matches Some(x) && str_is(*x, t@)),
{
    match v {
        Some(JsonValue::Str(s)) => str_eq(s.as_str(), t),
        _ => false,
    }
}

/// Checks the JSON-RPC envelope of a request.
pub fn validate_envelope(request: &JsonValue) -> (r: Option<&'static str>)
    ensures
        match envelope_error(*request) {
            Some(m) => r matches Some(x) && x@ == m,
            None => r is None,
        },
{
    let o = match request {
        JsonValue::Object(o) => o,
        _ => {
            return Some("request must be an object");
        },
    };
    let mut i: usize = 0;
    while i < o.len()
        invariant
            *request == JsonValue::Object(*o),
            i <= o@.len(),
            forall|j: int| 0 <= j < i ==> envelope_key((#[trigger] o@[j]).0@),
        decreases o@.len() - i,
    {
        let k = o[i].0.as_str();
        if !(str_eq(k, "jsonrpc") || str_eq(k, "id") || str_eq(k, "method") || str_eq(k, "params")) {
            assert(!envelope_key(o@[i as int].0@));
            return Some("unknown JSON-RPC envelope field");
        }
        i += 1;
    }
    if !is_text(get_key(o, "jsonrpc"), "2.0") {
        return Some("jsonrpc must be exactly 2.0");
    }
    if !is_string(get_key(o, "method")) {
        return Some("method is required");
    }
    match get_key(o, "id") {
        Some(JsonValue::Null) | Some(JsonValue::Str(_)) | Some(JsonValue::Number(_)) | None => {},
        Some(_) => {
            return Some("id must be a string, number, or null");
        },
    }
    match get_key(o, "params") {
        Some(JsonValue::Object(_)) | None => {},
        Some(_) => {
            return Some("params must be an object");
        },
    }
    None
}

/// The parameter names a method accepts.
pub open spec fn param_allowed(method: Seq<char>, k: Seq<char>) -> bool {
    if method == "initialize"@ {
        k == "protocolVersion"@ || k == "capabilities"@ || k == "clientInfo"@ || k == "_meta"@
    } else if method == "server/discover"@ || method == "notifications/initialized"@ {
        k == "_meta"@
    } else if method == "tools/list"@ {
        k == "cursor"@ || k == "_meta"@
    } else if method == "tools/call"@ {
        k == "name"@ || k == "arguments"@ || k == "_meta"@
    } else {
        false
    }
}

pub open spec fn present_and_not(o: Seq<(String, JsonValue)>, k: Seq<char>, object: bool) -> bool {
    match lookup(o, k) {
        Some(v) => if object { !(v is Object) } else { !(v is Str) },
        None => false,
    }
}

/// Why the parameters of a method are refused, in the order the checks are
/// made.
pub open spec fn params_error(method: Seq<char>, params: JsonValue) -> Option<Seq<char>> {
    match params {
        JsonValue::Object(o) => if exists|i: int| 0 <= i < o@.len() && !param_allowed(method, (#[trigger] o@[i]).0@) {
            Some("unknown method parameter"@)
        } else if method == "initialize"@ && (present_and_not(o@, "protocolVersion"@, false)
            || present_and_not(o@, "capabilities"@, true) || present_and_not(o@, "clientInfo"@, true)) {
            Some("invalid initialize parameters"@)
        } else if method == "tools/list"@ && present_and_not(o@, "cursor"@, false) {
            Some("cursor must be a string"@)
        } else if method == "tools/call"@ && present_and_not(o@, "name"@, false) {
            Some("tool name must be a string"@)
        } else if method == "tools/call"@ && present_and_not(o@, "arguments"@, true) {
            Some("tool arguments must be an object"@)
        } else {
            None
        },
        _ => Some("params must be an object"@),
    }
}

fn allowed(method: &str, k: &str) -> (r: bool)
    ensures
        r == param_allowed(method@, k@),
{
    if str_eq(method, "initialize") {
        str_eq(k, "protocolVersion") || str_eq(k, "capabilities") || str_eq(k, "clientInfo") || str_eq(k, "_meta")
    } else if str_eq(method, "server/discover") || str_eq(method, "notifications/initialized") {
        str_eq(k, "_meta")
    } else if str_eq(method, "tools/list") {
        str_eq(k, "cursor") || str_eq(k, "_meta")
    } else if str_eq(method, "tools/call") {
        str_eq(k, "name") || str_eq(k, "arguments") || str_eq(k, "_meta")
    } else {
        false
    }
}

fn present_not(o: &Vec<(String, JsonValue)>, k: &str, object: bool) -> (r: bool)
    ensures
        r == present_and_not(o@, k@, object),
{
    match get_key(o, k) {
        Some(v) => if object {
            match v {
                JsonValue::Object(_) => false,
                _ => true,
            }
        } else {
            match v {
                JsonValue::Str(_) => false,
                _ => true,
            }
        },
        None => false,
    }
}

/// Checks the parameters of a method.
pub fn validate_params(method: &str, params: &JsonValue) -> (r: Option<&'static str>)
    ensures
        match params_error(method@, *params) {
            Some(m) => r matches Some(x) && x@ == m,
            None => r is None,
        },
{
    let o = match params {
        JsonValue::Object(o) => o,
        _ => {
            return Some("params must be an object");
        },
    };
    let mut i: usize = 0;
    while i < o.len()
        invariant
            *params == JsonValue::Object(*o),
            i <= o@.len(),
            forall|j: int| 0 <= j < i ==> param_allowed(method@, (#[trigger] o@[j]).0@),
        decreases o@.len() - i,
    {
        if !allowed(method, o[i].0.as_str()) {
            assert(!param_allowed(method@, o@[i as int].0@));
            assert(exists|j: int| 0 <= j < o@.len() && !param_allowed(method@, (#[trigger] o@[j]).0@));
            assert(params_error(method@, *params) == Some("unknown method parameter"@));
            return Some("unknown method parameter");
        }
        i += 1;
    }
    if str_eq(method, "initialize") && (present_not(o, "protocolVersion", false) || present_not(o, "capabilities", true)
        || present_not(o, "clientInfo", true)) {
        return Some("invalid initialize parameters");
    }
    if str_eq(method, "tools/list") && present_not(o, "cursor", false) {
        return Some("cursor must be a string");
    }
    if str_eq(method, "tools/call") && present_not(o, "name", false) {
        return Some("tool name must be a string");
    }
    if str_eq(method, "tools/call") && present_not(o, "arguments", true) {
        return Some("tool arguments must be an object");
    }
    None
}


// ---------------------------------------------------------------------------
// Dispatch.

/// What the server does with a request.
#[derive(Debug)]
pub enum Dispatch {
    /// Answer with an `INVALID_ARGUMENTS` JSON-RPC error.
    Reject(&'static str),
    /// Answer a tool call with `TARGET_UNAVAILABLE`: the broker is stopping.
    ShuttingDown,
    /// Answer `initialize` and adopt the revision.
    Initialize(PublicRevision),
    /// Answer `server/discover` and adopt the modern revision.
    Discover,
    /// A notification that needs no answer.
    Acknowledge,
    /// Answer with the catalog.
    ListTools,
    /// Resolve and run a call of a configured tool.
    Call { name: String, arguments: JsonValue, mcp: bool },
}

/// The parameter `k` of a request whose parameters are `params`.
pub open spec fn param(params: Option<JsonValue>, k: Seq<char>) -> Option<JsonValue> {
    match params {
        Some(JsonValue::Object(po)) => lookup(po@, k),
        _ => None,
    }
}

pub open spec fn params_problem(method: Seq<char>, params: Option<JsonValue>) -> Option<Seq<char>> {
    match params {
        Some(p) => params_error(method, p),
        None => None,
    }
}

pub open spec fn rejects(r: Dispatch, m: Seq<char>) -> bool {
    match r {
        Dispatch::Reject(x) => x@ == m,
        _ => false,
    }
}

/// `r` is what the server does with `request`, given the adopted
/// configuration and whether the broker is stopping.
pub open spec fn dispatched(config: ValidatedConfig, request: JsonValue, stopping: bool, r: Dispatch) -> bool {
    match envelope_error(request) {
        Some(m) => rejects(r, m),
        None => {
            let o = request->Object_0@;
            let method = lookup(o, "method"@)->0->Str_0@;
            let params = lookup(o, "params"@);
            let has_id = has_key(o, "id"@);
            match params_problem(method, params) {
                Some(m) => rejects(r, m),
                None => if method == "initialize"@ {
                    if !has_id {
                        rejects(r, "initialize requires an id"@)
                    } else {
                        match param(params, "protocolVersion"@) {
                            None => r == Dispatch::Initialize(PublicRevision::Legacy),
                            Some(v) => if str_is(v, "2025-11-25"@) {
                                r == Dispatch::Initialize(PublicRevision::Legacy)
                            } else if str_is(v, "2026-07-28"@) {
                                r == Dispatch::Initialize(PublicRevision::Modern)
                            } else {
                                rejects(r, "unsupported protocol version"@)
                            },
                        }
                    }
                } else if method == "server/discover"@ {
                    if !has_id {
                        rejects(r, "server/discover requires an id"@)
                    } else {
                        r == Dispatch::Discover
                    }
                } else if method == "notifications/initialized"@ {
                    if has_id {
                        rejects(r, "notification must not have an id"@)
                    } else {
                        r == Dispatch::Acknowledge
                    }
                } else if method == "tools/list"@ {
                    if !has_id {
                        rejects(r, "tools/list requires an id"@)
                    } else if param(params, "cursor"@) is Some {
                        rejects(r, "pagination is unsupported"@)
                    } else {
                        r == Dispatch::ListTools
                    }
                } else if method == "tools/call"@ {
                    if !has_id {
                        rejects(r, "tools/call requires an id"@)
                    } else {
                        match param(params, "name"@) {
                            Some(JsonValue::Str(name)) => if stopping {
                                r == Dispatch::ShuttingDown
                            } else {
                                match lookup(config.tools@, name@) {
                                    None => rejects(r, "unknown tool"@),
                                    Some(tool) => match r {
                                        Dispatch::Call { name: n, arguments, mcp } => {
                                            &&& n@ == name@
                                            &&& mcp == tool.mcp is Some
                                            &&& match param(params, "arguments"@) {
                                                Some(a) => json_same(a, arguments),
                                                None => arguments matches JsonValue::Object(e) && e@.len() == 0,
                                            }
                                        },
                                        _ => false,
                                    },
                                }
                            },
                            _ => rejects(r, "tool name is required"@),
                        }
                    }
                } else {
                    rejects(r, "unsupported method"@)
                },
            }
        },
    }
}

/// `request` is an `initialize` request with the id `id` whose only
/// parameter is `protocolVersion`, the string `version`.
pub open spec fn initialize_with_version(request: JsonValue, id: JsonValue, version: Seq<char>) -> bool {
    &&& request matches JsonValue::Object(es)
    &&& {
        let o = request->Object_0@;
        &&& o.len() == 4
        &&& o[0].0@ == "id"@ && o[0].1 == id
        &&& o[1].0@ == "jsonrpc"@ && str_is(o[1].1, "2.0"@)
        &&& o[2].0@ == "method"@ && str_is(o[2].1, "initialize"@)
        &&& o[3].0@ == "params"@
        &&& o[3].1 matches JsonValue::Object(ps)
        &&& {
            let p = o[3].1->Object_0@;
            p.len() == 1 && p[0].0@ == "protocolVersion"@ && str_is(p[0].1, version)
        }
    }
}

/// Law: an `initialize` request with an id (a string, a number or null)
/// selects the legacy revision when it asks for `2025-11-25` and the modern
/// one when it asks for `2026-07-28`, whether or not the broker is stopping;
/// only a version outside these two is refused.
pub proof fn law_initialize_versions(config: ValidatedConfig, request: JsonValue, id: JsonValue, version: Seq<char>, stopping: bool, r: Dispatch)
    requires
        initialize_with_version(request, id, version),
        is_id_value(id),
        dispatched(config, request, stopping, r),
    ensures
        version == "2025-11-25"@ ==> r == Dispatch::Initialize(PublicRevision::Legacy),
        version == "2026-07-28"@ ==> r == Dispatch::Initialize(PublicRevision::Modern),
        version != "2025-11-25"@ && version != "2026-07-28"@ ==> rejects(r, "unsupported protocol version"@),
{
    reveal_strlit("id");
    reveal_strlit("jsonrpc");
    reveal_strlit("method");
    reveal_strlit("params");
    reveal_strlit("protocolVersion");
    reveal_strlit("capabilities");
    reveal_strlit("clientInfo");
    reveal_strlit("_meta");
    let o = request->Object_0@;
    let ps = o[3].1->Object_0@;
    assert("id"@.len() == 2 && "jsonrpc"@.len() == 7 && "method"@[0] == 'm' && "params"@[0] == 'p' && "method"@.len() == 6);
    assert("protocolVersion"@[0] == 'p' && "capabilities"@[0] == 'c' && "clientInfo"@[0] == 'c' && "capabilities"@[1] == 'a' && "clientInfo"@[1] == 'l');
    assert forall|i: int| 0 <= i < o.len() implies envelope_key((#[trigger] o[i]).0@) by {
        if i == 0 {} else if i == 1 {} else if i == 2 {} else {}
    }
    lemma_lookup_at(o, 0);
    lemma_lookup_at(o, 1);
    assert forall|j: int| 0 <= j < 2 implies (#[trigger] o[j]).0@ != o[2].0@ by {}
    lemma_lookup_at(o, 2);
    assert forall|j: int| 0 <= j < 3 implies (#[trigger] o[j]).0@ != o[3].0@ by {}
    lemma_lookup_at(o, 3);
    assert(envelope_error(request) is None);
    lemma_lookup_at(ps, 0);
    assert forall|j: int| 0 <= j < ps.len() implies (#[trigger] ps[j]).0@ != "capabilities"@ && ps[j].0@ != "clientInfo"@ by {}
    lemma_no_key(ps, "capabilities"@);
    lemma_no_key(ps, "clientInfo"@);
    assert forall|i: int| 0 <= i < ps.len() implies param_allowed("initialize"@, (#[trigger] ps[i]).0@) by {
        assert(ps[i].0@ == "protocolVersion"@);
    }
    assert(!present_and_not(ps, "protocolVersion"@, false));
    assert(!present_and_not(ps, "capabilities"@, true));
    assert(!present_and_not(ps, "clientInfo"@, true));
    assert(!(exists|i: int| 0 <= i < ps.len() && !param_allowed("initialize"@, (#[trigger] ps[i]).0@)));
    reveal_strlit("initialize");
    reveal_strlit("tools/list");
    reveal_strlit("tools/call");
    assert("initialize"@[0] == 'i' && "tools/list"@[0] == 't' && "tools/call"@[0] == 't');
    assert(params_error("initialize"@, o[3].1) is None);
    reveal_strlit("2025-11-25");
    reveal_strlit("2026-07-28");
    assert("2025-11-25"@[3] == '5' && "2026-07-28"@[3] == '6');
    assert(has_key(o, "id"@)) by {
        assert(o[0].0@ == "id"@);
    }
    assert(param(lookup(o, "params"@), "protocolVersion"@) == Some(ps[0].1));
}

/// `request` is a request with the id `id` for the method `method`, with an
/// empty parameter object.
pub open spec fn plain_request(request: JsonValue, id: JsonValue, method: Seq<char>) -> bool {
    &&& request matches JsonValue::Object(es)
    &&& {
        let o = request->Object_0@;
        &&& o.len() == 4
        &&& o[0].0@ == "id"@ && o[0].1 == id
        &&& o[1].0@ == "jsonrpc"@ && str_is(o[1].1, "2.0"@)
        &&& o[2].0@ == "method"@ && str_is(o[2].1, method)
        &&& o[3].0@ == "params"@
        &&& o[3].1 matches JsonValue::Object(ps)
        &&& o[3].1->Object_0@.len() == 0
    }
}

/// Law: a request with an id and no parameters is answered by its method:
/// `initialize` selects the legacy revision, `server/discover` is answered
/// with discovery, `tools/list` with the catalog; `tools/call` without a
/// name, a notification that carries an id and any other method are refused
/// with the matching message. The broker stopping changes none of these.
pub proof fn law_plain_methods(config: ValidatedConfig, request: JsonValue, id: JsonValue, method: Seq<char>, stopping: bool, r: Dispatch)
    requires
        plain_request(request, id, method),
        is_id_value(id),
        dispatched(config, request, stopping, r),
    ensures
        method == "initialize"@ ==> r == Dispatch::Initialize(PublicRevision::Legacy),
        method == "server/discover"@ ==> r == Dispatch::Discover,
        method == "tools/list"@ ==> r == Dispatch::ListTools,
        method == "tools/call"@ ==> rejects(r, "tool name is required"@),
        method == "notifications/initialized"@ ==> rejects(r, "notification must not have an id"@),
        method != "initialize"@ && method != "server/discover"@ && method != "tools/list"@ && method != "tools/call"@
            && method != "notifications/initialized"@ ==> rejects(r, "unsupported method"@),
{
    reveal_strlit("id");
    reveal_strlit("jsonrpc");
    reveal_strlit("method");
    reveal_strlit("params");
    reveal_strlit("initialize");
    reveal_strlit("server/discover");
    reveal_strlit("notifications/initialized");
    reveal_strlit("tools/list");
    reveal_strlit("tools/call");
    let o = request->Object_0@;
    let ps = o[3].1->Object_0@;
    assert("id"@.len() == 2 && "jsonrpc"@.len() == 7 && "method"@[0] == 'm' && "params"@[0] == 'p' && "method"@.len() == 6);
    assert("initialize"@[0] == 'i' && "server/discover"@[0] == 's' && "notifications/initialized"@[0] == 'n'
        && "tools/list"@[0] == 't' && "tools/call"@[0] == 't' && "tools/list"@[6] == 'l' && "tools/call"@[6] == 'c');
    assert forall|i: int| 0 <= i < o.len() implies envelope_key((#[trigger] o[i]).0@) by {
        if i == 0 {} else if i == 1 {} else if i == 2 {} else {}
    }
    lemma_lookup_at(o, 0);
    lemma_lookup_at(o, 1);
    assert forall|j: int| 0 <= j < 2 implies (#[trigger] o[j]).0@ != o[2].0@ by {}
    lemma_lookup_at(o, 2);
    assert forall|j: int| 0 <= j < 3 implies (#[trigger] o[j]).0@ != o[3].0@ by {}
    lemma_lookup_at(o, 3);
    assert(envelope_error(request) is None);
    assert forall|k: Seq<char>| #[trigger] lookup(ps, k) is None by {
        lemma_no_key(ps, k);
    }
    assert(!(exists|i: int| 0 <= i < ps.len() && !param_allowed(method, (#[trigger] ps[i]).0@)));
    assert(params_error(method, o[3].1) is None);
    assert(has_key(o, "id"@)) by {
        assert(o[0].0@ == "id"@);
    }
    assert(param(lookup(o, "params"@), "cursor"@) is None);
    assert(param(lookup(o, "params"@), "name"@) is None);
}

/// Decides what to do with a request.
pub fn dispatch(config: &ValidatedConfig, request: &JsonValue, stopping: bool) -> (r: Dispatch)
    ensures
        dispatched(*config, *request, stopping, r),
{
    match validate_envelope(request) {
        Some(m) => {
            return Dispatch::Reject(m);
        },
        None => {},
    }
    let o = match request {
        JsonValue::Object(o) => o,
        _ => {
            return Dispatch::Reject("request must be an object");
        },
    };
    let method = match get_key(o, "method") {
        Some(JsonValue::Str(m)) => m.as_str(),
        _ => {
            return Dispatch::Reject("method is required");
        },
    };
    let params = get_key(o, "params");
    match params {
        Some(p) => match validate_params(method, p) {
            Some(m) => {
                return Dispatch::Reject(m);
            },
            None => {},
        },
        None => {},
    }
    let has_id = contains_key(o, "id");
    let empty: Vec<(String, JsonValue)> = Vec::new();
    let po: &Vec<(String, JsonValue)> = match params {
        Some(JsonValue::Object(po)) => po,
        _ => &empty,
    };
    proof {
        assert forall|k: Seq<char>| #[trigger] param(deref(params), k) == lookup(po@, k) by {
            if params is None {
                lemma_find_iff_has(po@, k);
            }
        }
    }
    if str_eq(method, "initialize") {
        if !has_id {
            return Dispatch::Reject("initialize requires an id");
        }
        match get_key(po, "protocolVersion") {
            None => Dispatch::Initialize(PublicRevision::Legacy),
            Some(v) => if is_text(Some(v), "2025-11-25") {
                Dispatch::Initialize(PublicRevision::Legacy)
            } else if is_text(Some(v), "2026-07-28") {
                Dispatch::Initialize(PublicRevision::Modern)
            } else {
                Dispatch::Reject("unsupported protocol version")
            },
        }
    } else if str_eq(method, "server/discover") {
        if !has_id {
            return Dispatch::Reject("server/discover requires an id");
        }
        Dispatch::Discover
    } else if str_eq(method, "notifications/initialized") {
        if has_id {
            return Dispatch::Reject("notification must not have an id");
        }
        Dispatch::Acknowledge
    } else if str_eq(method, "tools/list") {
        if !has_id {
            return Dispatch::Reject("tools/list requires an id");
        }
        if contains_key(po, "cursor") {
            proof {
                lemma_find_iff_has(po@, "cursor"@);
            }
            return Dispatch::Reject("pagination is unsupported");
        }
        proof {
            lemma_find_iff_has(po@, "cursor"@);
        }
        Dispatch::ListTools
    } else if str_eq(method, "tools/call") {
        if !has_id {
            return Dispatch::Reject("tools/call requires an id");
        }
        let name = match get_key(po, "name") {
            Some(JsonValue::Str(n)) => n,
            _ => {
                return Dispatch::Reject("tool name is required");
            },
        };
        if stopping {
            return Dispatch::ShuttingDown;
        }
        let tool = match get_key(&config.tools, name.as_str()) {
            Some(t) => t,
            None => {
                return Dispatch::Reject("unknown tool");
            },
        };
        let arguments = match get_key(po, "arguments") {
            Some(a) => clone_value(a),
            None => JsonValue::Object(Vec::new()),
        };
        Dispatch::Call { name: name.clone(), arguments, mcp: tool.mcp.is_some() }
    } else {
        Dispatch::Reject("unsupported method")
    }
}

pub open spec fn deref(v: Option<&JsonValue>) -> Option<JsonValue> {
    match v {
        Some(x) => Some(*x),
        None => None,
    }
}


// ---------------------------------------------------------------------------
// Results and errors.

/// The keys of an object's entries, in order.
pub open spec fn keys_of(es: Seq<(String, JsonValue)>) -> Seq<Seq<char>> {
    es.map_values(|e: (String, JsonValue)| e.0@)
}

/// The entries of `es` without those keyed `k`.
pub open spec fn drop_key(es: Seq<(String, JsonValue)>, k: Seq<char>) -> Seq<(String, JsonValue)>
    decreases es.len(),
{
    if es.len() == 0 {
        Seq::empty()
    } else {
        let r = drop_key(es.drop_last(), k);
        if es.last().0@ == k {
            r
        } else {
            r.push(es.last())
        }
    }
}

/// `r` is `full` as a client of `revision` gets it: a legacy client gets no
/// `resultType`.
pub open spec fn revised_json(r: JsonValue, full: JsonValue, revision: PublicRevision) -> bool {
    if revision == PublicRevision::Legacy {
        match full {
            JsonValue::Object(es) => match r {
                JsonValue::Object(fs) => fs@ == drop_key(es@, "resultType"@),
                _ => false,
            },
            _ => r == full,
        }
    } else {
        r == full
    }
}

/// Removes `resultType` from a result object for a legacy client.
pub fn add_revision_fields(result: JsonValue, revision: PublicRevision) -> (r: JsonValue)
    ensures
        revised_json(r, result, revision),
{
    if revision != PublicRevision::Legacy {
        return result;
    }
    match result {
        JsonValue::Object(es) => {
            let ghost orig = es@;
            let mut out: Vec<(String, JsonValue)> = Vec::new();
            proof {
                assert(orig.take(0) =~= Seq::<(String, JsonValue)>::empty());
            }
            for e in it: es.into_iter()
                invariant
                    it.seq() == orig,
                    out@ == drop_key(orig.take(it.index()), "resultType"@),
            {
                proof {
                    let k = it.index();
                    assert(orig.take(k + 1).drop_last() =~= orig.take(k));
                    assert(orig.take(k + 1).last() == orig[k]);
                }
                if !str_eq(e.0.as_str(), "resultType") {
                    out.push(e);
                }
            }
            proof {
                assert(orig.take(orig.len() as int) =~= orig);
            }
            JsonValue::Object(out)
        },
        other => other,
    }
}

/// `b` is a text content block with the text `t`.
pub open spec fn text_block_json(b: JsonValue, t: Seq<char>) -> bool {
    match b {
        JsonValue::Object(f) => {
            &&& keys_of(f@) == seq!["text"@, "type"@]
            &&& str_is(f@[0].1, t)
            &&& str_is(f@[1].1, "text"@)
        },
        _ => false,
    }
}

fn text_block(t: String) -> (r: JsonValue)
    ensures
        text_block_json(r, t@),
{
    let mut f: Vec<(String, JsonValue)> = Vec::new();
    f.push((string_of("text"), JsonValue::Str(t)));
    f.push((string_of("type"), JsonValue::Str(string_of("text"))));
    assert(keys_of(f@) =~= seq!["text"@, "type"@]);
    JsonValue::Object(f)
}

/// `r` is a call result for a client of `revision`: its content blocks hold
/// `texts`, it reports an error or not, a modern client gets
/// `resultType: complete`, and structured content is present or not.
pub open spec fn call_result_json(r: JsonValue, texts: Seq<Seq<char>>, is_error: bool, has_structured: bool, revision: PublicRevision) -> bool {
    let modern = revision == PublicRevision::Modern;
    match r {
        JsonValue::Object(es) => {
            &&& keys_of(es@) == seq!["content"@, "isError"@] + (if modern { seq!["resultType"@] } else { Seq::empty() })
                + (if has_structured { seq!["structuredContent"@] } else { Seq::empty() })
            &&& match es@[0].1 {
                JsonValue::Array(blocks) => blocks@.len() == texts.len()
                    && forall|i: int| 0 <= i < texts.len() ==> text_block_json(#[trigger] blocks@[i], texts[i]),
                _ => false,
            }
            &&& es@[1].1 == JsonValue::Bool(is_error)
            &&& modern ==> str_is(es@[2].1, "complete"@)
        },
        _ => false,
    }
}

/// Builds a call result; `structured` becomes its last entry.
pub fn call_result(texts: Vec<String>, is_error: bool, structured: Option<JsonValue>, revision: PublicRevision) -> (r: JsonValue)
    ensures
        call_result_json(r, string_views(texts@), is_error, structured is Some, revision),
        structured matches Some(x) ==> r->Object_0@.last().1 == x,
{
    let ghost tv = string_views(texts@);
    let mut blocks: Vec<JsonValue> = Vec::new();
    for t in it: texts.into_iter()
        invariant
            it.seq() == texts@,
            tv == string_views(texts@),
            blocks@.len() == it.index(),
            forall|i: int| 0 <= i < it.index() ==> text_block_json(#[trigger] blocks@[i], tv[i]),
    {
        blocks.push(text_block(t));
    }
    let mut es: Vec<(String, JsonValue)> = Vec::new();
    es.push((string_of("content"), JsonValue::Array(blocks)));
    es.push((string_of("isError"), JsonValue::Bool(is_error)));
    let modern = revision == PublicRevision::Modern;
    if modern {
        es.push((string_of("resultType"), JsonValue::Str(string_of("complete"))));
    }
    let has = structured.is_some();
    match structured {
        Some(x) => {
            es.push((string_of("structuredContent"), x));
        },
        None => {},
    }
    assert(keys_of(es@) =~= seq!["content"@, "isError"@] + (if modern { seq!["resultType"@] } else { Seq::<Seq<char>>::empty() })
        + (if has { seq!["structuredContent"@] } else { Seq::<Seq<char>>::empty() }));
    JsonValue::Object(es)
}

/// The result a client gets for a tool call that failed with `code`: one text
/// block `code: message`, marked as an error.
pub fn tool_error_result(code: &str, message: &str, revision: PublicRevision) -> (r: JsonValue)
    ensures
        call_result_json(r, seq![code@ + ": "@ + message@], true, false, revision),
{
    let mut text = string_of(code);
    push_str(&mut text, ": ");
    push_str(&mut text, message);
    let mut texts: Vec<String> = Vec::new();
    texts.push(text);
    assert(string_views(texts@) =~= seq![code@ + ": "@ + message@]);
    call_result(texts, true, None, revision)
}

/// The result a client gets for a call that ran: a target failure as a tool
/// error, otherwise its text blocks (or its single text) and structured
/// content.
pub fn execution_response(result: ExecutionResult, revision: PublicRevision) -> (r: JsonValue)
    ensures
        result.is_error ==> call_result_json(r, seq![code_name(result.code) + ": target failed"@], true, false, revision),
        !result.is_error ==> call_result_json(r, if result.text_blocks@.len() > 0 {
            string_views(result.text_blocks@)
        } else {
            match result.text {
                Some(t) => seq![t@],
                None => Seq::empty(),
            }
        }, false, result.structured is Some, revision),
        !result.is_error && result.structured is Some ==> r->Object_0@.last().1 == result.structured->0,
{
    if result.is_error {
        proof {
            reveal_strlit(": ");
            reveal_strlit("target failed");
            reveal_strlit(": target failed");
            assert(": "@ + "target failed"@ =~= ": target failed"@);
        }
        let r = tool_error_result(result.code.as_str(), "target failed", revision);
        assert(code_name(result.code) + ": "@ + "target failed"@ =~= code_name(result.code) + ": target failed"@);
        return r;
    }
    let ExecutionResult { code, is_error, text, text_blocks, structured } = result;
    let texts = if text_blocks.len() > 0 {
        text_blocks
    } else {
        let mut v: Vec<String> = Vec::new();
        match text {
            Some(t) => {
                v.push(t);
            },
            None => {},
        }
        assert(string_views(v@) =~= match text {
            Some(t) => seq![t@],
            None => Seq::<Seq<char>>::empty(),
        });
        v
    };
    call_result(texts, false, structured, revision)
}

/// Whether a runtime error is answered as a JSON-RPC error rather than a tool
/// error: only when the broker is busy.
pub fn is_protocol_error(code: BrokerErrorCode) -> (r: bool)
    ensures
        r == (code == BrokerErrorCode::ServerBusy),
{
    code == BrokerErrorCode::ServerBusy
}


// ---------------------------------------------------------------------------
// JSON-RPC messages.

/// The request ID a response carries: the request's `id`, or `null`.
pub open spec fn id_json(v: JsonValue, id: Option<JsonValue>) -> bool {
    match id {
        Some(x) => json_same(x, v),
        None => v is Null,
    }
}

fn id_value(id: Option<JsonValue>) -> (r: JsonValue)
    ensures
        match id {
            Some(x) => r == x,
            None => r is Null,
        },
{
    match id {
        Some(x) => x,
        None => JsonValue::Null,
    }
}

/// A copy of the `id` of a request, if it has one.
pub fn request_id(request: &JsonValue) -> (r: Option<JsonValue>)
    ensures
        match request {
            JsonValue::Object(o) => match lookup(o@, "id"@) {
                Some(x) => r matches Some(y) && json_same(x, y),
                None => r is None,
            },
            _ => r is None,
        },
{
    match request {
        JsonValue::Object(o) => match get_key(o, "id") {
            Some(x) => Some(clone_value(x)),
            None => None,
        },
        _ => None,
    }
}

/// `r` is a JSON-RPC response with the ID `id` and the result `result`.
pub open spec fn response_json(r: JsonValue, id: Option<JsonValue>, result: JsonValue) -> bool {
    match r {
        JsonValue::Object(es) => {
            &&& keys_of(es@) == seq!["id"@, "jsonrpc"@, "result"@]
            &&& match id {
                Some(x) => es@[0].1 == x,
                None => es@[0].1 is Null,
            }
            &&& str_is(es@[1].1, "2.0"@)
            &&& es@[2].1 == result
        },
        _ => false,
    }
}

/// A JSON-RPC response.
pub fn jsonrpc_result(id: Option<JsonValue>, result: JsonValue) -> (r: JsonValue)
    ensures
        response_json(r, id, result),
{
    let mut es: Vec<(String, JsonValue)> = Vec::new();
    es.push((string_of("id"), id_value(id)));
    es.push((string_of("jsonrpc"), JsonValue::Str(string_of("2.0"))));
    es.push((string_of("result"), result));
    assert(keys_of(es@) =~= seq!["id"@, "jsonrpc"@, "result"@]);
    JsonValue::Object(es)
}

/// `r` is a JSON-RPC error response with the ID `id`, the code `code` and the
/// message `message`.
pub open spec fn error_json(r: JsonValue, id: Option<JsonValue>, code: Seq<char>, message: Seq<char>) -> bool {
    match r {
        JsonValue::Object(es) => {
            &&& keys_of(es@) == seq!["error"@, "id"@, "jsonrpc"@]
            &&& match es@[0].1 {
                JsonValue::Object(e) => keys_of(e@) == seq!["code"@, "message"@] && str_is(e@[0].1, code) && str_is(e@[1].1, message),
                _ => false,
            }
            &&& match id {
                Some(x) => es@[1].1 == x,
                None => es@[1].1 is Null,
            }
            &&& str_is(es@[2].1, "2.0"@)
        },
        _ => false,
    }
}

/// A JSON-RPC error response.
pub fn jsonrpc_error(id: Option<JsonValue>, code: &str, message: &str) -> (r: JsonValue)
    ensures
        error_json(r, id, code@, message@),
{
    let mut e: Vec<(String, JsonValue)> = Vec::new();
    e.push((string_of("code"), JsonValue::Str(string_of(code))));
    e.push((string_of("message"), JsonValue::Str(string_of(message))));
    assert(keys_of(e@) =~= seq!["code"@, "message"@]);
    let mut es: Vec<(String, JsonValue)> = Vec::new();
    es.push((string_of("error"), JsonValue::Object(e)));
    es.push((string_of("id"), id_value(id)));
    es.push((string_of("jsonrpc"), JsonValue::Str(string_of("2.0"))));
    assert(keys_of(es@) =~= seq!["error"@, "id"@, "jsonrpc"@]);
    JsonValue::Object(es)
}

/// The protocol version string of a revision.
pub open spec fn revision_name(revision: PublicRevision) -> Seq<char> {
    match revision {
        PublicRevision::Modern => "2026-07-28"@,
        PublicRevision::Legacy => "2025-11-25"@,
    }
}

/// `r` answers `initialize` or `server/discover`: the revision, a tools
/// capability, and the server's name and version.
pub open spec fn server_info_json(r: JsonValue, revision: PublicRevision, name: Seq<char>, version: Seq<char>) -> bool {
    match r {
        JsonValue::Object(es) => {
            &&& keys_of(es@) == seq!["capabilities"@, "protocolVersion"@, "serverInfo"@]
            &&& match es@[0].1 {
                JsonValue::Object(c) => keys_of(c@) == seq!["tools"@] && (c@[0].1 matches JsonValue::Object(t) && t@.len() == 0),
                _ => false,
            }
            &&& str_is(es@[1].1, revision_name(revision))
            &&& match es@[2].1 {
                JsonValue::Object(i) => keys_of(i@) == seq!["name"@, "version"@] && str_is(i@[0].1, name) && str_is(i@[1].1, version),
                _ => false,
            }
        },
        _ => false,
    }
}

/// The answer to `initialize` or `server/discover`.
pub fn server_info_result(revision: PublicRevision, server_name: &str, version: &str) -> (r: JsonValue)
    ensures
        server_info_json(r, revision, server_name@, version@),
{
    let mut c: Vec<(String, JsonValue)> = Vec::new();
    c.push((string_of("tools"), JsonValue::Object(Vec::new())));
    assert(keys_of(c@) =~= seq!["tools"@]);
    let mut info: Vec<(String, JsonValue)> = Vec::new();
    info.push((string_of("name"), JsonValue::Str(string_of(server_name))));
    info.push((string_of("version"), JsonValue::Str(string_of(version))));
    assert(keys_of(info@) =~= seq!["name"@, "version"@]);
    let v = match revision {
        PublicRevision::Modern => string_of("2026-07-28"),
        PublicRevision::Legacy => string_of("2025-11-25"),
    };
    let mut es: Vec<(String, JsonValue)> = Vec::new();
    es.push((string_of("capabilities"), JsonValue::Object(c)));
    es.push((string_of("protocolVersion"), JsonValue::Str(v)));
    es.push((string_of("serverInfo"), JsonValue::Object(info)));
    assert(keys_of(es@) =~= seq!["capabilities"@, "protocolVersion"@, "serverInfo"@]);
    JsonValue::Object(es)
}

// ---------------------------------------------------------------------------
// Messages to upstream MCP servers.

/// `r` is the `tools/call` request `id` for the upstream tool `tool`.
pub open spec fn tool_request_json(r: JsonValue, id: u64, tool: Seq<char>, arguments: JsonValue) -> bool {
    match r {
        JsonValue::Object(es) => {
            &&& keys_of(es@) == seq!["id"@, "jsonrpc"@, "method"@, "params"@]
            &&& es@[0].1 == JsonValue::Number(JsonNumber::PosInt(id))
            &&& str_is(es@[1].1, "2.0"@)
            &&& str_is(es@[2].1, "tools/call"@)
            &&& match es@[3].1 {
                JsonValue::Object(p) => keys_of(p@) == seq!["arguments"@, "name"@] && p@[0].1 == arguments && str_is(p@[1].1, tool),
                _ => false,
            }
        },
        _ => false,
    }
}

/// The `tools/call` request sent to an upstream server.
pub fn tool_request(id: u64, tool: &str, arguments: JsonValue) -> (r: JsonValue)
    ensures
        tool_request_json(r, id, tool@, arguments),
{
    let mut p: Vec<(String, JsonValue)> = Vec::new();
    p.push((string_of("arguments"), arguments));
    p.push((string_of("name"), JsonValue::Str(string_of(tool))));
    assert(keys_of(p@) =~= seq!["arguments"@, "name"@]);
    let mut es: Vec<(String, JsonValue)> = Vec::new();
    es.push((string_of("id"), JsonValue::Number(JsonNumber::PosInt(id))));
    es.push((string_of("jsonrpc"), JsonValue::Str(string_of("2.0"))));
    es.push((string_of("method"), JsonValue::Str(string_of("tools/call"))));
    es.push((string_of("params"), JsonValue::Object(p)));
    assert(keys_of(es@) =~= seq!["id"@, "jsonrpc"@, "method"@, "params"@]);
    JsonValue::Object(es)
}

/// `r` tells an upstream server that request `id` is cancelled.
pub open spec fn cancel_json(r: JsonValue, id: u64) -> bool {
    match r {
        JsonValue::Object(es) => {
            &&& keys_of(es@) == seq!["jsonrpc"@, "method"@, "params"@]
            &&& str_is(es@[0].1, "2.0"@)
            &&& str_is(es@[1].1, "notifications/cancelled"@)
            &&& match es@[2].1 {
                JsonValue::Object(p) => keys_of(p@) == seq!["reason"@, "requestId"@] && str_is(p@[0].1, "cancelled"@)
                    && p@[1].1 == JsonValue::Number(JsonNumber::PosInt(id)),
                _ => false,
            }
        },
        _ => false,
    }
}

/// The cancellation notification for an upstream request.
pub fn cancel_notification(id: u64) -> (r: JsonValue)
    ensures
        cancel_json(r, id),
{
    let mut p: Vec<(String, JsonValue)> = Vec::new();
    p.push((string_of("reason"), JsonValue::Str(string_of("cancelled"))));
    p.push((string_of("requestId"), JsonValue::Number(JsonNumber::PosInt(id))));
    assert(keys_of(p@) =~= seq!["reason"@, "requestId"@]);
    let mut es: Vec<(String, JsonValue)> = Vec::new();
    es.push((string_of("jsonrpc"), JsonValue::Str(string_of("2.0"))));
    es.push((string_of("method"), JsonValue::Str(string_of("notifications/cancelled"))));
    es.push((string_of("params"), JsonValue::Object(p)));
    assert(keys_of(es@) =~= seq!["jsonrpc"@, "method"@, "params"@]);
    JsonValue::Object(es)
}

pub open spec fn field(v: JsonValue, k: Seq<char>) -> Option<JsonValue> {
    match v {
        JsonValue::Object(o) => lookup(o@, k),
        _ => None,
    }
}

/// Some item is the modern revision's name.
pub open spec fn lists_modern(xs: Seq<JsonValue>) -> bool {
    exists|i: int| 0 <= i < xs.len() && str_is(#[trigger] xs[i], "2026-07-28"@)
}

/// An upstream discovery answer offers the modern revision, as its
/// `protocolVersion` or among its `protocolVersions`.
pub open spec fn offers_modern(v: JsonValue) -> bool {
    (match field(v, "protocolVersion"@) {
        Some(x) => str_is(x, "2026-07-28"@),
        None => false,
    }) || (match field(v, "protocolVersions"@) {
        Some(JsonValue::Array(xs)) => lists_modern(xs@),
        _ => false,
    })
}

fn get_field<'a>(v: &'a JsonValue, k: &str) -> (r: Option<&'a JsonValue>)
    ensures
        match r {
            Some(x) => field(*v, k@) == Some(*x),
            None => field(*v, k@) is None,
        },
{
    match v {
        JsonValue::Object(o) => get_key(o, k),
        _ => None,
    }
}

/// Whether an upstream discovery answer offers the modern revision.
pub fn is_modern_discovery(value: &JsonValue) -> (r: bool)
    ensures
        r == offers_modern(*value),
{
    if is_text(get_field(value, "protocolVersion"), "2026-07-28") {
        return true;
    }
    match get_field(value, "protocolVersions") {
        Some(JsonValue::Array(xs)) => {
            let mut i: usize = 0;
            while i < xs.len()
                invariant
                    field(*value, "protocolVersions"@) == Some(JsonValue::Array(*xs)),
                    i <= xs@.len(),
                    forall|j: int| 0 <= j < i ==> !str_is(#[trigger] xs@[j], "2026-07-28"@),
                decreases xs@.len() - i,
            {
                if is_text(Some(&xs[i]), "2026-07-28") {
                    assert(str_is(xs@[i as int], "2026-07-28"@));
                    assert(lists_modern(xs@));
                    return true;
                }
                i += 1;
            }
            false
        },
        _ => false,
    }
}

/// Whether an upstream `initialize` answer selects the legacy revision.
pub fn is_legacy_initialize(value: &JsonValue) -> (r: bool)
    ensures
        r == (field(*value, "protocolVersion"@) matches Some(x) && str_is(x, "2025-11-25"@)),
{
    is_text(get_field(value, "protocolVersion"), "2025-11-25")
}


// ---------------------------------------------------------------------------
// Framing of public requests.

/// One newline-delimited message, or the news that it was over the limit.
#[derive(Debug)]
pub enum BoundedMessage {
    Complete(Vec<u8>),
    TooLarge,
}

/// The part of a message read so far.
pub struct FrameState {
    pub message: Vec<u8>,
    pub length: usize,
    pub too_large: bool,
}

/// `s` without one trailing carriage return.
pub open spec fn strip_cr(s: Seq<u8>) -> Seq<u8> {
    if s.len() > 0 && s.last() == 13u8 {
        s.drop_last()
    } else {
        s
    }
}

/// The position of the first newline in `b`, if any.
pub open spec fn first_newline(b: Seq<u8>) -> Option<int> {
    if exists|i: int| 0 <= i < b.len() && b[i] == 10u8 && forall|j: int| 0 <= j < i ==> b[j] != 10u8 {
        Some(choose|i: int| 0 <= i < b.len() && b[i] == 10u8 && forall|j: int| 0 <= j < i ==> b[j] != 10u8)
    } else {
        None
    }
}

impl FrameState {
    /// Nothing read yet.
    pub fn new() -> (r: Self)
        ensures
            r.wf(),
            r.message@.len() == 0,
    {
        FrameState { message: Vec::new(), length: 0, too_large: false }
    }

    /// A message in progress: what was read is held and within `limit`.
    pub open spec fn wf(&self) -> bool {
        &&& !self.too_large
        &&& self.length == self.message@.len()
    }
}

/// Reads one buffer of input into the message in progress. Returns how many
/// bytes of the buffer belong to this message (its newline included) and,
/// when the message is finished, the message: complete, without its newline
/// and one trailing carriage return, or too large for `limit`. A message that
/// crosses the limit is finished at once, newline or not.
pub fn frame_chunk(state: &mut FrameState, buffer: &[u8], limit: usize) -> (r: (usize, Option<BoundedMessage>))
    requires
        old(state).wf(),
        old(state).length <= limit,
        buffer@.len() > 0,
    ensures
        match first_newline(buffer@) {
            Some(d) => {
                &&& r.0 == d + 1
                &&& if old(state).length + d > limit {
                    r.1 matches Some(BoundedMessage::TooLarge)
                } else {
                    r.1 matches Some(BoundedMessage::Complete(m)) && m@ == strip_cr(old(state).message@ + buffer@.take(d))
                }
            },
            None => {
                &&& r.0 == buffer@.len()
                &&& if old(state).length + buffer@.len() > limit {
                    r.1 matches Some(BoundedMessage::TooLarge)
                } else {
                    &&& r.1 is None
                    &&& final(state).wf()
                    &&& final(state).message@ == old(state).message@ + buffer@
                }
            },
        },
{
    let mut d: usize = 0;
    while d < buffer.len() && buffer[d] != 10u8
        invariant
            d <= buffer@.len(),
            forall|j: int| 0 <= j < d ==> buffer@[j] != 10u8,
        decreases buffer@.len() - d,
    {
        d += 1;
    }
    let found = d < buffer.len();
    proof {
        if found {
            assert(buffer@[d as int] == 10u8);
            let c = choose|i: int| 0 <= i < buffer@.len() && buffer@[i] == 10u8 && forall|j: int| 0 <= j < i ==> buffer@[j] != 10u8;
            assert(first_newline(buffer@) == Some(c));
            if c < d {
                assert(buffer@[c] != 10u8);
            }
            if d < c {
                assert(buffer@[d as int] != 10u8);
            }
        } else {
            assert(first_newline(buffer@) is None);
        }
    }
    let body_len = d;
    if body_len > limit - state.length {
        let consumed = if found { d + 1 } else { d };
        return (consumed, Some(BoundedMessage::TooLarge));
    }
    let ghost before = state.message@;
    let mut k: usize = 0;
    while k < body_len
        invariant
            body_len <= buffer@.len(),
            k <= body_len,
            state.message@ == before + buffer@.take(k as int),
            before == old(state).message@,
            !state.too_large,
            state.length == old(state).length,
            state.length == before.len(),
            state.length <= limit,
            body_len <= limit - state.length,
            d == body_len,
            found == (d < buffer@.len()),
        decreases body_len - k,
    {
        state.message.push(buffer[k]);
        assert(buffer@.take(k + 1) =~= buffer@.take(k as int).push(buffer@[k as int]));
        k += 1;
    }
    state.length = state.length + body_len;
    if found {
        let mut m: Vec<u8> = Vec::new();
        std::mem::swap(&mut m, &mut state.message);
        let ml = m.len();
        if ml > 0 && m[ml - 1] == 13u8 {
            m.pop();
        }
        state.length = 0;
        return (d + 1, Some(BoundedMessage::Complete(m)));
    }
    assert(buffer@.take(body_len as int) =~= buffer@);
    (d, None)
}

/// The message in progress when the input ends: none if nothing was read,
/// otherwise the message without one trailing carriage return.
pub fn frame_end(state: FrameState) -> (r: Option<BoundedMessage>)
    requires
        state.wf(),
    ensures
        if state.length == 0 {
            r is None
        } else {
            r matches Some(BoundedMessage::Complete(m)) && m@ == strip_cr(state.message@)
        },
{
    if state.length == 0 {
        return None;
    }
    let mut m = state.message;
    let ml = m.len();
    if ml > 0 && m[ml - 1] == 13u8 {
        m.pop();
    }
    Some(BoundedMessage::Complete(m))
}


/// The upstream discovery request `id`.
pub fn discover_request(id: u64) -> (r: JsonValue)
    ensures
        r matches JsonValue::Object(es) && keys_of(es@) == seq!["id"@, "jsonrpc"@, "method"@, "params"@]
            && es@[0].1 == JsonValue::Number(JsonNumber::PosInt(id)) && str_is(es@[1].1, "2.0"@)
            && str_is(es@[2].1, "server/discover"@) && (es@[3].1 matches JsonValue::Object(p) && p@.len() == 0),
{
    let mut es: Vec<(String, JsonValue)> = Vec::new();
    es.push((string_of("id"), JsonValue::Number(JsonNumber::PosInt(id))));
    es.push((string_of("jsonrpc"), JsonValue::Str(string_of("2.0"))));
    es.push((string_of("method"), JsonValue::Str(string_of("server/discover"))));
    es.push((string_of("params"), JsonValue::Object(Vec::new())));
    assert(keys_of(es@) =~= seq!["id"@, "jsonrpc"@, "method"@, "params"@]);
    JsonValue::Object(es)
}

/// The upstream legacy `initialize` request `id`, for the client `name` at
/// `version`.
pub fn initialize_request(id: u64, name: &str, version: &str) -> (r: JsonValue)
    ensures
        r matches JsonValue::Object(es) && keys_of(es@) == seq!["id"@, "jsonrpc"@, "method"@, "params"@]
            && es@[0].1 == JsonValue::Number(JsonNumber::PosInt(id)) && str_is(es@[1].1, "2.0"@)
            && str_is(es@[2].1, "initialize"@)
            && (es@[3].1 matches JsonValue::Object(p) && keys_of(p@) == seq!["capabilities"@, "clientInfo"@, "protocolVersion"@]
                && str_is(p@[2].1, "2025-11-25"@)),
{
    let mut info: Vec<(String, JsonValue)> = Vec::new();
    info.push((string_of("name"), JsonValue::Str(string_of(name))));
    info.push((string_of("version"), JsonValue::Str(string_of(version))));
    let mut p: Vec<(String, JsonValue)> = Vec::new();
    p.push((string_of("capabilities"), JsonValue::Object(Vec::new())));
    p.push((string_of("clientInfo"), JsonValue::Object(info)));
    p.push((string_of("protocolVersion"), JsonValue::Str(string_of("2025-11-25"))));
    assert(keys_of(p@) =~= seq!["capabilities"@, "clientInfo"@, "protocolVersion"@]);
    let mut es: Vec<(String, JsonValue)> = Vec::new();
    es.push((string_of("id"), JsonValue::Number(JsonNumber::PosInt(id))));
    es.push((string_of("jsonrpc"), JsonValue::Str(string_of("2.0"))));
    es.push((string_of("method"), JsonValue::Str(string_of("initialize"))));
    es.push((string_of("params"), JsonValue::Object(p)));
    assert(keys_of(es@) =~= seq!["id"@, "jsonrpc"@, "method"@, "params"@]);
    JsonValue::Object(es)
}

/// The upstream `notifications/initialized` notification.
pub fn initialized_notification() -> (r: JsonValue)
    ensures
        r matches JsonValue::Object(es) && keys_of(es@) == seq!["jsonrpc"@, "method"@, "params"@]
            && str_is(es@[0].1, "2.0"@) && str_is(es@[1].1, "notifications/initialized"@)
            && (es@[2].1 matches JsonValue::Object(p) && p@.len() == 0),
{
    let mut es: Vec<(String, JsonValue)> = Vec::new();
    es.push((string_of("jsonrpc"), JsonValue::Str(string_of("2.0"))));
    es.push((string_of("method"), JsonValue::Str(string_of("notifications/initialized"))));
    es.push((string_of("params"), JsonValue::Object(Vec::new())));
    assert(keys_of(es@) =~= seq!["jsonrpc"@, "method"@, "params"@]);
    JsonValue::Object(es)
}

} // verus!
