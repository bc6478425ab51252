//! The configuration as written and the configuration as adopted.
use vstd::prelude::*;
use crate::binding::{bindings_problem, arguments_problem, lemma_shape_bindings_problem, lemma_shape_arguments_problem, lemma_same_keys_find, CliBinding, McpBinding, RawMcpBinding, cli_binding_ok, cli_binding_of, mcp_arguments_ok, mcp_compiled_from, compile_bindings, compile_mcp_bindings, lemma_compiled_same_shape, lemma_shape_cli_bindings, lemma_shape_mcp_arguments};
use crate::codes::{Diagnostic, BrokerErrorCode, MAX_CONFIG_BYTES, MAX_JSON_DEPTH, MAX_TOOLS, reported_at, reports_problem};
use crate::json::{entry_keys as key_views, keys_ordered, json_wf, JsonValue, has_key, lookup, contains_key, get_key, lemma_find_iff_has};
use crate::names::{env_name_ok, validate_env_name, id_ok, absolute_path_ok, mcp_tool_name_ok, validate_id, absolute_path, validate_mcp_tool_name};
use crate::order::{lemma_lt_total, seq_lt, names_sorted, name_bag, sort_names, sorted_view, lemma_sorted_view, strictly_sorted, lemma_strict_same_set};
use crate::schema::{required_ordered, law_required_in_key_order, CompiledSchema, compiled_from, schema_accepts, compile_schema, schema_problem};
use crate::text::{string_of, join_path, contains_char, string_views, str_eq, push_char, push_str, decimal, u64_to_decimal};

verus! {

// ---------------------------------------------------------------------------
// The configuration as written. Maps are entry lists in key order.

/// A whole configuration file.
#[derive(Debug)]
pub struct RawConfig {
    pub version: u64,
    pub server: RawServer,
    pub targets: Vec<(String, RawTarget)>,
    pub tools: Vec<(String, RawTool)>,
}

#[derive(Debug)]
pub struct RawServer {
    pub name: String,
    pub transport: RawTransport,
    pub limits: RawServerLimits,
}

#[derive(Debug)]
pub struct RawTransport {
    pub kind: String,
}

/// Limits of the public MCP server.
#[derive(Debug)]
pub struct RawServerLimits {
    pub request_bytes: usize,
    pub json_depth: usize,
}

/// The request size limit when the configuration names none.
pub fn default_request_bytes() -> (r: usize)
    ensures
        r == MAX_CONFIG_BYTES,
{
    MAX_CONFIG_BYTES
}

/// The JSON nesting limit when the configuration names none.
pub fn default_json_depth() -> (r: usize)
    ensures
        r == MAX_JSON_DEPTH,
{
    MAX_JSON_DEPTH
}

impl Default for RawServerLimits {
    fn default() -> (r: Self)
        ensures
            r.request_bytes == MAX_CONFIG_BYTES,
            r.json_depth == MAX_JSON_DEPTH,
    {
        RawServerLimits { request_bytes: default_request_bytes(), json_depth: default_json_depth() }
    }
}

#[derive(Debug)]
pub struct RawTarget {
    pub kind: String,
    pub executable: Option<String>,
    pub transport: Option<RawTargetTransport>,
    pub cwd: Option<String>,
    pub environment: RawEnvironment,
    pub limits: RawTargetLimits,
}

#[derive(Debug)]
pub struct RawTargetTransport {
    pub kind: String,
    pub command: String,
    pub args: Vec<String>,
    pub cwd: String,
    pub environment: RawEnvironment,
}

/// Environment of a target: names inherited from the broker and fixed values.
#[derive(Debug)]
pub struct RawEnvironment {
    pub inherit: Vec<String>,
    pub set: Vec<(String, String)>,
}

#[derive(Debug)]
pub struct RawTargetLimits {
    pub timeout_ms: u64,
    pub stdout_bytes: Option<usize>,
    pub output_bytes: Option<usize>,
    pub stderr_bytes: usize,
}

#[derive(Debug)]
pub struct RawAnnotations {
    pub read_only_hint: Option<bool>,
    pub destructive_hint: Option<bool>,
    pub idempotent_hint: Option<bool>,
    pub open_world_hint: Option<bool>,
}

#[derive(Debug)]
pub struct RawTool {
    pub title: Option<String>,
    pub description: Option<String>,
    pub annotations: RawAnnotations,
    pub input_schema: JsonValue,
    pub invoke: RawInvoke,
    pub output: RawOutput,
}

#[derive(Debug)]
pub struct RawInvoke {
    pub target: String,
    pub cli: Option<RawCliInvoke>,
    pub mcp: Option<RawMcpInvoke>,
}

#[derive(Debug)]
pub struct RawCliInvoke {
    pub argv: Vec<JsonValue>,
}

#[derive(Debug)]
pub struct RawMcpInvoke {
    pub tool: String,
    pub arguments: Vec<(String, RawMcpBinding)>,
}

#[derive(Debug)]
pub struct RawOutput {
    pub kind: String,
}

// ---------------------------------------------------------------------------
// The adopted configuration.

/// Resource limits of one target.
#[derive(Clone, Copy, Debug, PartialEq, Eq, Structural)]
pub struct Limits {
    pub timeout_ms: u64,
    pub stdout_bytes: usize,
    pub output_bytes: usize,
    pub stderr_bytes: usize,
}

/// The environment a target process gets: inherited names (sorted), their
/// values as captured at adoption, and fixed values.
pub struct EnvironmentSpec {
    pub inherit: Vec<String>,
    pub inherited_values: Vec<(String, String)>,
    pub set: Vec<(String, String)>,
}

// ---------------------------------------------------------------------------
// Target limits.

pub const MAX_TIMEOUT_MS: u64 = 300000;
pub const MAX_OUTPUT_BYTES: usize = 16777216;
pub const MAX_STDERR_BYTES: usize = 1048576;

/// The limits of a CLI target (`mcp == false`) or an MCP target are accepted:
/// a timeout of 1 to 300000 ms; for a CLI target `stdout_bytes` and no
/// `output_bytes`, for an MCP target the reverse, of 1 byte to 16 MiB; and 1
/// byte to 1 MiB of stderr.
pub open spec fn limits_ok(l: RawTargetLimits, mcp: bool) -> bool {
    &&& 1 <= l.timeout_ms <= MAX_TIMEOUT_MS
    &&& !(mcp && l.stdout_bytes is Some)
    &&& !(!mcp && l.output_bytes is Some)
    &&& match (if mcp { l.output_bytes } else { l.stdout_bytes }) {
        Some(n) => 1 <= n <= MAX_OUTPUT_BYTES,
        None => false,
    }
    &&& 1 <= l.stderr_bytes <= MAX_STDERR_BYTES
}

/// The first problem with the limits of a target, checked in the order
/// timeout, the output field of the other target kind, the output limit,
/// stderr: the field reported and the message.
pub open spec fn limits_problem(l: RawTargetLimits, mcp: bool) -> Option<(Seq<char>, Seq<char>)> {
    if !(1 <= l.timeout_ms <= MAX_TIMEOUT_MS) {
        Some(("timeout_ms"@, "must be 1..300000"@))
    } else if mcp && l.stdout_bytes is Some {
        Some(("stdout_bytes"@, "not allowed for mcp targets; use output_bytes"@))
    } else if !mcp && l.output_bytes is Some {
        Some(("output_bytes"@, "not allowed for cli targets; use stdout_bytes"@))
    } else {
        match (if mcp { l.output_bytes } else { l.stdout_bytes }) {
            None => Some((if mcp { "output_bytes"@ } else { "stdout_bytes"@ }, "required"@)),
            Some(n) => if !(1 <= n <= MAX_OUTPUT_BYTES) {
                Some((if mcp { "output_bytes"@ } else { "stdout_bytes"@ }, "must be 1..16777216"@))
            } else if !(1 <= l.stderr_bytes <= MAX_STDERR_BYTES) {
                Some(("stderr_bytes"@, "must be 1..1048576"@))
            } else {
                None
            },
        }
    }
}

/// Checks the limits of a target; a refusal names the field under `path`.
pub fn validate_limits(l: &RawTargetLimits, path: &str, mcp: bool) -> (r: Result<(), Diagnostic>)
    ensures
        r is Ok <==> limits_ok(*l, mcp),
        r is Ok <==> limits_problem(*l, mcp) is None,
        r matches Err(d) ==> reported_at(d, path@, limits_problem(*l, mcp)),
{
    if l.timeout_ms < 1 || l.timeout_ms > MAX_TIMEOUT_MS {
        let p = join_path(path, "timeout_ms");
        return Err(Diagnostic::invalid(p.as_str(), "must be 1..300000"));
    }
    if mcp && l.stdout_bytes.is_some() {
        let p = join_path(path, "stdout_bytes");
        return Err(Diagnostic::invalid(p.as_str(), "not allowed for mcp targets; use output_bytes"));
    }
    if !mcp && l.output_bytes.is_some() {
        let p = join_path(path, "output_bytes");
        return Err(Diagnostic::invalid(p.as_str(), "not allowed for cli targets; use stdout_bytes"));
    }
    let chosen = if mcp { l.output_bytes } else { l.stdout_bytes };
    let out = match chosen {
        Some(n) => n,
        None => {
            let p = join_path(path, if mcp { "output_bytes" } else { "stdout_bytes" });
            return Err(Diagnostic::invalid(p.as_str(), "required"));
        },
    };
    if out < 1 || out > MAX_OUTPUT_BYTES {
        let p = join_path(path, if mcp { "output_bytes" } else { "stdout_bytes" });
        return Err(Diagnostic::invalid(p.as_str(), "must be 1..16777216"));
    }
    if l.stderr_bytes < 1 || l.stderr_bytes > MAX_STDERR_BYTES {
        let p = join_path(path, "stderr_bytes");
        return Err(Diagnostic::invalid(p.as_str(), "must be 1..1048576"));
    }
    Ok(())
}

// ---------------------------------------------------------------------------
// Environments.

/// An environment is accepted against the broker environment `current`:
/// inherited names are valid, distinct, not also fixed, and present in
/// `current`; fixed names are valid and fixed values hold no NUL.
pub open spec fn environment_ok(raw: RawEnvironment, current: Seq<(String, String)>) -> bool {
    &&& string_views(raw.inherit@).no_duplicates()
    &&& forall|i: int| 0 <= i < raw.inherit@.len() ==> {
        let n = (#[trigger] raw.inherit@[i])@;
        env_name_ok(n) && !has_key(raw.set@, n) && has_key(current, n)
    }
    &&& forall|i: int| 0 <= i < raw.set@.len() ==> env_name_ok((#[trigger] raw.set@[i]).0@)
        && !raw.set@[i].1@.contains('\0')
}

/// `o` holds a string with the characters `t`.
pub open spec fn holds_text(o: Option<String>, t: Seq<char>) -> bool {
    match o {
        Some(v) => v@ == t,
        None => false,
    }
}

/// `e` is what adoption makes of `raw`: the inherited names in order, each
/// with the value `current` held for it, and the fixed values as written.
pub open spec fn environment_from(e: EnvironmentSpec, raw: RawEnvironment, current: Seq<(String, String)>) -> bool {
    &&& names_sorted(string_views(e.inherit@))
    &&& name_bag(e.inherit@) == name_bag(raw.inherit@)
    &&& e.inherit@.len() == raw.inherit@.len()
    &&& e.inherited_values@.len() == e.inherit@.len()
    &&& forall|i: int| 0 <= i < e.inherit@.len() ==> (#[trigger] e.inherited_values@[i]).0@ == e.inherit@[i]@
        && holds_text(lookup(current, e.inherit@[i]@), e.inherited_values@[i].1@)
    &&& e.set == raw.set
}

proof fn lemma_same_bag(a: Seq<Seq<char>>, b: Seq<Seq<char>>)
    requires
        a.to_multiset() == b.to_multiset(),
    ensures
        forall|x: Seq<char>| a.contains(x) <==> b.contains(x),
        a.no_duplicates() <==> b.no_duplicates(),
{
    assert forall|x: Seq<char>| a.contains(x) <==> b.contains(x) by {
        vstd::seq_lib::to_multiset_contains(a, x);
        vstd::seq_lib::to_multiset_contains(b, x);
    }
    if a.no_duplicates() {
        a.lemma_multiset_has_no_duplicates();
        b.lemma_multiset_has_no_duplicates_conv();
    }
    if b.no_duplicates() {
        b.lemma_multiset_has_no_duplicates();
        a.lemma_multiset_has_no_duplicates_conv();
    }
}

proof fn lemma_member(names: Seq<String>, x: Seq<char>) -> (a: int)
    requires
        string_views(names).contains(x),
    ensures
        0 <= a < names.len(),
        names[a]@ == x,
{
    let a = choose|a: int| 0 <= a < string_views(names).len() && string_views(names)[a] == x;
    a
}

/// Whether one of the first `upto` names equals `k`.
fn seen_before(names: &Vec<String>, upto: usize, k: &str) -> (r: bool)
    requires
        upto <= names@.len(),
    ensures
        r == exists|i: int| 0 <= i < upto && (#[trigger] names@[i])@ == k@,
{
    let mut i: usize = 0;
    while i < upto
        invariant
            upto <= names@.len(),
            i <= upto,
            forall|a: int| 0 <= a < i ==> (#[trigger] names@[a])@ != k@,
        decreases upto - i,
    {
        if str_eq(names[i].as_str(), k) {
            return true;
        }
        i += 1;
    }
    false
}

/// Why the inherited names, in sorted order from position `i` on, are
/// refused: an invalid name, a name inherited twice or also fixed, or a name
/// the broker environment `current` lacks; each name is checked in that order.
pub open spec fn inherit_problem(sorted: Seq<Seq<char>>, set: Seq<(String, String)>, current: Seq<(String, String)>, i: int) -> Option<Seq<char>>
    decreases sorted.len() - i,
{
    if i < 0 || i >= sorted.len() {
        None
    } else if !env_name_ok(sorted[i]) {
        Some("invalid environment variable name"@)
    } else if (exists|k: int| 0 <= k < i && sorted[k] == sorted[i]) || has_key(set, sorted[i]) {
        Some("duplicate environment source"@)
    } else if !has_key(current, sorted[i]) {
        Some("inherited variable is not present"@)
    } else {
        inherit_problem(sorted, set, current, i + 1)
    }
}

/// Why the fixed values, from position `k` on, are refused: an invalid name
/// or a value with NUL.
pub open spec fn set_problem(set: Seq<(String, String)>, k: int) -> Option<Seq<char>>
    decreases set.len() - k,
{
    if k < 0 || k >= set.len() {
        None
    } else if !env_name_ok(set[k].0@) {
        Some("invalid environment variable name"@)
    } else if set[k].1@.contains('\0') {
        Some("environment value contains NUL"@)
    } else {
        set_problem(set, k + 1)
    }
}

/// Why an environment is refused against the broker environment `current`:
/// the inherited names are checked first, in sorted order, then the fixed
/// values in order.
pub open spec fn environment_problem(raw: RawEnvironment, current: Seq<(String, String)>) -> Option<Seq<char>> {
    match inherit_problem(sorted_view(string_views(raw.inherit@)), raw.set@, current, 0) {
        Some(m) => Some(m),
        None => set_problem(raw.set@, 0),
    }
}

/// Checks an environment and captures the inherited values from `current`.
pub fn validate_environment(raw: RawEnvironment, current: &Vec<(String, String)>, path: &str) -> (r: Result<EnvironmentSpec, Diagnostic>)
    ensures
        r is Ok <==> environment_ok(raw, current@),
        r matches Ok(e) ==> environment_from(e, raw, current@),
        r matches Ok(e) ==> (keys_ordered(raw.set@) ==> env_wf(e)),
        r matches Err(d) ==> d.code == BrokerErrorCode::InvalidArguments && d.path@ == path@
            && environment_problem(raw, current@) == Some(d.message@),
        r is Ok ==> environment_problem(raw, current@) is None,
{
    let ghost orig = raw;
    let RawEnvironment { inherit: raw_inherit, set } = raw;
    let inherit = sort_names(raw_inherit);
    let ghost sorted = string_views(inherit@);
    proof {
        lemma_same_bag(sorted, string_views(orig.inherit@));
        lemma_sorted_view(string_views(orig.inherit@), sorted);
    }
    let mut inherited_values: Vec<(String, String)> = Vec::new();
    let mut i: usize = 0;
    while i < inherit.len()
        invariant
            sorted == string_views(inherit@),
            raw == orig,
            set == orig.set,
            forall|x: Seq<char>| sorted.contains(x) <==> string_views(orig.inherit@).contains(x),
            sorted.no_duplicates() <==> string_views(orig.inherit@).no_duplicates(),
            i <= inherit@.len(),
            inherited_values@.len() == i,
            forall|a: int, b: int| 0 <= a < b < i ==> sorted[a] != sorted[b],
            forall|a: int| 0 <= a < i ==> {
                let n = #[trigger] sorted[a];
                env_name_ok(n) && !has_key(set@, n) && has_key(current@, n)
            },
            forall|a: int| 0 <= a < i ==> (#[trigger] inherited_values@[a]).0@ == inherit@[a]@
                && holds_text(lookup(current@, inherit@[a]@), inherited_values@[a].1@),
            sorted_view(string_views(orig.inherit@)) == sorted,
            inherit_problem(sorted, orig.set@, current@, 0) == inherit_problem(sorted, orig.set@, current@, i as int),
        decreases inherit@.len() - i,
    {
        let name = inherit[i].as_str();
        assert(sorted[i as int] == name@);
        proof {
            assert(sorted.contains(name@));
        }
        let ghost at = lemma_member(orig.inherit@, name@);
        match validate_env_name(name, path) {
            Ok(()) => {},
            Err(d) => {
                assert(!env_name_ok(orig.inherit@[at]@));
                assert(inherit_problem(sorted, orig.set@, current@, i as int) == Some("invalid environment variable name"@));
                return Err(d);
            },
        }
        let ghost earlier = exists|k: int| 0 <= k < i && sorted[k] == sorted[i as int];
        if seen_before(&inherit, i, name) || contains_key(&set, name) {
            proof {
                if !has_key(set@, name@) {
                    let k = choose|k: int| 0 <= k < i && (#[trigger] inherit@[k])@ == name@;
                    assert(sorted[k] == sorted[i as int]);
                    assert(!sorted.no_duplicates());
                } else {
                    assert(has_key(orig.set@, orig.inherit@[at]@));
                }
                if !has_key(set@, name@) {
                    let k = choose|k: int| 0 <= k < i && (#[trigger] inherit@[k])@ == name@;
                    assert(sorted[k] == sorted[i as int]);
                }
                assert(inherit_problem(sorted, orig.set@, current@, i as int) == Some("duplicate environment source"@));
            }
            return Err(Diagnostic::invalid(path, "duplicate environment source"));
        }
        let value = match get_key(current, name) {
            Some(v) => v,
            None => {
                proof {
                    lemma_find_iff_has(current@, name@);
                }
                assert(!has_key(current@, orig.inherit@[at]@));
                proof {
                    if earlier {
                        let k = choose|k: int| 0 <= k < i && sorted[k] == sorted[i as int];
                        assert(inherit@[k]@ == name@);
                    }
                }
                assert(inherit_problem(sorted, orig.set@, current@, i as int) == Some("inherited variable is not present"@));
                return Err(Diagnostic::invalid(path, "inherited variable is not present"));
            },
        };
        inherited_values.push((inherit[i].clone(), value.clone()));
        proof {
            assert forall|a: int| 0 <= a < i implies sorted[a] != sorted[i as int] by {
                assert(sorted[a] == inherit@[a]@);
            }
        }
        i += 1;
    }
    let mut k: usize = 0;
    while k < set.len()
        invariant
            raw == orig,
            set == orig.set,
            k <= set@.len(),
            forall|a: int| 0 <= a < k ==> env_name_ok((#[trigger] set@[a]).0@) && !set@[a].1@.contains('\0'),
            sorted_view(string_views(orig.inherit@)) == sorted,
            inherit_problem(sorted, orig.set@, current@, 0) is None,
            set_problem(orig.set@, 0) == set_problem(orig.set@, k as int),
        decreases set@.len() - k,
    {
        match validate_env_name(set[k].0.as_str(), path) {
            Ok(()) => {},
            Err(d) => {
                assert(!env_name_ok(orig.set@[k as int].0@));
                assert(set_problem(orig.set@, k as int) == Some("invalid environment variable name"@));
                return Err(d);
            },
        }
        if contains_char(set[k].1.as_str(), '\0') {
            assert(orig.set@[k as int].1@.contains('\0'));
            assert(set_problem(orig.set@, k as int) == Some("environment value contains NUL"@));
            return Err(Diagnostic::invalid(path, "environment value contains NUL"));
        }
        k += 1;
    }
    proof {
        assert(sorted.no_duplicates());
        assert forall|a: int| 0 <= a < orig.inherit@.len() implies {
            let n = (#[trigger] orig.inherit@[a])@;
            env_name_ok(n) && !has_key(orig.set@, n) && has_key(current@, n)
        } by {
            let n = orig.inherit@[a]@;
            assert(string_views(orig.inherit@)[a] == n);
            assert(string_views(orig.inherit@).contains(n));
            assert(sorted.contains(n));
            let b = choose|b: int| 0 <= b < sorted.len() && sorted[b] == n;
            assert(sorted[b] == n);
        }
    }
    let e = EnvironmentSpec { inherit, inherited_values, set };
    proof {
        if keys_ordered(orig.set@) {
            law_adopted_environment_ordered(e, orig, current@);
        }
    }
    Ok(e)
}


// ---------------------------------------------------------------------------
// Adopted targets and tools.

/// A command-line target: what is executed, where, with which environment and
/// limits.
pub struct CliTarget {
    pub id: String,
    pub executable: String,
    pub cwd: String,
    pub environment: EnvironmentSpec,
    pub limits: Limits,
}

/// An upstream MCP server started as a child process over stdio.
pub struct UpstreamMcpTarget {
    pub id: String,
    pub command: String,
    pub args: Vec<String>,
    pub cwd: String,
    pub environment: EnvironmentSpec,
    pub limits: Limits,
}

/// The behaviour hints a tool publishes in the catalog.
#[derive(Clone, Copy, Debug, PartialEq, Eq, Structural)]
pub struct Annotations {
    pub read_only_hint: Option<bool>,
    pub destructive_hint: Option<bool>,
    pub idempotent_hint: Option<bool>,
    pub open_world_hint: Option<bool>,
}

/// How the result of a call is returned.
#[derive(Clone, Copy, Debug, PartialEq, Eq, Structural)]
pub enum OutputKind {
    Text,
    Json,
    Structured,
}

/// The upstream tool a tool calls, and how its arguments are built.
pub struct McpInvoke {
    pub tool: String,
    pub arguments: Vec<(String, McpBinding)>,
}

/// An adopted tool.
pub struct CompiledTool {
    pub name: String,
    pub title: Option<String>,
    pub description: Option<String>,
    pub annotations: Annotations,
    pub schema: CompiledSchema,
    pub target: String,
    pub argv: Vec<CliBinding>,
    pub mcp: Option<McpInvoke>,
    pub output_kind: OutputKind,
}

/// An adopted configuration. Maps are entry lists in key order.
pub struct ValidatedConfig {
    pub server_name: String,
    pub request_bytes: usize,
    pub json_depth: usize,
    pub targets: Vec<(String, CliTarget)>,
    pub upstream_targets: Vec<(String, UpstreamMcpTarget)>,
    pub tools: Vec<(String, CompiledTool)>,
    /// The broker environment as it was when the configuration was adopted.
    pub server_environment: Vec<(String, String)>,
}

pub open spec fn cli_target_ok(t: RawTarget, env: Seq<(String, String)>) -> bool {
    &&& match t.executable {
        Some(e) => absolute_path_ok(e@),
        None => false,
    }
    &&& match t.cwd {
        Some(c) => absolute_path_ok(c@),
        None => false,
    }
    &&& limits_ok(t.limits, false)
    &&& environment_ok(t.environment, env)
}

/// No argument contains a NUL character.
pub open spec fn args_free_of_nul(args: Seq<String>) -> bool {
    forall|i: int| 0 <= i < args.len() ==> !(#[trigger] args[i])@.contains('\0')
}

pub open spec fn mcp_target_ok(t: RawTarget, env: Seq<(String, String)>) -> bool {
    match t.transport {
        Some(tr) => {
            &&& tr.kind@ == "stdio"@
            &&& absolute_path_ok(tr.command@)
            &&& absolute_path_ok(tr.cwd@)
            &&& args_free_of_nul(tr.args@)
            &&& limits_ok(t.limits, true)
            &&& environment_ok(tr.environment, env)
        },
        None => false,
    }
}

/// A target entry is accepted: its ID is an identifier and it is a valid CLI
/// or MCP target.
pub open spec fn target_ok(id: Seq<char>, t: RawTarget, env: Seq<(String, String)>) -> bool {
    &&& id_ok(id)
    &&& if t.kind@ == "cli"@ {
        cli_target_ok(t, env)
    } else if t.kind@ == "mcp"@ {
        mcp_target_ok(t, env)
    } else {
        false
    }
}

pub open spec fn limits_of(l: RawTargetLimits, out: Option<usize>) -> Limits {
    Limits { timeout_ms: l.timeout_ms, stdout_bytes: out->0, output_bytes: out->0, stderr_bytes: l.stderr_bytes }
}

pub open spec fn text_is(s: Option<String>, t: Seq<char>) -> bool {
    match s {
        Some(x) => x@ == t,
        None => false,
    }
}

/// `c` is the adopted form of the CLI target `id`.
pub open spec fn cli_target_from(c: CliTarget, id: Seq<char>, t: RawTarget, env: Seq<(String, String)>) -> bool {
    &&& c.id@ == id
    &&& text_is(t.executable, c.executable@)
    &&& text_is(t.cwd, c.cwd@)
    &&& environment_from(c.environment, t.environment, env)
    &&& c.limits == limits_of(t.limits, t.limits.stdout_bytes)
}

/// `u` is the adopted form of the MCP target `id`.
pub open spec fn mcp_target_from(u: UpstreamMcpTarget, id: Seq<char>, t: RawTarget, env: Seq<(String, String)>) -> bool {
    match t.transport {
        Some(tr) => {
            &&& u.id@ == id
            &&& u.command@ == tr.command@
            &&& u.args@ == tr.args@
            &&& u.cwd@ == tr.cwd@
            &&& environment_from(u.environment, tr.environment, env)
            &&& u.limits == limits_of(t.limits, t.limits.output_bytes)
        },
        None => false,
    }
}

/// The entries of `s` whose target kind is `kind`, in order.
pub open spec fn entries_of_kind(s: Seq<(String, RawTarget)>, kind: Seq<char>) -> Seq<(String, RawTarget)>
    decreases s.len(),
{
    if s.len() == 0 {
        Seq::empty()
    } else {
        let r = entries_of_kind(s.drop_last(), kind);
        if s.last().1.kind@ == kind {
            r.push(s.last())
        } else {
            r
        }
    }
}

/// Some schema compiled from `v`.
pub open spec fn compiled_schema(v: JsonValue) -> CompiledSchema {
    choose|c: CompiledSchema| compiled_from(c, v)
}

/// The output kind `kind` names, for a tool calling an MCP target or not.
pub open spec fn output_kind_of(kind: Seq<char>, mcp: bool) -> Option<OutputKind> {
    if kind == "text"@ {
        Some(OutputKind::Text)
    } else if kind == "json"@ && !mcp {
        Some(OutputKind::Json)
    } else if kind == "structured"@ && mcp {
        Some(OutputKind::Structured)
    } else {
        None
    }
}

/// A tool entry is accepted against the targets and the broker environment.
pub open spec fn tool_ok(name: Seq<char>, tool: RawTool, targets: Seq<(String, RawTarget)>, env: Seq<(String, String)>) -> bool {
    let s = compiled_schema(tool.input_schema);
    let t = tool.invoke.target@;
    &&& id_ok(name)
    &&& (has_key(entries_of_kind(targets, "cli"@), t) || has_key(entries_of_kind(targets, "mcp"@), t))
    &&& schema_accepts(tool.input_schema, true, 1)
    &&& match tool.invoke.cli {
        Some(c) => has_key(entries_of_kind(targets, "cli"@), t)
            && forall|i: int| 0 <= i < c.argv@.len() ==> cli_binding_ok(#[trigger] c.argv@[i], s),
        None => true,
    }
    &&& match tool.invoke.mcp {
        Some(m) => has_key(entries_of_kind(targets, "mcp"@), t) && mcp_tool_name_ok(m.tool@)
            && mcp_arguments_ok(m.arguments@, s, env),
        None => true,
    }
    &&& (tool.invoke.cli is Some) != (tool.invoke.mcp is Some)
    &&& output_kind_of(tool.output.kind@, has_key(entries_of_kind(targets, "mcp"@), t)) is Some
}

pub open spec fn same_text(a: Option<String>, b: Option<String>) -> bool {
    match a {
        Some(x) => text_is(b, x@),
        None => b is None,
    }
}

pub open spec fn annotations_of(a: RawAnnotations) -> Annotations {
    Annotations {
        read_only_hint: a.read_only_hint,
        destructive_hint: a.destructive_hint,
        idempotent_hint: a.idempotent_hint,
        open_world_hint: a.open_world_hint,
    }
}

/// `t` is the adopted form of the tool `name`.
pub open spec fn tool_from(t: CompiledTool, name: Seq<char>, tool: RawTool, targets: Seq<(String, RawTarget)>) -> bool {
    &&& t.name@ == name
    &&& same_text(tool.title, t.title)
    &&& same_text(tool.description, t.description)
    &&& t.annotations == annotations_of(tool.annotations)
    &&& compiled_from(t.schema, tool.input_schema)
    &&& t.target@ == tool.invoke.target@
    &&& match tool.invoke.cli {
        Some(c) => t.argv@.len() == c.argv@.len()
            && forall|i: int| 0 <= i < c.argv@.len() ==> cli_binding_of(#[trigger] t.argv@[i], c.argv@[i]),
        None => t.argv@.len() == 0,
    }
    &&& match tool.invoke.mcp {
        Some(m) => match t.mcp {
            Some(mi) => {
                &&& mi.tool@ == m.tool@
                &&& mi.arguments@.len() == m.arguments@.len()
                &&& forall|i: int| 0 <= i < m.arguments@.len() ==> (#[trigger] mi.arguments@[i]).0@ == m.arguments@[i].0@
                    && mcp_compiled_from(mi.arguments@[i].1, m.arguments@[i].1)
            },
            None => false,
        },
        None => t.mcp is None,
    }
    &&& Some(t.output_kind) == output_kind_of(tool.output.kind@, has_key(entries_of_kind(targets, "mcp"@), tool.invoke.target@))
}

// ---------------------------------------------------------------------------
// Why a configuration is refused.

/// The path and message of a refusal of part of a target or tool, reported
/// under `base`.
pub open spec fn at_field(base: Seq<char>, field: Seq<char>, message: Seq<char>) -> Option<(Seq<char>, Seq<char>)> {
    Some((base + seq!['/'] + field, message))
}

/// The first reason adoption refuses the target entry `id`, in the order the
/// checks are made: the ID, then by kind its executable, working directory,
/// limits and environment (command-line) or its transport, command, working
/// directory, arguments, limits and environment (MCP).
pub open spec fn target_problem(id: Seq<char>, t: RawTarget, env: Seq<(String, String)>) -> Option<(Seq<char>, Seq<char>)> {
    let base = "/targets"@ + seq!['/'] + id;
    let path_message = "must be a non-empty absolute path without NUL"@;
    if !id_ok(id) {
        Some(("/targets"@, "must be 1..128 ASCII identifier characters"@))
    } else if t.kind@ == "cli"@ {
        match t.executable {
            None => at_field(base, "executable"@, "required for cli"@),
            Some(exe) => if !absolute_path_ok(exe@) {
                at_field(base, "executable"@, path_message)
            } else {
                match t.cwd {
                    None => at_field(base, "cwd"@, "required for cli"@),
                    Some(dir) => if !absolute_path_ok(dir@) {
                        at_field(base, "cwd"@, path_message)
                    } else if limits_problem(t.limits, false) is Some {
                        under_field(base + seq!['/'] + "limits"@, limits_problem(t.limits, false))
                    } else {
                        match environment_problem(t.environment, env) {
                            Some(m) => at_field(base, "environment"@, m),
                            None => None,
                        }
                    },
                }
            },
        }
    } else if t.kind@ == "mcp"@ {
        match t.transport {
            None => at_field(base, "transport"@, "required for mcp"@),
            Some(tr) => if tr.kind@ != "stdio"@ {
                at_field(base, "transport/kind"@, "only stdio is supported"@)
            } else if !absolute_path_ok(tr.command@) {
                at_field(base, "transport/command"@, path_message)
            } else if !absolute_path_ok(tr.cwd@) {
                at_field(base, "transport/cwd"@, path_message)
            } else if !args_free_of_nul(tr.args@) {
                at_field(base, "transport/args"@, "argument contains NUL"@)
            } else if limits_problem(t.limits, true) is Some {
                under_field(base + seq!['/'] + "limits"@, limits_problem(t.limits, true))
            } else {
                match environment_problem(tr.environment, env) {
                    Some(m) => at_field(base, "transport/environment"@, m),
                    None => None,
                }
            },
        }
    } else {
        at_field(base, "kind"@, "kind must be cli or mcp"@)
    }
}

/// A problem with a field reported under `base`.
pub open spec fn under_field(base: Seq<char>, x: Option<(Seq<char>, Seq<char>)>) -> Option<(Seq<char>, Seq<char>)> {
    match x {
        Some((f, m)) => Some((base + seq!['/'] + f, m)),
        None => None,
    }
}

/// The first reason adoption refuses the tool entry `name`, in the order the
/// checks are made: the name, the target, the input schema, the command-line
/// bindings, the upstream call, that exactly one invocation is given, and the
/// output kind.
pub open spec fn tool_problem(name: Seq<char>, tool: RawTool, targets: Seq<(String, RawTarget)>, env: Seq<(String, String)>) -> Option<(Seq<char>, Seq<char>)> {
    let base = "/tools"@ + seq!['/'] + name;
    let s = compiled_schema(tool.input_schema);
    let t = tool.invoke.target@;
    let is_cli = has_key(entries_of_kind(targets, "cli"@), t);
    let is_mcp = has_key(entries_of_kind(targets, "mcp"@), t);
    if !id_ok(name) {
        Some(("/tools"@, "must be 1..128 ASCII identifier characters"@))
    } else if !is_cli && !is_mcp {
        at_field(base, "invoke/target"@, "unknown target"@)
    } else if schema_problem(tool.input_schema, base + seq!['/'] + "input_schema"@, true, 1) is Some {
        schema_problem(tool.input_schema, base + seq!['/'] + "input_schema"@, true, 1)
    } else if (tool.invoke.cli is Some && !is_cli) {
        at_field(base, "invoke/cli"@, "target is not cli"@)
    } else if (tool.invoke.cli matches Some(c) && bindings_problem(c.argv@, s, base + seq!['/'] + "invoke/cli/argv"@, 0) is Some) {
        bindings_problem(tool.invoke.cli->0.argv@, s, base + seq!['/'] + "invoke/cli/argv"@, 0)
    } else if (tool.invoke.mcp is Some && !is_mcp) {
        at_field(base, "invoke/mcp"@, "target is not mcp"@)
    } else if (tool.invoke.mcp matches Some(m) && !mcp_tool_name_ok(m.tool@)) {
        at_field(base, "invoke/mcp/tool"@, "upstream tool name must be 1..128 bytes without NUL"@)
    } else if (tool.invoke.mcp matches Some(m) && arguments_problem(m.arguments@, s, env, base + seq!['/'] + "invoke/mcp/arguments"@, 0) is Some) {
        arguments_problem(tool.invoke.mcp->0.arguments@, s, env, base + seq!['/'] + "invoke/mcp/arguments"@, 0)
    } else if (tool.invoke.cli is Some) == (tool.invoke.mcp is Some) {
        at_field(base, "invoke"@, "exactly one cli or mcp invocation is required"@)
    } else if output_kind_of(tool.output.kind@, is_mcp) is None {
        at_field(base, "output/kind"@, "output kind is incompatible with target"@)
    } else {
        None
    }
}

/// The first refused target entry, from position `i` on.
pub open spec fn targets_problem(ts: Seq<(String, RawTarget)>, env: Seq<(String, String)>, i: int) -> Option<(Seq<char>, Seq<char>)>
    decreases ts.len() - i,
{
    if i < 0 || i >= ts.len() {
        None
    } else {
        match target_problem(ts[i].0@, ts[i].1, env) {
            Some(x) => Some(x),
            None => targets_problem(ts, env, i + 1),
        }
    }
}

/// The first refused tool entry, from position `i` on.
pub open spec fn tools_problem(tl: Seq<(String, RawTool)>, ts: Seq<(String, RawTarget)>, env: Seq<(String, String)>, i: int) -> Option<(Seq<char>, Seq<char>)>
    decreases tl.len() - i,
{
    if i < 0 || i >= tl.len() {
        None
    } else {
        match tool_problem(tl[i].0@, tl[i].1, ts, env) {
            Some(x) => Some(x),
            None => tools_problem(tl, ts, env, i + 1),
        }
    }
}

/// The first reason adoption refuses `raw` against the broker environment
/// `env`: the checks on the configuration as a whole, then the targets in
/// order, then the tools in order.
pub open spec fn config_problem(raw: RawConfig, env: Seq<(String, String)>) -> Option<(Seq<char>, Seq<char>)> {
    if raw.version != 1 {
        Some(("/version"@, "unsupported version"@))
    } else if raw.server.transport.kind@ != "stdio"@ {
        Some(("/server/transport/kind"@, "only stdio is supported"@))
    } else if !(1 <= raw.server.limits.request_bytes <= MAX_CONFIG_BYTES) {
        Some(("/server/limits/request_bytes"@, "must be 1..1048576"@))
    } else if !(1 <= raw.server.limits.json_depth <= MAX_JSON_DEPTH) {
        Some(("/server/limits/json_depth"@, "must be 1..32"@))
    } else if raw.tools@.len() > MAX_TOOLS {
        Some(("/tools"@, "too many tools"@))
    } else if raw.server.name@.len() == 0 {
        Some(("/server/name"@, "must not be empty"@))
    } else {
        match targets_problem(raw.targets@, env, 0) {
            Some(x) => Some(x),
            None => tools_problem(raw.tools@, raw.targets@, env, 0),
        }
    }
}

/// The checks on the configuration as a whole: version 1, stdio transport,
/// request and depth limits in range, at most 256 tools, a server name.
pub open spec fn header_ok(raw: RawConfig) -> bool {
    &&& raw.version == 1
    &&& raw.server.transport.kind@ == "stdio"@
    &&& 1 <= raw.server.limits.request_bytes <= MAX_CONFIG_BYTES
    &&& 1 <= raw.server.limits.json_depth <= MAX_JSON_DEPTH
    &&& raw.tools@.len() <= MAX_TOOLS
    &&& raw.server.name@.len() > 0
}

/// The configuration is adopted against the broker environment `env`.
pub open spec fn config_ok(raw: RawConfig, env: Seq<(String, String)>) -> bool {
    &&& header_ok(raw)
    &&& forall|i: int| 0 <= i < raw.targets@.len() ==> target_ok((#[trigger] raw.targets@[i]).0@, raw.targets@[i].1, env)
    &&& forall|i: int| 0 <= i < raw.tools@.len() ==> tool_ok((#[trigger] raw.tools@[i]).0@, raw.tools@[i].1, raw.targets@, env)
}

/// `c` is the adopted form of `raw`.
pub open spec fn config_from(c: ValidatedConfig, raw: RawConfig, env: Seq<(String, String)>) -> bool {
    let cli = entries_of_kind(raw.targets@, "cli"@);
    let mcp = entries_of_kind(raw.targets@, "mcp"@);
    &&& c.server_name@ == raw.server.name@
    &&& c.request_bytes == raw.server.limits.request_bytes
    &&& c.json_depth == raw.server.limits.json_depth
    &&& c.targets@.len() == cli.len()
    &&& forall|i: int| 0 <= i < cli.len() ==> (#[trigger] c.targets@[i]).0@ == cli[i].0@
        && cli_target_from(c.targets@[i].1, cli[i].0@, cli[i].1, env)
    &&& c.upstream_targets@.len() == mcp.len()
    &&& forall|i: int| 0 <= i < mcp.len() ==> (#[trigger] c.upstream_targets@[i]).0@ == mcp[i].0@
        && mcp_target_from(c.upstream_targets@[i].1, mcp[i].0@, mcp[i].1, env)
    &&& c.tools@.len() == raw.tools@.len()
    &&& forall|i: int| 0 <= i < raw.tools@.len() ==> (#[trigger] c.tools@[i]).0@ == raw.tools@[i].0@
        && tool_from(c.tools@[i].1, raw.tools@[i].0@, raw.tools@[i].1, raw.targets@)
    &&& c.server_environment@ == env
}


// ---------------------------------------------------------------------------
// Adoption.

enum AdoptedTarget {
    Cli(CliTarget),
    Mcp(UpstreamMcpTarget),
}

fn required(path: &str, field: &str, message: &str) -> (d: Diagnostic)
    ensures
        d.code == BrokerErrorCode::InvalidArguments,
        d.path@ == path@ + seq!['/'] + field@,
        d.message@ == message@,
{
    let p = join_path(path, field);
    Diagnostic::invalid(p.as_str(), message)
}

/// Adopts one target entry.
fn adopt_target(id: &String, target: RawTarget, env: &Vec<(String, String)>) -> (r: Result<AdoptedTarget, Diagnostic>)
    ensures
        r is Ok <==> target_ok(id@, target, env@),
        r matches Ok(AdoptedTarget::Cli(c)) ==> target.kind@ == "cli"@ && cli_target_from(c, id@, target, env@),
        r matches Ok(AdoptedTarget::Mcp(u)) ==> target.kind@ == "mcp"@ && mcp_target_from(u, id@, target, env@),
        r matches Err(d) ==> reports_problem(d, target_problem(id@, target, env@)),
        r is Ok ==> target_problem(id@, target, env@) is None,
{
    match validate_id(id.as_str(), "/targets") {
        Ok(()) => {},
        Err(d) => {
            return Err(d);
        },
    }
    let ghost orig = target;
    let base = join_path("/targets", id.as_str());
    let RawTarget { kind, executable, transport, cwd, environment, limits } = target;
    if str_eq(kind.as_str(), "cli") {
        let exe_path = join_path(base.as_str(), "executable");
        let exe = match &executable {
            Some(e) => e,
            None => {
                return Err(Diagnostic::invalid(exe_path.as_str(), "required for cli"));
            },
        };
        let exe_out = match absolute_path(exe.as_str(), exe_path.as_str()) {
            Ok(p) => p,
            Err(d) => {
                return Err(d);
            },
        };
        let cwd_path = join_path(base.as_str(), "cwd");
        let dir = match &cwd {
            Some(c) => c,
            None => {
                return Err(Diagnostic::invalid(cwd_path.as_str(), "required for cli"));
            },
        };
        let cwd_out = match absolute_path(dir.as_str(), cwd_path.as_str()) {
            Ok(p) => p,
            Err(d) => {
                return Err(d);
            },
        };
        let limits_path = join_path(base.as_str(), "limits");
        match validate_limits(&limits, limits_path.as_str(), false) {
            Ok(()) => {},
            Err(d) => {
                return Err(d);
            },
        }
        let env_path = join_path(base.as_str(), "environment");
        let spec = match validate_environment(environment, env, env_path.as_str()) {
            Ok(e) => e,
            Err(d) => {
                return Err(d);
            },
        };
        let out = match limits.stdout_bytes {
            Some(n) => n,
            None => 0,
        };
        Ok(AdoptedTarget::Cli(CliTarget {
            id: id.clone(),
            executable: exe_out,
            cwd: cwd_out,
            environment: spec,
            limits: Limits {
                timeout_ms: limits.timeout_ms,
                stdout_bytes: out,
                output_bytes: out,
                stderr_bytes: limits.stderr_bytes,
            },
        }))
    } else if str_eq(kind.as_str(), "mcp") {
        let tr = match transport {
            Some(t) => t,
            None => {
                return Err(required(base.as_str(), "transport", "required for mcp"));
            },
        };
        let ghost orig_tr = tr;
        let RawTargetTransport { kind: tkind, command, args, cwd: tcwd, environment: tenv } = tr;
        if !str_eq(tkind.as_str(), "stdio") {
            return Err(required(base.as_str(), "transport/kind", "only stdio is supported"));
        }
        let command_path = join_path(base.as_str(), "transport/command");
        let command_out = match absolute_path(command.as_str(), command_path.as_str()) {
            Ok(p) => p,
            Err(d) => {
                return Err(d);
            },
        };
        let cwd_path = join_path(base.as_str(), "transport/cwd");
        let cwd_out = match absolute_path(tcwd.as_str(), cwd_path.as_str()) {
            Ok(p) => p,
            Err(d) => {
                return Err(d);
            },
        };
        let mut i: usize = 0;
        while i < args.len()
            invariant
                target == orig,
                orig.transport == Some(orig_tr),
                orig_tr.args == args,
                orig.kind@ == "mcp"@,
                orig.kind@ != "cli"@,
                id_ok(id@),
                base@ == "/targets"@ + seq!['/'] + id@,
                orig_tr.kind@ == "stdio"@,
                absolute_path_ok(orig_tr.command@),
                absolute_path_ok(orig_tr.cwd@),
                i <= args@.len(),
                forall|j: int| 0 <= j < i ==> !(#[trigger] args@[j])@.contains('\0'),
            decreases args@.len() - i,
        {
            if contains_char(args[i].as_str(), '\0') {
                assert(!args_free_of_nul(orig_tr.args@));
                return Err(required(base.as_str(), "transport/args", "argument contains NUL"));
            }
            i += 1;
        }
        let limits_path = join_path(base.as_str(), "limits");
        match validate_limits(&limits, limits_path.as_str(), true) {
            Ok(()) => {},
            Err(d) => {
                return Err(d);
            },
        }
        let env_path = join_path(base.as_str(), "transport/environment");
        let spec = match validate_environment(tenv, env, env_path.as_str()) {
            Ok(e) => e,
            Err(d) => {
                return Err(d);
            },
        };
        let out = match limits.output_bytes {
            Some(n) => n,
            None => 0,
        };
        Ok(AdoptedTarget::Mcp(UpstreamMcpTarget {
            id: id.clone(),
            command: command_out,
            args,
            cwd: cwd_out,
            environment: spec,
            limits: Limits {
                timeout_ms: limits.timeout_ms,
                stdout_bytes: out,
                output_bytes: out,
                stderr_bytes: limits.stderr_bytes,
            },
        }))
    } else {
        Err(required(base.as_str(), "kind", "kind must be cli or mcp"))
    }
}


/// Adopts one tool entry against the adopted targets.
fn adopt_tool(
    name: &String,
    tool: RawTool,
    targets: &Vec<(String, CliTarget)>,
    upstream: &Vec<(String, UpstreamMcpTarget)>,
    env: &Vec<(String, String)>,
    Ghost(raw_targets): Ghost<Seq<(String, RawTarget)>>,
) -> (r: Result<CompiledTool, Diagnostic>)
    requires
        forall|k: Seq<char>| has_key(targets@, k) == has_key(entries_of_kind(raw_targets, "cli"@), k),
        forall|k: Seq<char>| has_key(upstream@, k) == has_key(entries_of_kind(raw_targets, "mcp"@), k),
    ensures
        r is Ok <==> tool_ok(name@, tool, raw_targets, env@),
        r matches Ok(t) ==> tool_from(t, name@, tool, raw_targets),
        r matches Err(d) ==> reports_problem(d, tool_problem(name@, tool, raw_targets, env@)),
        r is Ok ==> tool_problem(name@, tool, raw_targets, env@) is None,
{
    match validate_id(name.as_str(), "/tools") {
        Ok(()) => {},
        Err(d) => {
            return Err(d);
        },
    }
    let ghost orig = tool;
    let base = join_path("/tools", name.as_str());
    let RawTool { title, description, annotations, input_schema, invoke, output } = tool;
    let RawInvoke { target, cli, mcp } = invoke;
    if !contains_key(targets, target.as_str()) && !contains_key(upstream, target.as_str()) {
        return Err(required(base.as_str(), "invoke/target", "unknown target"));
    }
    let schema_path = join_path(base.as_str(), "input_schema");
    let schema = match compile_schema(&input_schema, schema_path.as_str(), true, 1) {
        Ok(c) => c,
        Err(d) => {
            return Err(d);
        },
    };
    let ghost chosen = compiled_schema(input_schema);
    proof {
        assert(compiled_from(chosen, input_schema));
        lemma_compiled_same_shape(schema, chosen, input_schema);
    }
    let argv: Option<Vec<CliBinding>> = match &cli {
        Some(c) => {
            if !contains_key(targets, target.as_str()) {
                return Err(required(base.as_str(), "invoke/cli", "target is not cli"));
            }
            proof {
                lemma_shape_cli_bindings(schema, chosen, c.argv@);
            }
            let p = join_path(base.as_str(), "invoke/cli/argv");
            proof {
                lemma_shape_bindings_problem(schema, chosen, c.argv@, p@, 0);
            }
            match compile_bindings(&c.argv, &schema, p.as_str()) {
                Ok(b) => Some(b),
                Err(d) => {
                    return Err(d);
                },
            }
        },
        None => None,
    };
    let mcp_out: Option<McpInvoke> = match &mcp {
        Some(m) => {
            if !contains_key(upstream, target.as_str()) {
                return Err(required(base.as_str(), "invoke/mcp", "target is not mcp"));
            }
            let tool_path = join_path(base.as_str(), "invoke/mcp/tool");
            let tool_name = match validate_mcp_tool_name(m.tool.as_str(), tool_path.as_str()) {
                Ok(t) => t,
                Err(d) => {
                    return Err(d);
                },
            };
            proof {
                lemma_shape_mcp_arguments(schema, chosen, m.arguments@, env@);
            }
            let args_path = join_path(base.as_str(), "invoke/mcp/arguments");
            proof {
                lemma_shape_arguments_problem(schema, chosen, m.arguments@, env@, args_path@, 0);
            }
            let arguments = match compile_mcp_bindings(&m.arguments, &schema, args_path.as_str(), env) {
                Ok(a) => a,
                Err(d) => {
                    return Err(d);
                },
            };
            Some(McpInvoke { tool: tool_name, arguments })
        },
        None => None,
    };
    if argv.is_none() == mcp_out.is_none() {
        return Err(required(base.as_str(), "invoke", "exactly one cli or mcp invocation is required"));
    }
    let has_mcp = contains_key(upstream, target.as_str());
    let output_kind = if str_eq(output.kind.as_str(), "text") {
        OutputKind::Text
    } else if str_eq(output.kind.as_str(), "json") && !has_mcp {
        OutputKind::Json
    } else if str_eq(output.kind.as_str(), "structured") && has_mcp {
        OutputKind::Structured
    } else {
        return Err(required(base.as_str(), "output/kind", "output kind is incompatible with target"));
    };
    let argv_out = match argv {
        Some(b) => b,
        None => Vec::new(),
    };
    Ok(CompiledTool {
        name: name.clone(),
        title,
        description,
        annotations: Annotations {
            read_only_hint: annotations.read_only_hint,
            destructive_hint: annotations.destructive_hint,
            idempotent_hint: annotations.idempotent_hint,
            open_world_hint: annotations.open_world_hint,
        },
        schema,
        target,
        argv: argv_out,
        mcp: mcp_out,
        output_kind,
    })
}


proof fn lemma_kinds_differ()
    ensures
        "cli"@ != "mcp"@,
{
    reveal_strlit("cli");
    reveal_strlit("mcp");
    assert("cli"@[0] != "mcp"@[0]);
}

/// A copy of the entries `entries`.
pub fn copy_entries(entries: &Vec<(String, String)>) -> (r: Vec<(String, String)>)
    ensures
        r@ == entries@,
{
    let mut out: Vec<(String, String)> = Vec::new();
    let mut i: usize = 0;
    while i < entries.len()
        invariant
            i <= entries@.len(),
            out@ == entries@.take(i as int),
        decreases entries@.len() - i,
    {
        out.push((entries[i].0.clone(), entries[i].1.clone()));
        proof {
            assert(entries@.take(i + 1) =~= entries@.take(i as int).push(entries@[i as int]));
        }
        i += 1;
    }
    proof {
        assert(entries@.take(entries@.len() as int) =~= entries@);
    }
    out
}

proof fn lemma_keys_match<V>(out: Seq<(String, V)>, entries: Seq<(String, RawTarget)>)
    requires
        out.len() == entries.len(),
        forall|i: int| 0 <= i < entries.len() ==> (#[trigger] out[i]).0@ == entries[i].0@,
    ensures
        forall|k: Seq<char>| has_key(out, k) == has_key(entries, k),
{
    assert forall|k: Seq<char>| has_key(out, k) == has_key(entries, k) by {
        lemma_same_keys_find(out, entries, k);
        lemma_find_iff_has(out, k);
        lemma_find_iff_has(entries, k);
    }
}

// ---------------------------------------------------------------------------
// Key order.

/// The maps of `raw` hold their keys in ascending order, each once, and so do
/// the objects of every input schema: the configuration as a reader of its
/// text produces it.
pub open spec fn raw_wf(raw: RawConfig) -> bool {
    &&& keys_ordered(raw.targets@)
    &&& forall|i: int| 0 <= i < raw.targets@.len() ==> target_env_ordered((#[trigger] raw.targets@[i]).1)
    &&& keys_ordered(raw.tools@)
    &&& forall|i: int| 0 <= i < raw.tools@.len() ==> json_wf((#[trigger] raw.tools@[i]).1.input_schema)
}

/// The fixed values of the environments of `t` are in key order.
pub open spec fn target_env_ordered(t: RawTarget) -> bool {
    &&& keys_ordered(t.environment.set@)
    &&& (t.transport matches Some(tr) ==> keys_ordered(tr.environment.set@))
}

/// The targets and tools of `c` are held in ascending name order, each name
/// once, every target environment is well formed, each tool is held under
/// its own name, and every schema lists its required names in ascending
/// order.
pub open spec fn config_wf(c: ValidatedConfig) -> bool {
    &&& keys_ordered(c.targets@)
    &&& keys_ordered(c.upstream_targets@)
    &&& forall|i: int| 0 <= i < c.targets@.len() ==> env_wf((#[trigger] c.targets@[i]).1.environment)
    &&& forall|i: int| 0 <= i < c.upstream_targets@.len() ==> env_wf((#[trigger] c.upstream_targets@[i]).1.environment)
    &&& keys_ordered(c.tools@)
    &&& forall|i: int| 0 <= i < c.tools@.len() ==> (#[trigger] c.tools@[i]).1.name@ == c.tools@[i].0@
        && required_ordered(c.tools@[i].1.schema)
}

/// The targets of one kind keep the key order of all targets.
proof fn lemma_kind_ordered(s: Seq<(String, RawTarget)>, kind: Seq<char>)
    requires
        keys_ordered(s),
    ensures
        keys_ordered(entries_of_kind(s, kind)),
        forall|i: int| 0 <= i < entries_of_kind(s, kind).len() ==> s.contains(#[trigger] entries_of_kind(s, kind)[i])
            && entries_of_kind(s, kind)[i].1.kind@ == kind,
    decreases s.len(),
{
    if s.len() > 0 {
        let p = s.drop_last();
        let n = s.len() - 1;
        assert(keys_ordered(p)) by {
            assert forall|i: int, j: int| 0 <= i < j < key_views(p).len() implies seq_lt(#[trigger] key_views(p)[i], #[trigger] key_views(p)[j]) by {
                assert(key_views(p)[i] == key_views(s)[i] && key_views(p)[j] == key_views(s)[j]);
            }
        }
        lemma_kind_ordered(p, kind);
        let r = entries_of_kind(p, kind);
        let e = entries_of_kind(s, kind);
        assert forall|i: int| 0 <= i < r.len() implies seq_lt(#[trigger] r[i].0@, s[n].0@) by {
            assert(p.contains(r[i]));
            let m = choose|m: int| 0 <= m < p.len() && p[m] == r[i];
            assert(key_views(s)[m] == s[m].0@ && key_views(s)[n] == s[n].0@);
        }
        assert forall|i: int| 0 <= i < e.len() implies s.contains(#[trigger] e[i]) && e[i].1.kind@ == kind by {
            if i < r.len() {
                assert(p.contains(r[i]));
                let m = choose|m: int| 0 <= m < p.len() && p[m] == r[i];
                assert(s[m] == r[i]);
            } else {
                assert(s[n] == e[i]);
            }
        }
        assert forall|i: int, j: int| 0 <= i < j < key_views(e).len() implies seq_lt(#[trigger] key_views(e)[i], #[trigger] key_views(e)[j]) by {
            assert(key_views(e)[i] == e[i].0@ && key_views(e)[j] == e[j].0@);
            if j < r.len() {
                assert(key_views(r)[i] == r[i].0@ && key_views(r)[j] == r[j].0@);
            }
        }
    }
}

/// Law: adopting a configuration whose maps are in key order gives a
/// configuration whose targets of each kind, tools, and the required names
/// of the tools' schemas are in ascending order.
pub proof fn law_adopted_config_ordered(c: ValidatedConfig, raw: RawConfig, env: Seq<(String, String)>)
    requires
        raw_wf(raw),
        config_ok(raw, env),
        config_from(c, raw, env),
    ensures
        config_wf(c),
{
    let cli = entries_of_kind(raw.targets@, "cli"@);
    let mcp = entries_of_kind(raw.targets@, "mcp"@);
    lemma_kind_ordered(raw.targets@, "cli"@);
    lemma_kind_ordered(raw.targets@, "mcp"@);
    assert(key_views(c.targets@) =~= key_views(cli));
    assert(key_views(c.upstream_targets@) =~= key_views(mcp));
    assert(key_views(c.tools@) =~= key_views(raw.tools@));
    assert forall|i: int| 0 <= i < c.targets@.len() implies env_wf((#[trigger] c.targets@[i]).1.environment) by {
        assert(raw.targets@.contains(cli[i]) && cli[i].1.kind@ == "cli"@);
        let m = choose|m: int| 0 <= m < raw.targets@.len() && raw.targets@[m] == cli[i];
        assert(target_ok(raw.targets@[m].0@, raw.targets@[m].1, env));
        assert(target_env_ordered(raw.targets@[m].1));
        assert(cli_target_from(c.targets@[i].1, cli[i].0@, cli[i].1, env));
        law_adopted_environment_ordered(c.targets@[i].1.environment, cli[i].1.environment, env);
    }
    assert forall|i: int| 0 <= i < c.upstream_targets@.len() implies env_wf((#[trigger] c.upstream_targets@[i]).1.environment) by {
        assert(raw.targets@.contains(mcp[i]) && mcp[i].1.kind@ == "mcp"@);
        let m = choose|m: int| 0 <= m < raw.targets@.len() && raw.targets@[m] == mcp[i];
        assert(target_ok(raw.targets@[m].0@, raw.targets@[m].1, env));
        assert(target_env_ordered(raw.targets@[m].1));
        assert(mcp_target_from(c.upstream_targets@[i].1, mcp[i].0@, mcp[i].1, env));
        reveal_strlit("mcp");
        reveal_strlit("cli");
        assert("mcp"@[0] != "cli"@[0]);
        assert(mcp_target_ok(raw.targets@[m].1, env));
        let tr = mcp[i].1.transport.unwrap();
        law_adopted_environment_ordered(c.upstream_targets@[i].1.environment, tr.environment, env);
    }
    assert forall|i: int| 0 <= i < c.tools@.len() implies (#[trigger] c.tools@[i]).1.name@ == c.tools@[i].0@
        && required_ordered(c.tools@[i].1.schema) by {
        assert(tool_from(c.tools@[i].1, raw.tools@[i].0@, raw.tools@[i].1, raw.targets@));
        assert(json_wf(raw.tools@[i].1.input_schema));
        law_required_in_key_order(c.tools@[i].1.schema, raw.tools@[i].1.input_schema);
    }
}

/// The adopted output kind that the written kind `written` stands for on a
/// tool whose target is an MCP target (`mcp`) or not, stated as a table:
/// `text` on any target, `json` on a command-line target, `structured` on an
/// MCP target.
pub open spec fn written_kind_means(written: Seq<char>, mcp: bool, k: OutputKind) -> bool {
    &&& (written == "text"@ ==> k == OutputKind::Text)
    &&& (written == "json"@ && !mcp ==> k == OutputKind::Json)
    &&& (written == "structured"@ && mcp ==> k == OutputKind::Structured)
}

/// Law: every adopted tool's output kind is the one its written kind stands
/// for (`text` gives text, `json` on a command-line target gives JSON,
/// `structured` on an MCP target gives structured); an accepted tool's written
/// kind is one of these; and tools whose written kinds differ get different
/// output kinds.
pub proof fn law_output_kind_table(c: ValidatedConfig, raw: RawConfig, env: Seq<(String, String)>)
    requires
        config_ok(raw, env),
        config_from(c, raw, env),
    ensures
        forall|i: int| 0 <= i < raw.tools@.len() ==> written_kind_means(
            (#[trigger] raw.tools@[i]).1.output.kind@,
            has_key(entries_of_kind(raw.targets@, "mcp"@), raw.tools@[i].1.invoke.target@),
            c.tools@[i].1.output_kind,
        ),
        forall|i: int| 0 <= i < raw.tools@.len() ==> {
            let w = (#[trigger] raw.tools@[i]).1.output.kind@;
            w == "text"@ || w == "json"@ || w == "structured"@
        },
        forall|i: int, j: int| 0 <= i < raw.tools@.len() && 0 <= j < raw.tools@.len()
            && (#[trigger] raw.tools@[i]).1.output.kind@ != (#[trigger] raw.tools@[j]).1.output.kind@
            ==> c.tools@[i].1.output_kind != c.tools@[j].1.output_kind,
{
    reveal_strlit("text");
    reveal_strlit("json");
    reveal_strlit("structured");
    assert("text"@[0] == 't' && "json"@[0] == 'j' && "structured"@[0] == 's');
    assert forall|i: int| 0 <= i < raw.tools@.len() implies written_kind_means(
        (#[trigger] raw.tools@[i]).1.output.kind@,
        has_key(entries_of_kind(raw.targets@, "mcp"@), raw.tools@[i].1.invoke.target@),
        c.tools@[i].1.output_kind,
    ) && {
        let w = raw.tools@[i].1.output.kind@;
        w == "text"@ || w == "json"@ || w == "structured"@
    } by {
        assert(tool_from(c.tools@[i].1, raw.tools@[i].0@, raw.tools@[i].1, raw.targets@));
        assert(tool_ok(raw.tools@[i].0@, raw.tools@[i].1, raw.targets@, env));
    }
    assert forall|i: int, j: int| 0 <= i < raw.tools@.len() && 0 <= j < raw.tools@.len()
        && (#[trigger] raw.tools@[i]).1.output.kind@ != (#[trigger] raw.tools@[j]).1.output.kind@
        implies c.tools@[i].1.output_kind != c.tools@[j].1.output_kind by {
        assert(tool_from(c.tools@[i].1, raw.tools@[i].0@, raw.tools@[i].1, raw.targets@));
        assert(tool_ok(raw.tools@[i].0@, raw.tools@[i].1, raw.targets@, env));
        assert(tool_from(c.tools@[j].1, raw.tools@[j].0@, raw.tools@[j].1, raw.targets@));
        assert(tool_ok(raw.tools@[j].0@, raw.tools@[j].1, raw.targets@, env));
    }
}

/// Adopts a configuration against the broker environment `environment`:
/// either every part of it is accepted and adopted, or nothing is.
pub fn validate_raw(raw: RawConfig, environment: &Vec<(String, String)>) -> (r: Result<ValidatedConfig, Diagnostic>)
    ensures
        r is Ok <==> config_ok(raw, environment@),
        r matches Ok(c) ==> config_from(c, raw, environment@),
        r matches Ok(c) ==> (raw_wf(raw) ==> config_wf(c)),
        r matches Err(d) ==> reports_problem(d, config_problem(raw, environment@)),
{
    let ghost orig = raw;
    let RawConfig { version, server, targets: raw_targets, tools: raw_tools } = raw;
    if version != 1 {
        return Err(Diagnostic::invalid("/version", "unsupported version"));
    }
    if !str_eq(server.transport.kind.as_str(), "stdio") {
        return Err(Diagnostic::invalid("/server/transport/kind", "only stdio is supported"));
    }
    if server.limits.request_bytes == 0 || server.limits.request_bytes > MAX_CONFIG_BYTES {
        return Err(Diagnostic::invalid("/server/limits/request_bytes", "must be 1..1048576"));
    }
    if server.limits.json_depth == 0 || server.limits.json_depth > MAX_JSON_DEPTH {
        return Err(Diagnostic::invalid("/server/limits/json_depth", "must be 1..32"));
    }
    if raw_tools.len() > MAX_TOOLS {
        return Err(Diagnostic::invalid("/tools", "too many tools"));
    }
    if server.name.as_str().is_empty() {
        return Err(Diagnostic::invalid("/server/name", "must not be empty"));
    }
    assert(header_ok(orig));
    let ghost ts = orig.targets@;
    let mut targets: Vec<(String, CliTarget)> = Vec::new();
    let mut upstream: Vec<(String, UpstreamMcpTarget)> = Vec::new();
    proof {
        assert(ts.take(0) =~= Seq::<(String, RawTarget)>::empty());
    }
    for entry in it: raw_targets.into_iter()
        invariant
            it.seq() == ts,
            raw == orig,
            orig.targets@ == ts,
            forall|j: int| 0 <= j < it.index() ==> target_ok((#[trigger] ts[j]).0@, ts[j].1, environment@),
            targets@.len() == entries_of_kind(ts.take(it.index()), "cli"@).len(),
            forall|i: int| 0 <= i < targets@.len() ==> {
                let e = entries_of_kind(ts.take(it.index()), "cli"@);
                (#[trigger] targets@[i]).0@ == e[i].0@ && cli_target_from(targets@[i].1, e[i].0@, e[i].1, environment@)
            },
            upstream@.len() == entries_of_kind(ts.take(it.index()), "mcp"@).len(),
            forall|i: int| 0 <= i < upstream@.len() ==> {
                let e = entries_of_kind(ts.take(it.index()), "mcp"@);
                (#[trigger] upstream@[i]).0@ == e[i].0@ && mcp_target_from(upstream@[i].1, e[i].0@, e[i].1, environment@)
            },
            header_ok(orig),
            config_problem(orig, environment@) == (match targets_problem(ts, environment@, it.index() as int) {
                Some(x) => Some(x),
                None => tools_problem(orig.tools@, ts, environment@, 0),
            }),
    {
        let ghost k = it.index();
        let ghost before_cli = entries_of_kind(ts.take(k), "cli"@);
        let ghost before_mcp = entries_of_kind(ts.take(k), "mcp"@);
        proof {
            lemma_kinds_differ();
            assert(ts.take(k + 1).drop_last() =~= ts.take(k));
            assert(ts.take(k + 1).last() == ts[k]);
        }
        let (id, target) = entry;
        match adopt_target(&id, target, environment) {
            Ok(AdoptedTarget::Cli(c)) => {
                targets.push((id, c));
                proof {
                    assert(entries_of_kind(ts.take(k + 1), "cli"@) == before_cli.push(ts[k]));
                    assert(entries_of_kind(ts.take(k + 1), "mcp"@) == before_mcp);
                }
            },
            Ok(AdoptedTarget::Mcp(u)) => {
                upstream.push((id, u));
                proof {
                    assert(entries_of_kind(ts.take(k + 1), "cli"@) == before_cli);
                    assert(entries_of_kind(ts.take(k + 1), "mcp"@) == before_mcp.push(ts[k]));
                }
            },
            Err(d) => {
                assert(!target_ok(ts[k].0@, ts[k].1, environment@));
                return Err(d);
            },
        }
    }
    proof {
        assert(ts.take(ts.len() as int) =~= ts);
        lemma_keys_match(targets@, entries_of_kind(ts, "cli"@));
        lemma_keys_match(upstream@, entries_of_kind(ts, "mcp"@));
    }
    let ghost tl = orig.tools@;
    assert(config_problem(orig, environment@) == tools_problem(tl, ts, environment@, 0));
    let mut tools: Vec<(String, CompiledTool)> = Vec::new();
    for entry in it: raw_tools.into_iter()
        invariant
            it.seq() == tl,
            raw == orig,
            orig.tools@ == tl,
            orig.targets@ == ts,
            forall|k: Seq<char>| has_key(targets@, k) == has_key(entries_of_kind(ts, "cli"@), k),
            forall|k: Seq<char>| has_key(upstream@, k) == has_key(entries_of_kind(ts, "mcp"@), k),
            forall|j: int| 0 <= j < it.index() ==> tool_ok((#[trigger] tl[j]).0@, tl[j].1, ts, environment@),
            tools@.len() == it.index(),
            forall|i: int| 0 <= i < it.index() ==> (#[trigger] tools@[i]).0@ == tl[i].0@ && tool_from(tools@[i].1, tl[i].0@, tl[i].1, ts),
            config_problem(orig, environment@) == tools_problem(tl, ts, environment@, it.index() as int),
    {
        let ghost k = it.index();
        let (name, tool) = entry;
        match adopt_tool(&name, tool, &targets, &upstream, environment, Ghost(ts)) {
            Ok(t) => {
                tools.push((name, t));
            },
            Err(d) => {
                assert(!tool_ok(tl[k].0@, tl[k].1, ts, environment@));
                return Err(d);
            },
        }
    }
    let server_environment = copy_entries(environment);
    let c = ValidatedConfig {
        server_name: server.name,
        request_bytes: server.limits.request_bytes,
        json_depth: server.limits.json_depth,
        targets,
        upstream_targets: upstream,
        tools,
        server_environment,
    };
    proof {
        if raw_wf(orig) {
            assert(config_ok(orig, environment@));
            law_adopted_config_ordered(c, orig, environment@);
        }
    }
    Ok(c)
}

/// Adopts configuration text of `byte_len` bytes, read as `raw`: text over
/// 1 MiB is refused before anything else.
pub fn parse_config(source: &str, byte_len: usize, raw: RawConfig, environment: &Vec<(String, String)>) -> (r: Result<ValidatedConfig, Diagnostic>)
    ensures
        r is Ok <==> byte_len <= MAX_CONFIG_BYTES && config_ok(raw, environment@),
        r matches Ok(c) ==> config_from(c, raw, environment@),
        r matches Ok(c) ==> (raw_wf(raw) ==> config_wf(c)),
        r matches Err(d) ==> if byte_len > MAX_CONFIG_BYTES {
            d.code == BrokerErrorCode::InvalidArguments && d.path@.len() == 0 && d.message@ == "configuration exceeds 1 MiB"@
        } else {
            reports_problem(d, config_problem(raw, environment@))
        },
{
    if byte_len > MAX_CONFIG_BYTES {
        proof {
            reveal_strlit("");
        }
        return Err(Diagnostic::invalid("", "configuration exceeds 1 MiB"));
    }
    validate_raw(raw, environment)
}


// ---------------------------------------------------------------------------
// A description of an environment that names variables but shows no value.

pub open spec fn quoted(n: Seq<char>) -> Seq<char> {
    seq!['"'] + n + seq!['"']
}

/// The quoted names separated by `, `.
pub open spec fn joined_names(names: Seq<Seq<char>>) -> Seq<char>
    decreases names.len(),
{
    if names.len() == 0 {
        Seq::empty()
    } else if names.len() == 1 {
        quoted(names[0])
    } else {
        joined_names(names.drop_last()) + seq![',', ' '] + quoted(names.last())
    }
}

pub open spec fn entry_names(es: Seq<(String, String)>) -> Seq<Seq<char>> {
    es.map_values(|e: (String, String)| e.0@)
}

/// The description of an environment: its inherited names, the names whose
/// values were captured, and the names of fixed values.
pub open spec fn environment_description(e: EnvironmentSpec) -> Seq<char> {
    "EnvironmentSpec { inherit: "@ + seq!['['] + joined_names(string_views(e.inherit@)) + seq![']']
        + ", inherited_names: "@ + seq!['['] + joined_names(entry_names(e.inherited_values@)) + seq![']']
        + ", set_names: "@ + seq!['['] + joined_names(entry_names(e.set@)) + seq![']'] + " }"@
}

fn push_names(out: &mut String, names: &Vec<String>)
    ensures
        final(out)@ == old(out)@ + seq!['['] + joined_names(string_views(names@)) + seq![']'],
{
    push_char(out, '[');
    let ghost start = out@;
    let mut i: usize = 0;
    while i < names.len()
        invariant
            i <= names@.len(),
            out@ == start + joined_names(string_views(names@.take(i as int))),
        decreases names@.len() - i,
    {
        let ghost prev = string_views(names@.take(i as int));
        if i > 0 {
            push_str(out, ", ");
        }
        push_char(out, '"');
        push_str(out, names[i].as_str());
        push_char(out, '"');
        proof {
            reveal_strlit(", ");
            let next = string_views(names@.take(i + 1));
            assert(next.drop_last() =~= prev);
            assert(next.last() == names@[i as int]@);
        }
        i += 1;
    }
    assert(names@.take(names@.len() as int) =~= names@);
    push_char(out, ']');
}

fn entry_keys(es: &Vec<(String, String)>) -> (r: Vec<String>)
    ensures
        string_views(r@) == entry_names(es@),
{
    let mut out: Vec<String> = Vec::new();
    let mut i: usize = 0;
    while i < es.len()
        invariant
            i <= es@.len(),
            string_views(out@) == entry_names(es@.take(i as int)),
        decreases es@.len() - i,
    {
        let ghost before = out@;
        out.push(es[i].0.clone());
        assert(string_views(out@) =~= string_views(before).push(es@[i as int].0@));
        assert(entry_names(es@.take(i + 1)) =~= entry_names(es@.take(i as int)).push(es@[i as int].0@));
        i += 1;
    }
    assert(es@.take(es@.len() as int) =~= es@);
    out
}

/// The name lists of `e` are in ascending order, each name once, as the
/// original maps' keys were.
pub open spec fn env_wf(e: EnvironmentSpec) -> bool {
    &&& strictly_sorted(string_views(e.inherit@))
    &&& strictly_sorted(entry_names(e.inherited_values@))
    &&& strictly_sorted(entry_names(e.set@))
}

/// Law: adoption makes every environment well formed from an accepted one
/// whose fixed values are in key order: the inherited names are sorted and
/// distinct, and so are the captured and the fixed ones.
pub proof fn law_adopted_environment_ordered(e: EnvironmentSpec, raw: RawEnvironment, current: Seq<(String, String)>)
    requires
        environment_ok(raw, current),
        environment_from(e, raw, current),
        keys_ordered(raw.set@),
    ensures
        env_wf(e),
{
    let names = string_views(e.inherit@);
    lemma_same_bag(names, string_views(raw.inherit@));
    assert forall|i: int, j: int| 0 <= i < j < names.len() implies seq_lt(#[trigger] names[i], #[trigger] names[j]) by {
        assert(!seq_lt(names[j], names[i]));
        assert(names[i] != names[j]);
        lemma_lt_total(names[i], names[j]);
    }
    assert(entry_names(e.inherited_values@) =~= names);
    assert(entry_names(e.set@) =~= key_views(raw.set@));
}

/// Law: the description of an environment depends only on which names it
/// inherits, captures and fixes, never on the values, for well-formed
/// environments (which adoption makes: see `law_adopted_environment_ordered`).
pub proof fn law_description_names_only(e1: EnvironmentSpec, e2: EnvironmentSpec)
    requires
        env_wf(e1),
        env_wf(e2),
        forall|n: Seq<char>| string_views(e1.inherit@).contains(n) <==> string_views(e2.inherit@).contains(n),
        forall|n: Seq<char>| entry_names(e1.inherited_values@).contains(n) <==> entry_names(e2.inherited_values@).contains(n),
        forall|n: Seq<char>| entry_names(e1.set@).contains(n) <==> entry_names(e2.set@).contains(n),
    ensures
        environment_description(e1) == environment_description(e2),
{
    lemma_strict_same_set(string_views(e1.inherit@), string_views(e2.inherit@));
    lemma_strict_same_set(entry_names(e1.inherited_values@), entry_names(e2.inherited_values@));
    lemma_strict_same_set(entry_names(e1.set@), entry_names(e2.set@));
}

impl EnvironmentSpec {
    /// Describes the environment by variable names only; no value appears.
    pub fn describe(&self) -> (r: String)
        ensures
            r@ == environment_description(*self),
    {
        let mut out = string_of("EnvironmentSpec { inherit: ");
        push_names(&mut out, &self.inherit);
        push_str(&mut out, ", inherited_names: ");
        let inherited = entry_keys(&self.inherited_values);
        push_names(&mut out, &inherited);
        push_str(&mut out, ", set_names: ");
        let set = entry_keys(&self.set);
        push_names(&mut out, &set);
        push_str(&mut out, " }");
        out
    }
}

} // verus!

verus! {

// ---------------------------------------------------------------------------
// A description of an adopted configuration that shows no environment value.

/// The description of an adopted configuration: the server name as written,
/// between quotes, the request limits, and the IDs of the targets and the
/// names of the tools that were adopted.
pub open spec fn config_description(c: ValidatedConfig) -> Seq<char> {
    "ValidatedConfig { server_name: "@ + quoted(c.server_name@)
        + ", request_bytes: "@ + decimal(c.request_bytes as nat)
        + ", json_depth: "@ + decimal(c.json_depth as nat)
        + ", target_ids: "@ + seq!['['] + joined_names(key_views(c.targets@)) + seq![']']
        + ", upstream_target_ids: "@ + seq!['['] + joined_names(key_views(c.upstream_targets@)) + seq![']']
        + ", tool_names: "@ + seq!['['] + joined_names(key_views(c.tools@)) + seq![']'] + " }"@
}

fn key_list<V>(es: &Vec<(String, V)>) -> (r: Vec<String>)
    ensures
        string_views(r@) == key_views(es@),
{
    let mut out: Vec<String> = Vec::new();
    let mut i: usize = 0;
    while i < es.len()
        invariant
            i <= es@.len(),
            string_views(out@) == key_views(es@.take(i as int)),
        decreases es@.len() - i,
    {
        let ghost before = out@;
        out.push(es[i].0.clone());
        assert(string_views(out@) =~= string_views(before).push(es@[i as int].0@));
        assert(key_views(es@.take(i + 1)) =~= key_views(es@.take(i as int)).push(es@[i as int].0@));
        i += 1;
    }
    assert(es@.take(es@.len() as int) =~= es@);
    out
}

impl ValidatedConfig {
    /// Describes the configuration by its server name, limits, target IDs and
    /// tool names; no value of the broker environment or of a target
    /// environment appears.
    pub fn describe(&self) -> (r: String)
        ensures
            r@ == config_description(*self),
    {
        let mut out = string_of("ValidatedConfig { server_name: ");
        push_char(&mut out, '"');
        push_str(&mut out, self.server_name.as_str());
        push_char(&mut out, '"');
        push_str(&mut out, ", request_bytes: ");
        let n = u64_to_decimal(self.request_bytes as u64);
        push_str(&mut out, n.as_str());
        push_str(&mut out, ", json_depth: ");
        let d = u64_to_decimal(self.json_depth as u64);
        push_str(&mut out, d.as_str());
        push_str(&mut out, ", target_ids: ");
        let targets = key_list(&self.targets);
        push_names(&mut out, &targets);
        push_str(&mut out, ", upstream_target_ids: ");
        let upstream = key_list(&self.upstream_targets);
        push_names(&mut out, &upstream);
        push_str(&mut out, ", tool_names: ");
        let tools = key_list(&self.tools);
        push_names(&mut out, &tools);
        push_str(&mut out, " }");
        assert(out@ =~= config_description(*self));
        out
    }
}

} // verus!
