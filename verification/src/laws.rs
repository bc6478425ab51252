//! What adoption guarantees about later calls: a valid input always binds,
//! and what a call does is fixed by the configuration.
use vstd::prelude::*;
use crate::binding::{mcp_binding_problem, part_problem, arguments_problem, CliBinding, McpBinding, RawMcpBinding, schema_at, schema_at_pointer_spec, cli_binding_ok, cli_binding_of, mcp_binding_ok, mcp_compiled_from, same_shape, lemma_shape_schema_at, is_scalar_kind, lemma_compiled_same_shape, lemma_shape_cli_binding, lemma_shape_mcp_binding, lemma_same_keys_find};
use crate::codes::Diagnostic;
use crate::config::{EnvironmentSpec, RawEnvironment, RawTarget, RawTool, environment_ok, environment_from, config_problem, targets_problem, tools_problem, target_problem, tool_problem, environment_problem, inherit_problem, ValidatedConfig, RawConfig, config_ok, config_from, tool_from, tool_ok, compiled_schema, entries_of_kind};
use crate::json::{canonical_of, JsonNumber, JsonValue, lookup, has_key, find_key, json_same, json_eq, lemma_same_eq, lemma_find_iff_has};
use crate::numeric::num_scaled;
use crate::resolve::{arguments_resolvable, arguments_build_problem, build_problem, build_part_problem, lemma_build_problem_iff, mcp_resolved, value_at_tokens, value_at_pointer, arg_text, args_of_items, argv_of, cli_resolution, mcp_resolution, mcp_resolvable, ResolvedCliInvocation, ResolvedMcpInvocation};
use crate::schema::{CompiledSchema, SchemaKind, compiled_from, value_compatible, str_is, bound_of};
use crate::text::{decode_pointer, string_views};
use crate::validate::{enum_admits, first_issue, kind_issue, required_issue, unknown_issue, property_issue, item_issue, array_size_issue, child_path, index_path};

verus! {

// ---------------------------------------------------------------------------
// Well-formed compiled schemas.

/// Every object node requires exactly its properties, in property order; only
/// object nodes have properties.
pub open spec fn schema_wf(s: CompiledSchema) -> bool
    decreases s,
{
    &&& s.required@.len() == s.properties@.len()
    &&& s.kind != SchemaKind::Object ==> s.properties@.len() == 0
    &&& forall|j: int| 0 <= j < s.properties@.len() ==> s.required@[j]@ == (#[trigger] s.properties@[j]).0@
        && schema_wf(s.properties@[j].1)
    &&& match s.items {
        Some(b) => schema_wf(*b),
        None => true,
    }
}

/// A compiled schema is well formed.
pub proof fn lemma_compiled_wf(c: CompiledSchema, v: JsonValue)
    requires
        compiled_from(c, v),
    ensures
        schema_wf(c),
    decreases v,
{
    match v {
        JsonValue::Object(entries) => {
            let o = entries@;
            if c.kind == SchemaKind::Object {
                let pi = find_key(o, "properties"@)->0;
                match o[pi].1 {
                    JsonValue::Object(props) => {
                        assert forall|j: int| 0 <= j < c.properties@.len() implies c.required@[j]@ == (#[trigger] c.properties@[j]).0@
                            && schema_wf(c.properties@[j].1) by {
                            assert(decreases_to!(v => entries));
                            assert(decreases_to!(entries => o));
                            assert(decreases_to!(o => o[pi]));
                            assert(decreases_to!(o[pi] => o[pi].1));
                            assert(decreases_to!(o[pi].1 => props));
                            assert(decreases_to!(props => props@));
                            assert(decreases_to!(props@ => props@[j]));
                            assert(decreases_to!(props@[j] => props@[j].1));
                            lemma_compiled_wf(c.properties@[j].1, props@[j].1);
                        }
                    },
                    _ => {},
                }
            }
            if c.kind == SchemaKind::Array {
                let ii = find_key(o, "items"@)->0;
                assert(decreases_to!(v => entries));
                assert(decreases_to!(entries => o));
                assert(decreases_to!(o => o[ii]));
                assert(decreases_to!(o[ii] => o[ii].1));
                lemma_compiled_wf(*c.items->0, o[ii].1);
            }
        },
        _ => {},
    }
}

// ---------------------------------------------------------------------------
// What a valid input holds.

proof fn lemma_required_present(s: CompiledSchema, obj: Seq<(String, JsonValue)>, p: Seq<char>, i: int)
    requires
        0 <= i,
        required_issue(s, obj, p, i) is None,
    ensures
        forall|j: int| i <= j < s.required@.len() ==> has_key(obj, (#[trigger] s.required@[j])@),
    decreases s.required@.len() - i,
{
    if i < s.required@.len() {
        lemma_required_present(s, obj, p, i + 1);
    }
}

proof fn lemma_properties_valid(s: CompiledSchema, obj: Seq<(String, JsonValue)>, p: Seq<char>, i: int)
    requires
        0 <= i,
        property_issue(s, obj, p, i) is None,
    ensures
        forall|j: int| i <= j < s.properties@.len() ==> match lookup(obj, (#[trigger] s.properties@[j]).0@) {
            Some(child) => first_issue(s.properties@[j].1, child, child_path(p, s.properties@[j].0@)) is None,
            None => true,
        },
    decreases s.properties@.len() - i,
{
    if i < s.properties@.len() {
        lemma_properties_valid(s, obj, p, i + 1);
    }
}

proof fn lemma_items_valid(s: CompiledSchema, arr: Seq<JsonValue>, p: Seq<char>, i: int)
    requires
        0 <= i,
        s.items is Some,
        item_issue(s, arr, p, i) is None,
    ensures
        forall|j: int| i <= j < arr.len() ==> first_issue(*s.items->0, #[trigger] arr[j], index_path(p, j)) is None,
    decreases arr.len() - i,
{
    if i < arr.len() {
        lemma_items_valid(s, arr, p, i + 1);
    }
}

/// A valid input holds a valid value wherever the schema has a node: the
/// returned path is where that value was validated.
pub proof fn lemma_valid_at(s: CompiledSchema, v: JsonValue, p: Seq<char>, tokens: Seq<Seq<char>>) -> (q: Seq<char>)
    requires
        schema_wf(s),
        first_issue(s, v, p) is None,
        schema_at(s, tokens) is Some,
    ensures
        value_at_tokens(v, tokens) is Some,
        first_issue(schema_at(s, tokens)->0, value_at_tokens(v, tokens)->0, q) is None,
    decreases tokens.len(),
{
    if tokens.len() == 0 {
        p
    } else {
        let t0 = tokens[0];
        let k = find_key(s.properties@, t0)->0;
        let c = s.properties@[k].1;
        assert(s.properties@[k].0@ == t0);
        assert(s.kind == SchemaKind::Object);
        let es = v->Object_0;
        assert(kind_issue(s, v, p) is None);
        assert(required_issue(s, es@, p, 0) is None);
        lemma_required_present(s, es@, p, 0);
        assert(s.required@[k]@ == t0);
        assert(has_key(es@, t0));
        lemma_find_iff_has(es@, t0);
        let child = lookup(es@, t0)->0;
        assert(property_issue(s, es@, p, 0) is None);
        lemma_properties_valid(s, es@, p, 0);
        assert(first_issue(c, child, child_path(p, t0)) is None);
        lemma_valid_at(c, child, child_path(p, t0), tokens.drop_first())
    }
}

/// A valid input holds a string or number wherever a command-line binding
/// points.
pub open spec fn binding_present(b: CliBinding, input: JsonValue) -> bool {
    match b {
        CliBinding::Literal(_) => true,
        CliBinding::Input(p) => match value_at_pointer(input, p@) {
            Some(v) => arg_text(v) is Some,
            None => false,
        },
        CliBinding::Each(p) => match value_at_pointer(input, p@) {
            Some(JsonValue::Array(items)) => forall|i: int| 0 <= i < items@.len() ==> arg_text(#[trigger] items@[i]) is Some,
            _ => false,
        },
    }
}

proof fn lemma_scalar_text(k: SchemaKind, v: JsonValue)
    requires
        is_scalar_kind(k),
        value_compatible(k, v),
    ensures
        arg_text(v) is Some,
{
}

/// An accepted command-line binding finds its value in every valid input.
pub proof fn lemma_cli_binding_present(s: CompiledSchema, b: CliBinding, written: JsonValue, input: JsonValue)
    requires
        schema_wf(s),
        cli_binding_ok(written, s),
        cli_binding_of(b, written),
        first_issue(s, input, Seq::empty()) is None,
    ensures
        binding_present(b, input),
{
    match b {
        CliBinding::Literal(_) => {},
        CliBinding::Input(p) => {
            let tokens = decode_pointer(p@)->0;
            let q = lemma_valid_at(s, input, Seq::empty(), tokens);
            let t = schema_at(s, tokens)->0;
            let x = value_at_tokens(input, tokens)->0;
            lemma_scalar_text(t.kind, x);
        },
        CliBinding::Each(p) => {
            let tokens = decode_pointer(p@)->0;
            let q = lemma_valid_at(s, input, Seq::empty(), tokens);
            let t = schema_at(s, tokens)->0;
            let x = value_at_tokens(input, tokens)->0;
            let arr = x->Array_0;
            assert(kind_issue(t, x, q) is None);
            assert(array_size_issue(t, arr@, q) is None);
            lemma_items_valid(t, arr@, q, 0);
            let it = *t.items->0;
            assert forall|i: int| 0 <= i < arr@.len() implies arg_text(#[trigger] arr@[i]) is Some by {
                assert(first_issue(it, arr@[i], index_path(q, i)) is None);
                lemma_scalar_text(it.kind, arr@[i]);
            }
        },
    }
}


/// An accepted upstream argument binding can be built from every valid input
/// and the environment it was accepted against.
pub proof fn lemma_mcp_binding_resolvable(s: CompiledSchema, b: McpBinding, raw: RawMcpBinding, env: Seq<(String, String)>, depth: nat, input: JsonValue)
    requires
        schema_wf(s),
        mcp_binding_ok(raw, s, env, depth),
        mcp_compiled_from(b, raw),
        first_issue(s, input, Seq::empty()) is None,
    ensures
        mcp_resolvable(b, input, env),
    decreases raw,
{
    match raw {
        RawMcpBinding::Input(p) => {
            let tokens = decode_pointer(p@)->0;
            let q = lemma_valid_at(s, input, Seq::empty(), tokens);
        },
        RawMcpBinding::Object(es) => {
            let fs = b->Object_0;
            assert forall|i: int| 0 <= i < fs@.len() implies mcp_resolvable((#[trigger] fs@[i]).1, input, env) by {
                assert(decreases_to!(raw => es));
                assert(decreases_to!(es => es@));
                assert(decreases_to!(es@ => es@[i]));
                assert(decreases_to!(es@[i] => es@[i].1));
                assert(mcp_compiled_from(fs@[i].1, es@[i].1));
                lemma_mcp_binding_resolvable(s, fs@[i].1, es@[i].1, env, depth + 1, input);
            }
        },
        RawMcpBinding::Array(xs) => {
            let ys = b->Array_0;
            assert forall|i: int| 0 <= i < ys@.len() implies mcp_resolvable(#[trigger] ys@[i], input, env) by {
                assert(decreases_to!(raw => xs));
                assert(decreases_to!(xs => xs@));
                assert(decreases_to!(xs@ => xs@[i]));
                assert(mcp_compiled_from(ys@[i], xs@[i]));
                lemma_mcp_binding_resolvable(s, ys@[i], xs@[i], env, depth + 1, input);
            }
        },
        _ => {},
    }
}

/// No value that a command-line binding takes from `input` renders with a NUL
/// character.
pub open spec fn binding_nul_free(b: CliBinding, input: JsonValue) -> bool {
    match b {
        CliBinding::Literal(_) => true,
        CliBinding::Input(p) => match value_at_pointer(input, p@) {
            Some(v) => text_nul_free(v),
            None => true,
        },
        CliBinding::Each(p) => match value_at_pointer(input, p@) {
            Some(JsonValue::Array(items)) => forall|i: int| 0 <= i < items@.len() ==> text_nul_free(#[trigger] items@[i]),
            _ => true,
        },
    }
}

pub open spec fn text_nul_free(v: JsonValue) -> bool {
    match arg_text(v) {
        Some(t) => !t.contains('\0'),
        None => true,
    }
}

proof fn lemma_items_args(items: Seq<JsonValue>)
    requires
        forall|i: int| 0 <= i < items.len() ==> arg_text(#[trigger] items[i]) is Some && text_nul_free(items[i]),
    ensures
        args_of_items(items) is Some,
    decreases items.len(),
{
    if items.len() > 0 {
        let rest = items.drop_last();
        assert forall|i: int| 0 <= i < rest.len() implies arg_text(#[trigger] rest[i]) is Some && text_nul_free(rest[i]) by {
            assert(rest[i] == items[i]);
        }
        lemma_items_args(rest);
        assert(arg_text(items[items.len() - 1]) is Some);
    }
}

proof fn lemma_argv_some(bs: Seq<CliBinding>, input: JsonValue)
    requires
        forall|j: int| 0 <= j < bs.len() ==> binding_present(#[trigger] bs[j], input) && binding_nul_free(bs[j], input),
    ensures
        argv_of(bs, input) is Some,
    decreases bs.len(),
{
    if bs.len() > 0 {
        let rest = bs.drop_last();
        assert forall|j: int| 0 <= j < rest.len() implies binding_present(#[trigger] rest[j], input) && binding_nul_free(rest[j], input) by {
            assert(rest[j] == bs[j]);
        }
        lemma_argv_some(rest, input);
        let last = bs[bs.len() - 1];
        assert(binding_present(last, input) && binding_nul_free(last, input));
        match last {
            CliBinding::Each(p) => {
                let items = value_at_pointer(input, p@)->0->Array_0;
                lemma_items_args(items@);
            },
            _ => {},
        }
    }
}

/// The adopted tool `tool` was adopted from an accepted entry of `raw`, at
/// position `k`.
proof fn lemma_adopted_tool(config: ValidatedConfig, raw: RawConfig, env: Seq<(String, String)>, name: Seq<char>) -> (k: int)
    requires
        config_ok(raw, env),
        config_from(config, raw, env),
        lookup(config.tools@, name) is Some,
    ensures
        0 <= k < raw.tools@.len(),
        lookup(config.tools@, name) == Some(config.tools@[k].1),
        tool_from(config.tools@[k].1, raw.tools@[k].0@, raw.tools@[k].1, raw.targets@),
        tool_ok(raw.tools@[k].0@, raw.tools@[k].1, raw.targets@, env),
        schema_wf(config.tools@[k].1.schema),
        same_shape(compiled_schema(raw.tools@[k].1.input_schema), config.tools@[k].1.schema),
{
    let k = find_key(config.tools@, name)->0;
    assert(config.tools@[k].0@ == raw.tools@[k].0@);
    assert(tool_from(config.tools@[k].1, raw.tools@[k].0@, raw.tools@[k].1, raw.targets@));
    assert(tool_ok(raw.tools@[k].0@, raw.tools@[k].1, raw.targets@, env));
    let v = raw.tools@[k].1.input_schema;
    let t = config.tools@[k].1;
    assert(compiled_from(t.schema, v));
    assert(compiled_from(compiled_schema(v), v));
    lemma_compiled_same_shape(compiled_schema(v), t.schema, v);
    lemma_compiled_wf(t.schema, v);
    k
}

/// Law: on an adopted configuration, a call of a tool that runs a command-line
/// target resolves for every input that passes validation, unless a value the
/// command line takes from it renders with a NUL character.
pub proof fn law_valid_cli_input_resolves(config: ValidatedConfig, raw: RawConfig, env: Seq<(String, String)>, name: Seq<char>, input: JsonValue)
    requires
        config_ok(raw, env),
        config_from(config, raw, env),
        lookup(config.tools@, name) is Some,
        first_issue(lookup(config.tools@, name)->0.schema, input, Seq::empty()) is None,
        lookup(config.targets@, lookup(config.tools@, name)->0.target@) is Some,
        forall|j: int| 0 <= j < lookup(config.tools@, name)->0.argv@.len()
            ==> binding_nul_free(#[trigger] lookup(config.tools@, name)->0.argv@[j], input),
    ensures
        forall|r: Result<ResolvedCliInvocation, Diagnostic>| #[trigger] cli_resolution(config, name, input, r) ==> r is Ok,
{
    let k = lemma_adopted_tool(config, raw, env, name);
    let tool = config.tools@[k].1;
    let rt = raw.tools@[k].1;
    let cs = compiled_schema(rt.input_schema);
    assert forall|j: int| 0 <= j < tool.argv@.len() implies binding_present(#[trigger] tool.argv@[j], input)
        && binding_nul_free(tool.argv@[j], input) by {
        let c = rt.invoke.cli->0;
        assert(cli_binding_of(tool.argv@[j], c.argv@[j]));
        assert(cli_binding_ok(c.argv@[j], cs));
        lemma_shape_cli_binding(cs, tool.schema, c.argv@[j]);
        lemma_cli_binding_present(tool.schema, tool.argv@[j], c.argv@[j], input);
    }
    lemma_argv_some(tool.argv@, input);
}

/// Law: on an adopted configuration, a call of a tool that calls an upstream
/// MCP tool resolves for every input that passes validation.
pub proof fn law_valid_mcp_input_resolves(config: ValidatedConfig, raw: RawConfig, env: Seq<(String, String)>, name: Seq<char>, input: JsonValue)
    requires
        config_ok(raw, env),
        config_from(config, raw, env),
        lookup(config.tools@, name) is Some,
        lookup(config.tools@, name)->0.mcp is Some,
        first_issue(lookup(config.tools@, name)->0.schema, input, Seq::empty()) is None,
    ensures
        forall|r: Result<ResolvedMcpInvocation, Diagnostic>| #[trigger] mcp_resolution(config, name, input, r) ==> r is Ok,
{
    let k = lemma_adopted_tool(config, raw, env, name);
    let tool = config.tools@[k].1;
    let rt = raw.tools@[k].1;
    let cs = compiled_schema(rt.input_schema);
    let m = rt.invoke.mcp->0;
    let invoke = tool.mcp->0;
    let mcp_entries = entries_of_kind(raw.targets@, "mcp"@);
    assert(has_key(mcp_entries, tool.target@));
    assert forall|i: int| 0 <= i < config.upstream_targets@.len() implies (#[trigger] config.upstream_targets@[i]).0@ == mcp_entries[i].0@ by {
    }
    lemma_same_keys_find(config.upstream_targets@, mcp_entries, tool.target@);
    lemma_find_iff_has(config.upstream_targets@, tool.target@);
    lemma_find_iff_has(mcp_entries, tool.target@);
    assert forall|i: int| 0 <= i < invoke.arguments@.len() implies mcp_resolvable((#[trigger] invoke.arguments@[i]).1, input, config.server_environment@) by {
        assert(invoke.arguments@[i].0@ == m.arguments@[i].0@ && mcp_compiled_from(invoke.arguments@[i].1, m.arguments@[i].1));
        assert(mcp_binding_ok(m.arguments@[i].1, cs, env, 1));
        lemma_shape_mcp_binding(cs, tool.schema, m.arguments@[i].1, env, 1);
        lemma_mcp_binding_resolvable(tool.schema, invoke.arguments@[i].1, m.arguments@[i].1, env, 1, input);
    }
}


proof fn lemma_known_entries(s: CompiledSchema, obj: Seq<(String, JsonValue)>, p: Seq<char>, i: int)
    requires
        0 <= i,
        unknown_issue(s, obj, p, i) is None,
    ensures
        forall|j: int| i <= j < obj.len() ==> has_key(s.properties@, (#[trigger] obj[j]).0@),
    decreases obj.len() - i,
{
    if i < obj.len() {
        lemma_known_entries(s, obj, p, i + 1);
    }
}

/// Law: an object input with a property that its object schema does not
/// declare never passes validation.
pub proof fn law_unknown_property_rejected(s: CompiledSchema, input: JsonValue, p: Seq<char>, i: int)
    requires
        s.kind == SchemaKind::Object,
        input is Object,
        0 <= i < input->Object_0@.len(),
        !has_key(s.properties@, input->Object_0@[i].0@),
    ensures
        first_issue(s, input, p) is Some,
{
    let es = input->Object_0;
    if value_compatible(s.kind, input) && enum_admits(s, input) {
        if required_issue(s, es@, p, 0) is None {
            if unknown_issue(s, es@, p, 0) is None {
                lemma_known_entries(s, es@, p, 0);
                assert(has_key(s.properties@, es@[i].0@));
            }
        }
    }
}

/// Law: what a command-line call runs, where, with which environment and
/// limits, is the same for every input it accepts.
pub proof fn law_cli_context_fixed(config: ValidatedConfig, name: Seq<char>, a: JsonValue, b: JsonValue, ra: Result<ResolvedCliInvocation, Diagnostic>, rb: Result<ResolvedCliInvocation, Diagnostic>)
    requires
        cli_resolution(config, name, a, ra),
        cli_resolution(config, name, b, rb),
        ra is Ok,
        rb is Ok,
    ensures
        ({
            let x = ra->Ok_0;
            let y = rb->Ok_0;
            &&& x.target_id@ == y.target_id@
            &&& x.executable@ == y.executable@
            &&& x.cwd@ == y.cwd@
            &&& x.environment.inherit@ == y.environment.inherit@
            &&& x.environment.inherited_values@ == y.environment.inherited_values@
            &&& x.environment.set@ == y.environment.set@
            &&& x.limits == y.limits
            &&& x.output_kind == y.output_kind
        }),
{
}

/// Law: resolving the same call twice on the same configuration gives the
/// same outcome: both succeed with the same command line or both fail with
/// the same code.
pub proof fn law_cli_resolution_deterministic(config: ValidatedConfig, name: Seq<char>, input: JsonValue, ra: Result<ResolvedCliInvocation, Diagnostic>, rb: Result<ResolvedCliInvocation, Diagnostic>)
    requires
        cli_resolution(config, name, input, ra),
        cli_resolution(config, name, input, rb),
    ensures
        ra is Ok <==> rb is Ok,
        ra matches Err(d) ==> rb matches Err(e) && d.code == e.code,
        ra matches Ok(x) ==> rb matches Ok(y) && string_views(x.argv@) == string_views(y.argv@)
            && x.target_id@ == y.target_id@ && x.executable@ == y.executable@ && x.cwd@ == y.cwd@
            && x.limits == y.limits && x.output_kind == y.output_kind,
{
}

/// Law: the upstream process, the upstream tool, and every literal and
/// environment-bound top-level argument of an MCP call are the same for every
/// input the call accepts.
pub proof fn law_mcp_context_fixed(config: ValidatedConfig, name: Seq<char>, a: JsonValue, b: JsonValue, ra: Result<ResolvedMcpInvocation, Diagnostic>, rb: Result<ResolvedMcpInvocation, Diagnostic>)
    requires
        mcp_resolution(config, name, a, ra),
        mcp_resolution(config, name, b, rb),
        ra is Ok,
        rb is Ok,
    ensures
        ({
            let x = ra->Ok_0;
            let y = rb->Ok_0;
            let invoke = lookup(config.tools@, name)->0.mcp->0;
            &&& x.target_id@ == y.target_id@
            &&& x.command@ == y.command@
            &&& x.args@ == y.args@
            &&& x.cwd@ == y.cwd@
            &&& x.environment.inherit@ == y.environment.inherit@
            &&& x.environment.inherited_values@ == y.environment.inherited_values@
            &&& x.environment.set@ == y.environment.set@
            &&& x.upstream_tool@ == y.upstream_tool@
            &&& x.limits == y.limits
            &&& x.output_kind == y.output_kind
            &&& forall|i: int| 0 <= i < invoke.arguments@.len() ==> match (#[trigger] invoke.arguments@[i]).1 {
                McpBinding::Literal(v) => json_same(v, x.arguments->Object_0@[i].1) && json_same(v, y.arguments->Object_0@[i].1),
                McpBinding::Environment(n) => match lookup(config.server_environment@, n@) {
                    Some(value) => str_is(x.arguments->Object_0@[i].1, value@) && str_is(y.arguments->Object_0@[i].1, value@),
                    None => false,
                },
                _ => true,
            }
        }),
{
    let x = ra->Ok_0;
    let y = rb->Ok_0;
    let invoke = lookup(config.tools@, name)->0.mcp->0;
    assert forall|i: int| 0 <= i < invoke.arguments@.len() implies match (#[trigger] invoke.arguments@[i]).1 {
        McpBinding::Literal(v) => json_same(v, x.arguments->Object_0@[i].1) && json_same(v, y.arguments->Object_0@[i].1),
        McpBinding::Environment(n) => match lookup(config.server_environment@, n@) {
            Some(value) => str_is(x.arguments->Object_0@[i].1, value@) && str_is(y.arguments->Object_0@[i].1, value@),
            None => false,
        },
        _ => true,
    } by {
        assert(mcp_resolved(x.arguments->Object_0@[i].1, invoke.arguments@[i].1, a, config.server_environment@));
        assert(mcp_resolved(y.arguments->Object_0@[i].1, invoke.arguments@[i].1, b, config.server_environment@));
    }
}

// ---------------------------------------------------------------------------
// Target environments.

/// The names of the variables a target process is given: the inherited ones
/// and the fixed ones.
pub open spec fn child_env_names(e: EnvironmentSpec) -> Set<Seq<char>> {
    Set::new(|n: Seq<char>| has_key(e.inherited_values@, n) || has_key(e.set@, n))
}

/// The names an environment configuration inherits or fixes.
pub open spec fn configured_env_names(raw: RawEnvironment) -> Set<Seq<char>> {
    Set::new(|n: Seq<char>| string_views(raw.inherit@).contains(n) || has_key(raw.set@, n))
}

/// Law: a target process is given exactly the variables that its environment
/// configuration inherits or fixes, and no inherited variable is also fixed.
pub proof fn law_environment_names(e: EnvironmentSpec, raw: RawEnvironment, current: Seq<(String, String)>)
    requires
        environment_ok(raw, current),
        environment_from(e, raw, current),
    ensures
        child_env_names(e) == configured_env_names(raw),
        forall|i: int, j: int| 0 <= i < e.inherited_values@.len() && 0 <= j < e.set@.len()
            ==> (#[trigger] e.inherited_values@[i]).0@ != (#[trigger] e.set@[j]).0@,
{
    let kept = string_views(e.inherit@);
    let written = string_views(raw.inherit@);
    assert forall|n: Seq<char>| kept.contains(n) <==> written.contains(n) by {
        vstd::seq_lib::to_multiset_contains(kept, n);
        vstd::seq_lib::to_multiset_contains(written, n);
    }
    assert forall|n: Seq<char>| has_key(e.inherited_values@, n) <==> written.contains(n) by {
        if has_key(e.inherited_values@, n) {
            let i = choose|i: int| 0 <= i < e.inherited_values@.len() && (#[trigger] e.inherited_values@[i]).0@ == n;
            assert(kept[i] == n);
        }
        if written.contains(n) {
            let k = choose|k: int| 0 <= k < kept.len() && kept[k] == n;
            assert(e.inherited_values@[k].0@ == n);
        }
    }
    assert(child_env_names(e) =~= configured_env_names(raw));
    assert forall|i: int, j: int| 0 <= i < e.inherited_values@.len() && 0 <= j < e.set@.len()
        implies (#[trigger] e.inherited_values@[i]).0@ != (#[trigger] e.set@[j]).0@ by {
        let n = e.inherited_values@[i].0@;
        assert(kept[i] == n);
        assert(kept.contains(n));
        assert(written.contains(n));
        let k = choose|k: int| 0 <= k < written.len() && written[k] == n;
        assert(raw.inherit@[k]@ == n);
        if e.set@[j].0@ == n {
            assert(has_key(raw.set@, n));
        }
    }
}

// ---------------------------------------------------------------------------
// Refusals do not depend on the values of the broker environment.

/// `a` and `b` hold the same variable names.
pub open spec fn same_names(a: Seq<(String, String)>, b: Seq<(String, String)>) -> bool {
    forall|n: Seq<char>| has_key(a, n) == has_key(b, n)
}

proof fn lemma_inherit_names(sorted: Seq<Seq<char>>, set: Seq<(String, String)>, a: Seq<(String, String)>, b: Seq<(String, String)>, i: int)
    requires
        same_names(a, b),
    ensures
        inherit_problem(sorted, set, a, i) == inherit_problem(sorted, set, b, i),
    decreases sorted.len() - i,
{
    if 0 <= i < sorted.len() {
        assert(has_key(a, sorted[i]) == has_key(b, sorted[i]));
        lemma_inherit_names(sorted, set, a, b, i + 1);
    }
}

proof fn lemma_target_names(id: Seq<char>, t: RawTarget, a: Seq<(String, String)>, b: Seq<(String, String)>)
    requires
        same_names(a, b),
    ensures
        target_problem(id, t, a) == target_problem(id, t, b),
{
    let e = t.environment;
    lemma_inherit_names(crate::order::sorted_view(crate::text::string_views(e.inherit@)), e.set@, a, b, 0);
    assert(environment_problem(e, a) == environment_problem(e, b));
    if let Some(tr) = t.transport {
        let f = tr.environment;
        lemma_inherit_names(crate::order::sorted_view(crate::text::string_views(f.inherit@)), f.set@, a, b, 0);
        assert(environment_problem(f, a) == environment_problem(f, b));
    }
}

proof fn lemma_targets_names(ts: Seq<(String, RawTarget)>, a: Seq<(String, String)>, b: Seq<(String, String)>, i: int)
    requires
        same_names(a, b),
    ensures
        targets_problem(ts, a, i) == targets_problem(ts, b, i),
    decreases ts.len() - i,
{
    if 0 <= i < ts.len() {
        lemma_target_names(ts[i].0@, ts[i].1, a, b);
        lemma_targets_names(ts, a, b, i + 1);
    }
}

proof fn lemma_binding_names(raw: RawMcpBinding, s: CompiledSchema, a: Seq<(String, String)>, b: Seq<(String, String)>, depth: nat, p: Seq<char>)
    requires
        same_names(a, b),
    ensures
        mcp_binding_problem(raw, s, a, depth, p) == mcp_binding_problem(raw, s, b, depth, p),
    decreases raw, 1int, 0int,
{
    match raw {
        RawMcpBinding::Environment(n) => {
            assert(has_key(a, n@) == has_key(b, n@));
        },
        RawMcpBinding::Object(_) => lemma_part_names(raw, s, a, b, depth, p, 0),
        RawMcpBinding::Array(_) => lemma_part_names(raw, s, a, b, depth, p, 0),
        _ => {},
    }
}

proof fn lemma_part_names(raw: RawMcpBinding, s: CompiledSchema, a: Seq<(String, String)>, b: Seq<(String, String)>, depth: nat, p: Seq<char>, i: int)
    requires
        same_names(a, b),
    ensures
        part_problem(raw, s, a, depth, p, i) == part_problem(raw, s, b, depth, p, i),
    decreases raw, 0int, (match raw {
        RawMcpBinding::Object(es) => es@.len() as int,
        RawMcpBinding::Array(xs) => xs@.len() as int,
        _ => 0,
    }) - i,
{
    match raw {
        RawMcpBinding::Object(es) => if 0 <= i < es@.len() {
            assert(decreases_to!(raw => es));
            assert(decreases_to!(es => es@));
            assert(decreases_to!(es@ => es@[i]));
            assert(decreases_to!(es@[i] => es@[i].1));
            lemma_binding_names(es@[i].1, s, a, b, depth + 1, child_path(p, es@[i].0@));
            lemma_part_names(raw, s, a, b, depth, p, i + 1);
        },
        RawMcpBinding::Array(xs) => if 0 <= i < xs@.len() {
            assert(decreases_to!(raw => xs));
            assert(decreases_to!(xs => xs@));
            assert(decreases_to!(xs@ => xs@[i]));
            lemma_binding_names(xs@[i], s, a, b, depth + 1, index_path(p, i));
            lemma_part_names(raw, s, a, b, depth, p, i + 1);
        },
        _ => {},
    }
}

proof fn lemma_arguments_names(values: Seq<(String, RawMcpBinding)>, s: CompiledSchema, a: Seq<(String, String)>, b: Seq<(String, String)>, p: Seq<char>, i: int)
    requires
        same_names(a, b),
    ensures
        arguments_problem(values, s, a, p, i) == arguments_problem(values, s, b, p, i),
    decreases values.len() - i,
{
    if 0 <= i < values.len() {
        lemma_binding_names(values[i].1, s, a, b, 1, child_path(p, values[i].0@));
        lemma_arguments_names(values, s, a, b, p, i + 1);
    }
}

proof fn lemma_tools_names(tl: Seq<(String, RawTool)>, ts: Seq<(String, RawTarget)>, a: Seq<(String, String)>, b: Seq<(String, String)>, i: int)
    requires
        same_names(a, b),
    ensures
        tools_problem(tl, ts, a, i) == tools_problem(tl, ts, b, i),
    decreases tl.len() - i,
{
    if 0 <= i < tl.len() {
        let tool = tl[i].1;
        if let Some(m) = tool.invoke.mcp {
            let base = "/tools"@ + seq!['/'] + tl[i].0@;
            lemma_arguments_names(m.arguments@, compiled_schema(tool.input_schema), a, b, base + seq!['/'] + "invoke/mcp/arguments"@, 0);
        }
        assert(tool_problem(tl[i].0@, tool, ts, a) == tool_problem(tl[i].0@, tool, ts, b));
        lemma_tools_names(tl, ts, a, b, i + 1);
    }
}

/// Law: why a configuration is refused, and where, depends on the names the
/// broker environment holds and never on their values.
pub proof fn law_refusal_ignores_environment_values(raw: RawConfig, a: Seq<(String, String)>, b: Seq<(String, String)>)
    requires
        same_names(a, b),
    ensures
        config_problem(raw, a) == config_problem(raw, b),
{
    lemma_targets_names(raw.targets@, a, b, 0);
    lemma_tools_names(raw.tools@, raw.targets@, a, b, 0);
}

// ---------------------------------------------------------------------------
// Canonical form.

/// Law: canonicalizing a canonical value changes nothing: the canonical form
/// of the canonical form of `v` is the same value as the canonical form of
/// `v`.
pub proof fn law_canonical_idempotent(v: JsonValue, a: JsonValue, b: JsonValue)
    requires
        canonical_of(a, v),
        canonical_of(b, a),
    ensures
        json_same(a, b),
    decreases v,
{
    match v {
        JsonValue::Number(n) => {
            if crate::numeric::num_scaled(n) == 0 {
                assert(crate::numeric::num_scaled(JsonNumber::PosInt(0)) == 0);
            } else {
                let m = a->Number_0;
                assert(crate::numeric::num_scaled(m) == crate::numeric::num_scaled(n));
            }
        },
        JsonValue::Array(xs) => {
            let ys = a->Array_0;
            let zs = b->Array_0;
            assert forall|i: int| 0 <= i < ys@.len() implies json_same(#[trigger] ys@[i], zs@[i]) by {
                assert(decreases_to!(v => xs));
                assert(decreases_to!(xs => xs@));
                assert(decreases_to!(xs@ => xs@[i]));
                assert(canonical_of(ys@[i], xs@[i]));
                assert(canonical_of(zs@[i], ys@[i]));
                law_canonical_idempotent(xs@[i], ys@[i], zs@[i]);
            }
        },
        JsonValue::Object(xs) => {
            let ys = a->Object_0;
            let zs = b->Object_0;
            assert forall|i: int| 0 <= i < ys@.len() implies (#[trigger] ys@[i]).0@ == zs@[i].0@ && json_same(ys@[i].1, zs@[i].1) by {
                assert(decreases_to!(v => xs));
                assert(decreases_to!(xs => xs@));
                assert(decreases_to!(xs@ => xs@[i]));
                assert(decreases_to!(xs@[i] => xs@[i].1));
                assert(canonical_of(ys@[i].1, xs@[i].1));
                assert(canonical_of(zs@[i].1, ys@[i].1));
                law_canonical_idempotent(xs@[i].1, ys@[i].1, zs@[i].1);
            }
        },
        _ => {},
    }
}

// ---------------------------------------------------------------------------
// Refused calls do not depend on the values of the broker environment.

proof fn lemma_build_names(m: McpBinding, input: JsonValue, a: Seq<(String, String)>, b: Seq<(String, String)>)
    requires
        same_names(a, b),
    ensures
        build_problem(m, input, a) == build_problem(m, input, b),
    decreases m, 1int, 0int,
{
    match m {
        McpBinding::Environment(n) => {
            assert(has_key(a, n@) == has_key(b, n@));
        },
        McpBinding::Object(_) => lemma_build_part_names(m, input, a, b, 0),
        McpBinding::Array(_) => lemma_build_part_names(m, input, a, b, 0),
        _ => {},
    }
}

proof fn lemma_build_part_names(m: McpBinding, input: JsonValue, a: Seq<(String, String)>, b: Seq<(String, String)>, i: int)
    requires
        same_names(a, b),
    ensures
        build_part_problem(m, input, a, i) == build_part_problem(m, input, b, i),
    decreases m, 0int, (match m {
        McpBinding::Object(es) => es@.len() as int,
        McpBinding::Array(xs) => xs@.len() as int,
        _ => 0,
    }) - i,
{
    match m {
        McpBinding::Object(es) => if 0 <= i < es@.len() {
            assert(decreases_to!(m => es));
            assert(decreases_to!(es => es@));
            assert(decreases_to!(es@ => es@[i]));
            assert(decreases_to!(es@[i] => es@[i].1));
            lemma_build_names(es@[i].1, input, a, b);
            lemma_build_part_names(m, input, a, b, i + 1);
        },
        McpBinding::Array(xs) => if 0 <= i < xs@.len() {
            assert(decreases_to!(m => xs));
            assert(decreases_to!(xs => xs@));
            assert(decreases_to!(xs@ => xs@[i]));
            lemma_build_names(xs@[i], input, a, b);
            lemma_build_part_names(m, input, a, b, i + 1);
        },
        _ => {},
    }
}

proof fn lemma_build_alike(m1: McpBinding, m2: McpBinding, raw: RawMcpBinding, input: JsonValue, env: Seq<(String, String)>)
    requires
        mcp_compiled_from(m1, raw),
        mcp_compiled_from(m2, raw),
    ensures
        build_problem(m1, input, env) == build_problem(m2, input, env),
    decreases raw,
{
    match raw {
        RawMcpBinding::Object(es) => {
            lemma_build_part_alike(m1, m2, raw, input, env, 0);
        },
        RawMcpBinding::Array(xs) => {
            lemma_build_part_alike(m1, m2, raw, input, env, 0);
        },
        _ => {},
    }
}

proof fn lemma_build_part_alike(m1: McpBinding, m2: McpBinding, raw: RawMcpBinding, input: JsonValue, env: Seq<(String, String)>, i: int)
    requires
        mcp_compiled_from(m1, raw),
        mcp_compiled_from(m2, raw),
        raw is Object || raw is Array,
    ensures
        build_part_problem(m1, input, env, i) == build_part_problem(m2, input, env, i),
    decreases raw, (match raw {
        RawMcpBinding::Object(es) => es@.len() as int,
        RawMcpBinding::Array(xs) => xs@.len() as int,
        _ => 0,
    }) - i,
{
    match raw {
        RawMcpBinding::Object(es) => if 0 <= i < es@.len() {
            let f1 = m1->Object_0;
            let f2 = m2->Object_0;
            assert(decreases_to!(raw => es));
            assert(decreases_to!(es => es@));
            assert(decreases_to!(es@ => es@[i]));
            assert(decreases_to!(es@[i] => es@[i].1));
            lemma_build_alike(f1@[i].1, f2@[i].1, es@[i].1, input, env);
            lemma_build_part_alike(m1, m2, raw, input, env, i + 1);
        },
        RawMcpBinding::Array(xs) => if 0 <= i < xs@.len() {
            let y1 = m1->Array_0;
            let y2 = m2->Array_0;
            assert(decreases_to!(raw => xs));
            assert(decreases_to!(xs => xs@));
            assert(decreases_to!(xs@ => xs@[i]));
            lemma_build_alike(y1@[i], y2@[i], xs@[i], input, env);
            lemma_build_part_alike(m1, m2, raw, input, env, i + 1);
        },
        _ => {},
    }
}

proof fn lemma_arguments_alike(
    a1: Seq<(String, McpBinding)>,
    a2: Seq<(String, McpBinding)>,
    raw: Seq<(String, RawMcpBinding)>,
    input: JsonValue,
    e1: Seq<(String, String)>,
    e2: Seq<(String, String)>,
    i: int,
)
    requires
        same_names(e1, e2),
        a1.len() == raw.len(),
        a2.len() == raw.len(),
        forall|j: int| 0 <= j < raw.len() ==> mcp_compiled_from((#[trigger] a1[j]).1, raw[j].1) && mcp_compiled_from(a2[j].1, raw[j].1),
    ensures
        arguments_build_problem(a1, input, e1, i) == arguments_build_problem(a2, input, e2, i),
    decreases raw.len() - i,
{
    if 0 <= i < raw.len() {
        assert(mcp_compiled_from(a1[i].1, raw[i].1) && mcp_compiled_from(a2[i].1, raw[i].1));
        lemma_build_alike(a1[i].1, a2[i].1, raw[i].1, input, e1);
        lemma_build_names(a2[i].1, input, e1, e2);
        lemma_arguments_alike(a1, a2, raw, input, e1, e2, i + 1);
    }
}

/// Law: two configurations adopted from one configuration, under broker
/// environments that hold the same variable names (whatever their values),
/// refuse the same calls on MCP targets, with the same code, path and
/// message.
pub proof fn law_mcp_refusal_ignores_environment_values(
    raw: RawConfig,
    e1: Seq<(String, String)>,
    e2: Seq<(String, String)>,
    c1: ValidatedConfig,
    c2: ValidatedConfig,
    name: Seq<char>,
    input: JsonValue,
    r1: Result<ResolvedMcpInvocation, Diagnostic>,
    r2: Result<ResolvedMcpInvocation, Diagnostic>,
)
    requires
        same_names(e1, e2),
        config_from(c1, raw, e1),
        config_from(c2, raw, e2),
        mcp_resolution(c1, name, input, r1),
        mcp_resolution(c2, name, input, r2),
    ensures
        r1 is Err <==> r2 is Err,
        r1 matches Err(d1) ==> (r2 matches Err(d2) && d1.code == d2.code && d1.path@ == d2.path@ && d1.message@ == d2.message@),
{
    let mcp = entries_of_kind(raw.targets@, "mcp"@);
    assert forall|j: int| 0 <= j < c1.tools@.len() implies (#[trigger] c1.tools@[j]).0@ == c2.tools@[j].0@ by {
        assert(c1.tools@[j].0@ == raw.tools@[j].0@);
        assert(c2.tools@[j].0@ == raw.tools@[j].0@);
    }
    lemma_same_keys_find(c1.tools@, c2.tools@, name);
    assert forall|j: int| 0 <= j < c1.upstream_targets@.len() implies (#[trigger] c1.upstream_targets@[j]).0@ == c2.upstream_targets@[j].0@ by {
        assert(c1.upstream_targets@[j].0@ == mcp[j].0@);
        assert(c2.upstream_targets@[j].0@ == mcp[j].0@);
    }
    if let Some(k) = find_key(c1.tools@, name) {
        let t1 = c1.tools@[k].1;
        let t2 = c2.tools@[k].1;
        let rt = raw.tools@[k].1;
        assert(tool_from(t1, raw.tools@[k].0@, rt, raw.targets@));
        assert(tool_from(t2, raw.tools@[k].0@, rt, raw.targets@));
        lemma_compiled_same_issue(t1.schema, t2.schema, rt.input_schema, input, Seq::empty());
        lemma_same_keys_find(c1.upstream_targets@, c2.upstream_targets@, t1.target@);
        if let Some(m) = rt.invoke.mcp {
            let i1 = t1.mcp.unwrap();
            let i2 = t2.mcp.unwrap();
            assert forall|j: int| 0 <= j < m.arguments@.len() implies mcp_compiled_from((#[trigger] i1.arguments@[j]).1, m.arguments@[j].1)
                && mcp_compiled_from(i2.arguments@[j].1, m.arguments@[j].1) by {
                assert(mcp_compiled_from(i1.arguments@[j].1, m.arguments@[j].1));
                assert(mcp_compiled_from(i2.arguments@[j].1, m.arguments@[j].1));
            }
            lemma_arguments_alike(i1.arguments@, i2.arguments@, m.arguments@, input, e1, e2, 0);
            assert forall|j: int| 0 <= j < i1.arguments@.len() implies
                mcp_resolvable((#[trigger] i1.arguments@[j]).1, input, e1) == mcp_resolvable(i2.arguments@[j].1, input, e2) by {
                lemma_build_problem_iff(i1.arguments@[j].1, input, e1);
                lemma_build_problem_iff(i2.arguments@[j].1, input, e2);
                lemma_build_alike(i1.arguments@[j].1, i2.arguments@[j].1, m.arguments@[j].1, input, e1);
                lemma_build_names(i2.arguments@[j].1, input, e1, e2);
            }
            assert(i1.arguments@.len() == i2.arguments@.len());
            if arguments_resolvable(i1, input, e1) {
                assert forall|j: int| 0 <= j < i2.arguments@.len() implies mcp_resolvable((#[trigger] i2.arguments@[j]).1, input, e2) by {
                    assert(mcp_resolvable(i1.arguments@[j].1, input, e1));
                }
            }
            if arguments_resolvable(i2, input, e2) {
                assert forall|j: int| 0 <= j < i1.arguments@.len() implies mcp_resolvable((#[trigger] i1.arguments@[j]).1, input, e1) by {
                    assert(mcp_resolvable(i2.arguments@[j].1, input, e2));
                }
            }
            assert(arguments_resolvable(i1, input, e1) == arguments_resolvable(i2, input, e2));
        }
    }
}

// ---------------------------------------------------------------------------
// Two adoptions of one schema judge every input alike.

proof fn lemma_required_alike(c1: CompiledSchema, c2: CompiledSchema, obj: Seq<(String, JsonValue)>, p: Seq<char>, i: int)
    requires
        c1.required@.len() == c2.required@.len(),
        forall|j: int| 0 <= j < c1.required@.len() ==> (#[trigger] c1.required@[j])@ == c2.required@[j]@,
    ensures
        required_issue(c1, obj, p, i) == required_issue(c2, obj, p, i),
    decreases c1.required@.len() - i,
{
    if 0 <= i < c1.required@.len() {
        assert(c1.required@[i]@ == c2.required@[i]@);
        lemma_required_alike(c1, c2, obj, p, i + 1);
    }
}

proof fn lemma_unknown_alike(c1: CompiledSchema, c2: CompiledSchema, obj: Seq<(String, JsonValue)>, p: Seq<char>, i: int)
    requires
        c1.properties@.len() == c2.properties@.len(),
        forall|j: int| 0 <= j < c1.properties@.len() ==> (#[trigger] c1.properties@[j]).0@ == c2.properties@[j].0@,
    ensures
        unknown_issue(c1, obj, p, i) == unknown_issue(c2, obj, p, i),
    decreases obj.len() - i,
{
    if 0 <= i < obj.len() {
        lemma_same_keys_find(c1.properties@, c2.properties@, obj[i].0@);
        lemma_find_iff_has(c1.properties@, obj[i].0@);
        lemma_find_iff_has(c2.properties@, obj[i].0@);
        lemma_unknown_alike(c1, c2, obj, p, i + 1);
    }
}

proof fn lemma_property_alike(c1: CompiledSchema, c2: CompiledSchema, v: JsonValue, obj: Seq<(String, JsonValue)>, p: Seq<char>, i: int)
    requires
        compiled_from(c1, v),
        compiled_from(c2, v),
        c1.kind == SchemaKind::Object,
    ensures
        property_issue(c1, obj, p, i) == property_issue(c2, obj, p, i),
    decreases v, 0int, c1.properties@.len() - i,
{
    if let JsonValue::Object(entries) = v {
        let o = entries@;
        let pi = find_key(o, "properties"@).unwrap();
        if let JsonValue::Object(props) = o[pi].1 {
            if 0 <= i < c1.properties@.len() {
                assert(props@[i].0@ == c1.properties@[i].0@ && props@[i].0@ == c2.properties@[i].0@);
                if let Some(child) = lookup(obj, c1.properties@[i].0@) {
                    assert(decreases_to!(v => entries));
                    assert(decreases_to!(entries => entries@));
                    assert(decreases_to!(entries@ => entries@[pi]));
                    assert(decreases_to!(entries@[pi] => entries@[pi].1));
                    assert(decreases_to!(entries@[pi].1 => props));
                    assert(decreases_to!(props => props@));
                    assert(decreases_to!(props@ => props@[i]));
                    assert(decreases_to!(props@[i] => props@[i].1));
                    lemma_compiled_same_issue(c1.properties@[i].1, c2.properties@[i].1, props@[i].1, child, child_path(p, c1.properties@[i].0@));
                }
                lemma_property_alike(c1, c2, v, obj, p, i + 1);
            }
        }
    }
}

proof fn lemma_item_alike(c1: CompiledSchema, c2: CompiledSchema, v: JsonValue, arr: Seq<JsonValue>, p: Seq<char>, i: int)
    requires
        compiled_from(c1, v),
        compiled_from(c2, v),
        c1.kind == SchemaKind::Array,
    ensures
        item_issue(c1, arr, p, i) == item_issue(c2, arr, p, i),
    decreases v, 0int, arr.len() - i,
{
    if let JsonValue::Object(entries) = v {
        let o = entries@;
        let ii = find_key(o, "items"@).unwrap();
        if 0 <= i < arr.len() {
            let b1 = *c1.items.unwrap();
            let b2 = *c2.items.unwrap();
            assert(decreases_to!(v => entries));
            assert(decreases_to!(entries => entries@));
            assert(decreases_to!(entries@ => entries@[ii]));
            assert(decreases_to!(entries@[ii] => entries@[ii].1));
            lemma_compiled_same_issue(b1, b2, o[ii].1, arr[i], index_path(p, i));
            lemma_item_alike(c1, c2, v, arr, p, i + 1);
        }
    }
}

/// Two schemas adopted from the same value report the same first issue of
/// every input.
pub proof fn lemma_compiled_same_issue(c1: CompiledSchema, c2: CompiledSchema, v: JsonValue, x: JsonValue, p: Seq<char>)
    requires
        compiled_from(c1, v),
        compiled_from(c2, v),
    ensures
        first_issue(c1, x, p) == first_issue(c2, x, p),
    decreases v, 1int, 0int,
{
    if let JsonValue::Object(entries) = v {
        let o = entries@;
        assert(c1.kind == c2.kind);
        if let Some(JsonValue::Array(vals)) = lookup(o, "enum"@) {
            assert forall|i: int| 0 <= i < c1.enum_values@.len() implies json_eq(#[trigger] c1.enum_values@[i], x) == json_eq(c2.enum_values@[i], x) by {
                lemma_same_eq(vals@[i], c1.enum_values@[i], x);
                lemma_same_eq(vals@[i], c2.enum_values@[i], x);
            }
            if enum_admits(c1, x) && c1.enum_values@.len() > 0 {
                let w = choose|i: int| 0 <= i < c1.enum_values@.len() && json_eq(#[trigger] c1.enum_values@[i], x);
                assert(json_eq(c2.enum_values@[w], x));
            }
            if enum_admits(c2, x) && c2.enum_values@.len() > 0 {
                let w = choose|i: int| 0 <= i < c2.enum_values@.len() && json_eq(#[trigger] c2.enum_values@[i], x);
                assert(json_eq(c1.enum_values@[w], x));
            }
        }
        assert(enum_admits(c1, x) == enum_admits(c2, x));
        match x {
            JsonValue::Object(es) => if c1.kind == SchemaKind::Object {
                let pi = find_key(o, "properties"@).unwrap();
                if let JsonValue::Object(props) = o[pi].1 {
                    assert forall|j: int| 0 <= j < c1.required@.len() implies (#[trigger] c1.required@[j])@ == c2.required@[j]@ by {
                        assert(c1.required@[j]@ == props@[j].0@);
                    }
                    assert forall|j: int| 0 <= j < c1.properties@.len() implies (#[trigger] c1.properties@[j]).0@ == c2.properties@[j].0@ by {
                        assert(props@[j].0@ == c1.properties@[j].0@);
                    }
                }
                lemma_required_alike(c1, c2, es@, p, 0);
                lemma_unknown_alike(c1, c2, es@, p, 0);
                lemma_property_alike(c1, c2, v, es@, p, 0);
            },
            JsonValue::Array(items) => if c1.kind == SchemaKind::Array {
                lemma_item_alike(c1, c2, v, items@, p, 0);
            },
            JsonValue::Number(n) => {
                if let Some(b) = bound_of(o, "minimum"@) {
                    assert(num_scaled(c1.minimum.unwrap()) == num_scaled(b));
                    assert(num_scaled(c2.minimum.unwrap()) == num_scaled(b));
                }
                if let Some(b) = bound_of(o, "maximum"@) {
                    assert(num_scaled(c1.maximum.unwrap()) == num_scaled(b));
                    assert(num_scaled(c2.maximum.unwrap()) == num_scaled(b));
                }
            },
            _ => {},
        }
    }
}

} // verus!
