//! Resolution of a tool call into a fixed invocation: the target, the process
//! context and the limits come from the configuration alone; only the bound
//! values come from the validated input.
use vstd::prelude::*;
use crate::binding::{CliBinding, McpBinding};
use crate::codes::{Diagnostic, BrokerErrorCode, reports_problem};
use crate::config::{copy_entries, ValidatedConfig, EnvironmentSpec, Limits, OutputKind, CliTarget, UpstreamMcpTarget, CompiledTool, McpInvoke};
use crate::json::{JsonValue, JsonNumber, lookup, has_key, get_key, json_same, clone_value, lemma_find_iff_has};
use crate::numeric::{num_scaled, number_is_zero};
use crate::text::{string_of, decode_ptr, decode_pointer, string_views, decimal, signed_decimal, u64_to_decimal, i64_to_decimal, contains_char};
use crate::validate::{first_issue, validate_input};

verus! {

// ---------------------------------------------------------------------------
// Values in the input.

/// The value that a sequence of property names leads to in `v`.
pub open spec fn value_at_tokens(v: JsonValue, tokens: Seq<Seq<char>>) -> Option<JsonValue>
    decreases tokens.len(),
{
    if tokens.len() == 0 {
        Some(v)
    } else {
        match v {
            JsonValue::Object(es) => match lookup(es@, tokens[0]) {
                Some(c) => value_at_tokens(c, tokens.drop_first()),
                None => None,
            },
            _ => None,
        }
    }
}

/// The value that the JSON Pointer `p` refers to in `v`.
pub open spec fn value_at_pointer(v: JsonValue, p: Seq<char>) -> Option<JsonValue> {
    match decode_pointer(p) {
        Some(t) => value_at_tokens(v, t),
        None => None,
    }
}

/// Follows `pointer` through the objects of `value`.
pub fn value_at<'a>(value: &'a JsonValue, pointer: &str) -> (r: Option<&'a JsonValue>)
    ensures
        match r {
            Some(x) => value_at_pointer(*value, pointer@) == Some(*x),
            None => value_at_pointer(*value, pointer@) is None,
        },
{
    let parts = match decode_ptr(pointer) {
        Some(p) => p,
        None => {
            return None;
        },
    };
    let ghost tokens = string_views(parts@);
    let mut current = value;
    let mut i: usize = 0;
    assert(tokens.skip(0) =~= tokens);
    while i < parts.len()
        invariant
            i <= parts@.len(),
            tokens == string_views(parts@),
            decode_pointer(pointer@) == Some(tokens),
            value_at_tokens(*value, tokens) == value_at_tokens(*current, tokens.skip(i as int)),
        decreases parts@.len() - i,
    {
        let ghost rest = tokens.skip(i as int);
        assert(rest[0] == parts@[i as int]@);
        assert(rest.drop_first() =~= tokens.skip(i + 1));
        let obj = match current {
            JsonValue::Object(o) => o,
            _ => {
                return None;
            },
        };
        match get_key(obj, parts[i].as_str()) {
            Some(c) => {
                current = c;
            },
            None => {
                return None;
            },
        }
        i += 1;
    }
    assert(tokens.skip(i as int) =~= Seq::<Seq<char>>::empty());
    Some(current)
}

// ---------------------------------------------------------------------------
// Command lines.

/// How a number is written as an argument: zero of either sign as `0`,
/// integers in decimal, other numbers as the input wrote them.
pub open spec fn number_text(n: JsonNumber) -> Seq<char> {
    if num_scaled(n) == 0 {
        "0"@
    } else {
        match n {
            JsonNumber::PosInt(u) => decimal(u as nat),
            JsonNumber::NegInt(i) => signed_decimal(i as int),
            JsonNumber::Float(f) => f.text@,
        }
    }
}

/// The argument text of a string or number.
pub open spec fn arg_text(v: JsonValue) -> Option<Seq<char>> {
    match v {
        JsonValue::Str(s) => Some(s@),
        JsonValue::Number(n) => Some(number_text(n)),
        _ => None,
    }
}

/// The argument of `v`, when it is a string or number without NUL.
pub open spec fn arg_of(v: JsonValue) -> Option<Seq<char>> {
    match arg_text(v) {
        Some(t) => if t.contains('\0') {
            None
        } else {
            Some(t)
        },
        None => None,
    }
}

/// Why the value `v` cannot be one argument.
pub open spec fn arg_problem(v: JsonValue) -> Option<(Seq<char>, Seq<char>)> {
    match arg_text(v) {
        Some(t) => if t.contains('\0') {
            Some((""@, "argument contains NUL"@))
        } else {
            None
        },
        None => Some((""@, "binding requires scalar string or number"@)),
    }
}

/// The first item, from position `j` on, that cannot be an argument.
pub open spec fn items_problem(items: Seq<JsonValue>, j: int) -> Option<(Seq<char>, Seq<char>)>
    decreases items.len() - j,
{
    if j < 0 || j >= items.len() {
        None
    } else {
        match arg_problem(items[j]) {
            Some(x) => Some(x),
            None => items_problem(items, j + 1),
        }
    }
}

/// Why one binding cannot be built from `input`.
pub open spec fn binding_problem(b: CliBinding, input: JsonValue) -> Option<(Seq<char>, Seq<char>)> {
    match b {
        CliBinding::Literal(_) => None,
        CliBinding::Input(p) => match value_at_pointer(input, p@) {
            Some(v) => arg_problem(v),
            None => Some((p@, "input pointer is missing"@)),
        },
        CliBinding::Each(p) => match value_at_pointer(input, p@) {
            Some(JsonValue::Array(items)) => items_problem(items@, 0),
            Some(_) => Some((p@, "each binding requires an array"@)),
            None => Some((p@, "input pointer is missing"@)),
        },
    }
}

/// The first binding, from position `i` on, that cannot be built from
/// `input`.
pub open spec fn argv_problem(bs: Seq<CliBinding>, input: JsonValue, i: int) -> Option<(Seq<char>, Seq<char>)>
    decreases bs.len() - i,
{
    if i < 0 || i >= bs.len() {
        None
    } else {
        match binding_problem(bs[i], input) {
            Some(x) => Some(x),
            None => argv_problem(bs, input, i + 1),
        }
    }
}

/// Renders a scalar input value as one argument.
pub fn value_to_arg(value: &JsonValue) -> (r: Result<String, Diagnostic>)
    ensures
        match arg_of(*value) {
            Some(t) => r matches Ok(s) && s@ == t,
            None => r matches Err(d) && reports_problem(d, arg_problem(*value)),
        },
        arg_of(*value) is None <==> arg_problem(*value) is Some,
{
    let s = match value {
        JsonValue::Str(s) => s.clone(),
        JsonValue::Number(n) => {
            if number_is_zero(n) {
                string_of("0")
            } else {
                match n {
                    JsonNumber::PosInt(u) => u64_to_decimal(*u),
                    JsonNumber::NegInt(i) => i64_to_decimal(*i),
                    JsonNumber::Float(f) => f.text.clone(),
                }
            }
        },
        _ => {
            return Err(Diagnostic::invalid("", "binding requires scalar string or number"));
        },
    };
    if contains_char(s.as_str(), '\0') {
        return Err(Diagnostic::invalid("", "argument contains NUL"));
    }
    Ok(s)
}

/// The arguments of the items of an array, in order.
pub open spec fn args_of_items(items: Seq<JsonValue>) -> Option<Seq<Seq<char>>>
    decreases items.len(),
{
    if items.len() == 0 {
        Some(Seq::empty())
    } else {
        match args_of_items(items.drop_last()) {
            Some(a) => match arg_of(items.last()) {
                Some(t) => Some(a.push(t)),
                None => None,
            },
            None => None,
        }
    }
}

/// The arguments one binding contributes for `input`.
pub open spec fn binding_args(b: CliBinding, input: JsonValue) -> Option<Seq<Seq<char>>> {
    match b {
        CliBinding::Literal(l) => Some(seq![l@]),
        CliBinding::Input(p) => match value_at_pointer(input, p@) {
            Some(v) => match arg_of(v) {
                Some(t) => Some(seq![t]),
                None => None,
            },
            None => None,
        },
        CliBinding::Each(p) => match value_at_pointer(input, p@) {
            Some(JsonValue::Array(items)) => args_of_items(items@),
            _ => None,
        },
    }
}

/// The command line that the bindings `bs` make of `input`.
pub open spec fn argv_of(bs: Seq<CliBinding>, input: JsonValue) -> Option<Seq<Seq<char>>>
    decreases bs.len(),
{
    if bs.len() == 0 {
        Some(Seq::empty())
    } else {
        match argv_of(bs.drop_last(), input) {
            Some(a) => match binding_args(bs.last(), input) {
                Some(b) => Some(a + b),
                None => None,
            },
            None => None,
        }
    }
}


proof fn lemma_argv_prefix_none(bs: Seq<CliBinding>, input: JsonValue, k: int)
    requires
        0 <= k <= bs.len(),
        argv_of(bs.take(k), input) is None,
    ensures
        argv_of(bs, input) is None,
    decreases bs.len() - k,
{
    if k < bs.len() {
        assert(bs.take(k + 1).drop_last() =~= bs.take(k));
        lemma_argv_prefix_none(bs, input, k + 1);
    } else {
        assert(bs.take(k) =~= bs);
    }
}

proof fn lemma_items_prefix_none(items: Seq<JsonValue>, k: int)
    requires
        0 <= k <= items.len(),
        args_of_items(items.take(k)) is None,
    ensures
        args_of_items(items) is None,
    decreases items.len() - k,
{
    if k < items.len() {
        assert(items.take(k + 1).drop_last() =~= items.take(k));
        lemma_items_prefix_none(items, k + 1);
    } else {
        assert(items.take(k) =~= items);
    }
}

/// The arguments of the items of an array.
fn items_to_args(items: &Vec<JsonValue>) -> (r: Result<Vec<String>, Diagnostic>)
    ensures
        match args_of_items(items@) {
            Some(a) => r matches Ok(v) && string_views(v@) == a,
            None => r matches Err(d) && reports_problem(d, items_problem(items@, 0)),
        },
        r is Ok ==> items_problem(items@, 0) is None,
{
    let mut out: Vec<String> = Vec::new();
    let mut j: usize = 0;
    proof {
        assert(items@.take(0) =~= Seq::<JsonValue>::empty());
        assert(string_views(out@) =~= Seq::<Seq<char>>::empty());
    }
    while j < items.len()
        invariant
            j <= items@.len(),
            args_of_items(items@.take(j as int)) == Some(string_views(out@)),
            items_problem(items@, 0) == items_problem(items@, j as int),
        decreases items@.len() - j,
    {
        proof {
            assert(items@.take(j + 1).drop_last() =~= items@.take(j as int));
            assert(items@.take(j + 1).last() == items@[j as int]);
        }
        let a = match value_to_arg(&items[j]) {
            Ok(a) => a,
            Err(d) => {
                proof {
                    lemma_items_prefix_none(items@, j + 1);
                }
                return Err(d);
            },
        };
        let ghost before = out@;
        out.push(a);
        assert(string_views(out@) =~= string_views(before).push(a@));
        j += 1;
    }
    proof {
        assert(items@.take(items@.len() as int) =~= items@);
    }
    Ok(out)
}


/// Two environments hold the same names and values.
pub open spec fn env_same(a: EnvironmentSpec, b: EnvironmentSpec) -> bool {
    &&& a.inherit@ == b.inherit@
    &&& a.inherited_values@ == b.inherited_values@
    &&& a.set@ == b.set@
}

fn copy_names(names: &Vec<String>) -> (r: Vec<String>)
    ensures
        r@ == names@,
{
    let mut out: Vec<String> = Vec::new();
    let mut i: usize = 0;
    while i < names.len()
        invariant
            i <= names@.len(),
            out@ == names@.take(i as int),
        decreases names@.len() - i,
    {
        out.push(names[i].clone());
        assert(names@.take(i + 1) =~= names@.take(i as int).push(names@[i as int]));
        i += 1;
    }
    assert(names@.take(names@.len() as int) =~= names@);
    out
}

/// A copy of an environment.
pub fn copy_environment(e: &EnvironmentSpec) -> (r: EnvironmentSpec)
    ensures
        env_same(r, *e),
{
    EnvironmentSpec {
        inherit: copy_names(&e.inherit),
        inherited_values: copy_entries(&e.inherited_values),
        set: copy_entries(&e.set),
    }
}

/// A command-line call ready to run.
pub struct ResolvedCliInvocation {
    pub target_id: String,
    pub executable: String,
    pub argv: Vec<String>,
    pub cwd: String,
    pub environment: EnvironmentSpec,
    pub limits: Limits,
    pub output_kind: OutputKind,
}

/// `inv` runs `target` with the command line `args`, as `tool` says.
pub open spec fn cli_invocation_of(inv: ResolvedCliInvocation, tool: CompiledTool, target: CliTarget, args: Seq<Seq<char>>) -> bool {
    &&& inv.target_id@ == tool.target@
    &&& inv.executable@ == target.executable@
    &&& string_views(inv.argv@) == args
    &&& inv.cwd@ == target.cwd@
    &&& env_same(inv.environment, target.environment)
    &&& inv.limits == target.limits
    &&& inv.output_kind == tool.output_kind
}

/// The diagnostic reports the input issue `issue`.
pub open spec fn reports(d: Diagnostic, issue: (Seq<char>, Seq<char>)) -> bool {
    &&& d.code == BrokerErrorCode::InvalidArguments
    &&& d.path@ == issue.0
    &&& d.message@ == issue.1
}

/// What resolving a call of `name` with `input` on a command-line target
/// gives: an unknown tool, an input issue (the first one), a tool whose target
/// is not a command-line target, or an argument that cannot be rendered fails;
/// otherwise the call runs the tool's target with the bound command line.
pub open spec fn cli_resolution(config: ValidatedConfig, name: Seq<char>, input: JsonValue, r: Result<ResolvedCliInvocation, Diagnostic>) -> bool {
    match lookup(config.tools@, name) {
        None => r matches Err(d) && reports(d, ("/tool"@, "unknown tool"@)),
        Some(tool) => match first_issue(tool.schema, input, Seq::empty()) {
            Some(issue) => r matches Err(d) && reports(d, issue),
            None => match lookup(config.targets@, tool.target@) {
                None => r matches Err(d) && reports(d, ("/tool"@, "tool is not a CLI target"@)),
                Some(target) => match argv_of(tool.argv@, input) {
                    None => r matches Err(d) && reports_problem(d, argv_problem(tool.argv@, input, 0)),
                    Some(args) => r matches Ok(inv) && cli_invocation_of(inv, tool, target, args),
                },
            },
        },
    }
}

/// Resolves a call of the tool `tool_name` on a command-line target.
pub fn resolve_cli(config: &ValidatedConfig, tool_name: &str, input: &JsonValue) -> (r: Result<ResolvedCliInvocation, Diagnostic>)
    ensures
        cli_resolution(*config, tool_name@, *input, r),
{
    let tool = match get_key(&config.tools, tool_name) {
        Some(t) => t,
        None => {
            return Err(Diagnostic::invalid("/tool", "unknown tool"));
        },
    };
    match validate_input(&tool.schema, input) {
        Ok(()) => {},
        Err(issues) => {
            return Err(Diagnostic::invalid(issues[0].path.as_str(), issues[0].constraint.as_str()));
        },
    }
    let target = match get_key(&config.targets, tool.target.as_str()) {
        Some(t) => t,
        None => {
            return Err(Diagnostic::invalid("/tool", "tool is not a CLI target"));
        },
    };
    let mut argv: Vec<String> = Vec::new();
    let mut i: usize = 0;
    proof {
        assert(tool.argv@.take(0) =~= Seq::<CliBinding>::empty());
        assert(string_views(argv@) =~= Seq::<Seq<char>>::empty());
    }
    while i < tool.argv.len()
        invariant
            lookup(config.tools@, tool_name@) == Some(*tool),
            first_issue(tool.schema, *input, Seq::empty()) is None,
            lookup(config.targets@, tool.target@) == Some(*target),
            i <= tool.argv@.len(),
            argv_of(tool.argv@.take(i as int), *input) == Some(string_views(argv@)),
            argv_problem(tool.argv@, *input, 0) == argv_problem(tool.argv@, *input, i as int),
        decreases tool.argv@.len() - i,
    {
        proof {
            assert(tool.argv@.take(i + 1).drop_last() =~= tool.argv@.take(i as int));
            assert(tool.argv@.take(i + 1).last() == tool.argv@[i as int]);
        }
        let ghost before = argv@;
        match &tool.argv[i] {
            CliBinding::Literal(v) => {
                argv.push(v.clone());
                assert(string_views(argv@) =~= string_views(before) + seq![v@]);
            },
            CliBinding::Input(p) => {
                let v = match value_at(input, p.as_str()) {
                    Some(v) => v,
                    None => {
                        proof {
                            lemma_argv_prefix_none(tool.argv@, *input, i + 1);
                        }
                        return Err(Diagnostic::invalid(p.as_str(), "input pointer is missing"));
                    },
                };
                let a = match value_to_arg(v) {
                    Ok(a) => a,
                    Err(d) => {
                        proof {
                            lemma_argv_prefix_none(tool.argv@, *input, i + 1);
                        }
                        return Err(d);
                    },
                };
                argv.push(a);
                assert(string_views(argv@) =~= string_views(before) + seq![a@]);
            },
            CliBinding::Each(p) => {
                let v = match value_at(input, p.as_str()) {
                    Some(v) => v,
                    None => {
                        proof {
                            lemma_argv_prefix_none(tool.argv@, *input, i + 1);
                        }
                        return Err(Diagnostic::invalid(p.as_str(), "input pointer is missing"));
                    },
                };
                let items = match v {
                    JsonValue::Array(items) => items,
                    _ => {
                        proof {
                            lemma_argv_prefix_none(tool.argv@, *input, i + 1);
                        }
                        return Err(Diagnostic::invalid(p.as_str(), "each binding requires an array"));
                    },
                };
                let mut more = match items_to_args(items) {
                    Ok(m) => m,
                    Err(d) => {
                        proof {
                            lemma_argv_prefix_none(tool.argv@, *input, i + 1);
                        }
                        return Err(d);
                    },
                };
                let ghost added = more@;
                argv.append(&mut more);
                assert(string_views(argv@) =~= string_views(before) + string_views(added));
            },
        }
        i += 1;
    }
    proof {
        assert(tool.argv@.take(tool.argv@.len() as int) =~= tool.argv@);
    }
    Ok(ResolvedCliInvocation {
        target_id: tool.target.clone(),
        executable: target.executable.clone(),
        argv,
        cwd: target.cwd.clone(),
        environment: copy_environment(&target.environment),
        limits: target.limits,
        output_kind: tool.output_kind,
    })
}


// ---------------------------------------------------------------------------
// Upstream MCP calls.

/// Every input pointer of `b` refers to a value of `input` and every
/// environment name of `b` is in `env`.
pub open spec fn mcp_resolvable(b: McpBinding, input: JsonValue, env: Seq<(String, String)>) -> bool
    decreases b,
{
    match b {
        McpBinding::Literal(_) => true,
        McpBinding::Input(p) => value_at_pointer(input, p@) is Some,
        McpBinding::Environment(n) => has_key(env, n@),
        McpBinding::Object(es) => forall|i: int| 0 <= i < es@.len() ==> mcp_resolvable((#[trigger] es@[i]).1, input, env),
        McpBinding::Array(xs) => forall|i: int| 0 <= i < xs@.len() ==> mcp_resolvable(#[trigger] xs@[i], input, env),
    }
}

/// `r` is the value `b` builds: literals as adopted, input values as given,
/// environment values as strings, objects and arrays of the same shape.
pub open spec fn mcp_resolved(r: JsonValue, b: McpBinding, input: JsonValue, env: Seq<(String, String)>) -> bool
    decreases b,
{
    match b {
        McpBinding::Literal(v) => json_same(v, r),
        McpBinding::Input(p) => match value_at_pointer(input, p@) {
            Some(x) => json_same(x, r),
            None => false,
        },
        McpBinding::Environment(n) => match lookup(env, n@) {
            Some(s) => match r {
                JsonValue::Str(t) => t@ == s@,
                _ => false,
            },
            None => false,
        },
        McpBinding::Object(es) => match r {
            JsonValue::Object(fs) => {
                &&& fs@.len() == es@.len()
                &&& forall|i: int| 0 <= i < es@.len() ==> (#[trigger] fs@[i]).0@ == es@[i].0@
                    && mcp_resolved(fs@[i].1, es@[i].1, input, env)
            },
            _ => false,
        },
        McpBinding::Array(xs) => match r {
            JsonValue::Array(ys) => {
                &&& ys@.len() == xs@.len()
                &&& forall|i: int| 0 <= i < xs@.len() ==> mcp_resolved(ys@[i], #[trigger] xs@[i], input, env)
            },
            _ => false,
        },
    }
}

/// Why the binding `b` cannot be built from `input` and `env`: the first
/// input pointer that finds nothing or environment variable that is absent,
/// parts in order.
pub open spec fn build_problem(b: McpBinding, input: JsonValue, env: Seq<(String, String)>) -> Option<(Seq<char>, Seq<char>)>
    decreases b, 1int, 0int,
{
    match b {
        McpBinding::Literal(_) => None,
        McpBinding::Input(p) => if value_at_pointer(input, p@) is Some {
            None
        } else {
            Some((p@, "input pointer is missing"@))
        },
        McpBinding::Environment(n) => if has_key(env, n@) {
            None
        } else {
            Some((""@, "environment variable is not present"@))
        },
        McpBinding::Object(_) => build_part_problem(b, input, env, 0),
        McpBinding::Array(_) => build_part_problem(b, input, env, 0),
    }
}

/// The first part of `b`, from position `i` on, that cannot be built.
pub open spec fn build_part_problem(b: McpBinding, input: JsonValue, env: Seq<(String, String)>, i: int) -> Option<(Seq<char>, Seq<char>)>
    decreases b, 0int, (match b {
        McpBinding::Object(es) => es@.len() as int,
        McpBinding::Array(xs) => xs@.len() as int,
        _ => 0,
    }) - i,
{
    match b {
        McpBinding::Object(es) => if 0 <= i < es@.len() {
            match build_problem(es@[i].1, input, env) {
                Some(x) => Some(x),
                None => build_part_problem(b, input, env, i + 1),
            }
        } else {
            None
        },
        McpBinding::Array(xs) => if 0 <= i < xs@.len() {
            match build_problem(xs@[i], input, env) {
                Some(x) => Some(x),
                None => build_part_problem(b, input, env, i + 1),
            }
        } else {
            None
        },
        _ => None,
    }
}

/// The first top-level argument, from position `i` on, that cannot be built.
pub open spec fn arguments_build_problem(args: Seq<(String, McpBinding)>, input: JsonValue, env: Seq<(String, String)>, i: int) -> Option<(Seq<char>, Seq<char>)>
    decreases args.len() - i,
{
    if i < 0 || i >= args.len() {
        None
    } else {
        match build_problem(args[i].1, input, env) {
            Some(x) => Some(x),
            None => arguments_build_problem(args, input, env, i + 1),
        }
    }
}

/// A binding can be built exactly when it has no part that cannot.
pub proof fn lemma_build_problem_iff(b: McpBinding, input: JsonValue, env: Seq<(String, String)>)
    ensures
        mcp_resolvable(b, input, env) <==> build_problem(b, input, env) is None,
    decreases b, 1int, 0int,
{
    match b {
        McpBinding::Object(_) => lemma_build_part_iff(b, input, env, 0),
        McpBinding::Array(_) => lemma_build_part_iff(b, input, env, 0),
        _ => {},
    }
}

proof fn lemma_build_part_iff(b: McpBinding, input: JsonValue, env: Seq<(String, String)>, i: int)
    requires
        0 <= i,
    ensures
        match b {
            McpBinding::Object(es) => (forall|j: int| i <= j < es@.len() ==> mcp_resolvable((#[trigger] es@[j]).1, input, env))
                <==> build_part_problem(b, input, env, i) is None,
            McpBinding::Array(xs) => (forall|j: int| i <= j < xs@.len() ==> mcp_resolvable(#[trigger] xs@[j], input, env))
                <==> build_part_problem(b, input, env, i) is None,
            _ => true,
        },
    decreases b, 0int, (match b {
        McpBinding::Object(es) => es@.len() as int,
        McpBinding::Array(xs) => xs@.len() as int,
        _ => 0,
    }) - i,
{
    match b {
        McpBinding::Object(es) => if i < es@.len() {
            assert(decreases_to!(b => es));
            assert(decreases_to!(es => es@));
            assert(decreases_to!(es@ => es@[i]));
            assert(decreases_to!(es@[i] => es@[i].1));
            lemma_build_problem_iff(es@[i].1, input, env);
            lemma_build_part_iff(b, input, env, i + 1);
        },
        McpBinding::Array(xs) => if i < xs@.len() {
            assert(decreases_to!(b => xs));
            assert(decreases_to!(xs => xs@));
            assert(decreases_to!(xs@ => xs@[i]));
            lemma_build_problem_iff(xs@[i], input, env);
            lemma_build_part_iff(b, input, env, i + 1);
        },
        _ => {},
    }
}

/// Builds the value of one argument binding.
pub fn resolve_mcp_binding(binding: &McpBinding, input: &JsonValue, environment: &Vec<(String, String)>) -> (r: Result<JsonValue, Diagnostic>)
    ensures
        r is Ok <==> mcp_resolvable(*binding, *input, environment@),
        r matches Ok(v) ==> mcp_resolved(v, *binding, *input, environment@),
        r matches Err(d) ==> reports_problem(d, build_problem(*binding, *input, environment@)),
    decreases *binding,
{
    match binding {
        McpBinding::Literal(v) => Ok(clone_value(v)),
        McpBinding::Input(p) => match value_at(input, p.as_str()) {
            Some(v) => Ok(clone_value(v)),
            None => Err(Diagnostic::invalid(p.as_str(), "input pointer is missing")),
        },
        McpBinding::Environment(n) => match get_key(environment, n.as_str()) {
            Some(v) => Ok(JsonValue::Str(v.clone())),
            None => {
                proof {
                    lemma_find_iff_has(environment@, n@);
                }
                Err(Diagnostic::invalid("", "environment variable is not present"))
            },
        },
        McpBinding::Object(es) => {
            let mut out: Vec<(String, JsonValue)> = Vec::new();
            let mut i: usize = 0;
            while i < es.len()
                invariant
                    *binding == McpBinding::Object(*es),
                    i <= es@.len(),
                    out@.len() == i,
                    forall|j: int| 0 <= j < i ==> mcp_resolvable((#[trigger] es@[j]).1, *input, environment@),
                    forall|j: int| 0 <= j < i ==> (#[trigger] out@[j]).0@ == es@[j].0@
                        && mcp_resolved(out@[j].1, es@[j].1, *input, environment@),
                    build_part_problem(*binding, *input, environment@, 0) == build_part_problem(*binding, *input, environment@, i as int),
                decreases es@.len() - i,
            {
                proof {
                    assert(decreases_to!(*binding => (*binding)->Object_0));
                    assert(decreases_to!(*es => es@));
                    assert(decreases_to!(es@ => es@[i as int]));
                    assert(decreases_to!(es@[i as int] => es@[i as int].1));
                }
                let v = match resolve_mcp_binding(&es[i].1, input, environment) {
                    Ok(v) => v,
                    Err(d) => {
                        return Err(d);
                    },
                };
                proof {
                    lemma_build_problem_iff(es@[i as int].1, *input, environment@);
                }
                out.push((es[i].0.clone(), v));
                i += 1;
            }
            Ok(JsonValue::Object(out))
        },
        McpBinding::Array(xs) => {
            let mut out: Vec<JsonValue> = Vec::new();
            let mut i: usize = 0;
            while i < xs.len()
                invariant
                    *binding == McpBinding::Array(*xs),
                    i <= xs@.len(),
                    out@.len() == i,
                    forall|j: int| 0 <= j < i ==> mcp_resolvable(#[trigger] xs@[j], *input, environment@),
                    forall|j: int| 0 <= j < i ==> mcp_resolved(out@[j], #[trigger] xs@[j], *input, environment@),
                    build_part_problem(*binding, *input, environment@, 0) == build_part_problem(*binding, *input, environment@, i as int),
                decreases xs@.len() - i,
            {
                proof {
                    assert(decreases_to!(*binding => (*binding)->Array_0));
                    assert(decreases_to!(*xs => xs@));
                    assert(decreases_to!(xs@ => xs@[i as int]));
                }
                let v = match resolve_mcp_binding(&xs[i], input, environment) {
                    Ok(v) => v,
                    Err(d) => {
                        return Err(d);
                    },
                };
                proof {
                    lemma_build_problem_iff(xs@[i as int], *input, environment@);
                }
                out.push(v);
                i += 1;
            }
            Ok(JsonValue::Array(out))
        },
    }
}

/// An upstream MCP call ready to send.
pub struct ResolvedMcpInvocation {
    pub target_id: String,
    pub command: String,
    pub args: Vec<String>,
    pub cwd: String,
    pub environment: EnvironmentSpec,
    pub upstream_tool: String,
    pub arguments: JsonValue,
    pub limits: Limits,
    pub output_kind: OutputKind,
}

/// All top-level arguments of `invoke` can be built.
pub open spec fn arguments_resolvable(invoke: McpInvoke, input: JsonValue, env: Seq<(String, String)>) -> bool {
    forall|i: int| 0 <= i < invoke.arguments@.len() ==> mcp_resolvable((#[trigger] invoke.arguments@[i]).1, input, env)
}

/// `inv` calls `invoke` on `target`, its arguments built from `input` and
/// `env`.
pub open spec fn mcp_invocation_of(inv: ResolvedMcpInvocation, tool: CompiledTool, invoke: McpInvoke, target: UpstreamMcpTarget, input: JsonValue, env: Seq<(String, String)>) -> bool {
    &&& inv.target_id@ == target.id@
    &&& inv.command@ == target.command@
    &&& inv.args@ == target.args@
    &&& inv.cwd@ == target.cwd@
    &&& env_same(inv.environment, target.environment)
    &&& inv.upstream_tool@ == invoke.tool@
    &&& inv.limits == target.limits
    &&& inv.output_kind == tool.output_kind
    &&& match inv.arguments {
        JsonValue::Object(fs) => {
            &&& fs@.len() == invoke.arguments@.len()
            &&& forall|i: int| 0 <= i < fs@.len() ==> (#[trigger] fs@[i]).0@ == invoke.arguments@[i].0@
                && mcp_resolved(fs@[i].1, invoke.arguments@[i].1, input, env)
        },
        _ => false,
    }
}

/// What resolving a call of `name` with `input` on an MCP target gives.
pub open spec fn mcp_resolution(config: ValidatedConfig, name: Seq<char>, input: JsonValue, r: Result<ResolvedMcpInvocation, Diagnostic>) -> bool {
    match lookup(config.tools@, name) {
        None => r matches Err(d) && reports(d, ("/tool"@, "unknown tool"@)),
        Some(tool) => match first_issue(tool.schema, input, Seq::empty()) {
            Some(issue) => r matches Err(d) && reports(d, issue),
            None => match tool.mcp {
                None => r matches Err(d) && reports(d, ("/tool"@, "tool is not an MCP target"@)),
                Some(invoke) => match lookup(config.upstream_targets@, tool.target@) {
                    None => r matches Err(d) && reports(d, ("/tool"@, "unknown MCP target"@)),
                    Some(target) => if arguments_resolvable(invoke, input, config.server_environment@) {
                        r matches Ok(inv) && mcp_invocation_of(inv, tool, invoke, target, input, config.server_environment@)
                    } else {
                        r matches Err(d) && reports_problem(d, arguments_build_problem(invoke.arguments@, input, config.server_environment@, 0))
                    },
                },
            },
        },
    }
}

/// Resolves a call of the tool `tool_name` on an upstream MCP target.
pub fn resolve_mcp(config: &ValidatedConfig, tool_name: &str, input: &JsonValue) -> (r: Result<ResolvedMcpInvocation, Diagnostic>)
    ensures
        mcp_resolution(*config, tool_name@, *input, r),
{
    let tool = match get_key(&config.tools, tool_name) {
        Some(t) => t,
        None => {
            return Err(Diagnostic::invalid("/tool", "unknown tool"));
        },
    };
    match validate_input(&tool.schema, input) {
        Ok(()) => {},
        Err(issues) => {
            return Err(Diagnostic::invalid(issues[0].path.as_str(), issues[0].constraint.as_str()));
        },
    }
    let invoke = match &tool.mcp {
        Some(m) => m,
        None => {
            return Err(Diagnostic::invalid("/tool", "tool is not an MCP target"));
        },
    };
    let target = match get_key(&config.upstream_targets, tool.target.as_str()) {
        Some(t) => t,
        None => {
            return Err(Diagnostic::invalid("/tool", "unknown MCP target"));
        },
    };
    let mut arguments: Vec<(String, JsonValue)> = Vec::new();
    let mut i: usize = 0;
    while i < invoke.arguments.len()
        invariant
            lookup(config.tools@, tool_name@) == Some(*tool),
            first_issue(tool.schema, *input, Seq::empty()) is None,
            tool.mcp == Some(*invoke),
            lookup(config.upstream_targets@, tool.target@) == Some(*target),
            i <= invoke.arguments@.len(),
            arguments@.len() == i,
            forall|j: int| 0 <= j < i ==> mcp_resolvable((#[trigger] invoke.arguments@[j]).1, *input, config.server_environment@),
            forall|j: int| 0 <= j < i ==> (#[trigger] arguments@[j]).0@ == invoke.arguments@[j].0@
                && mcp_resolved(arguments@[j].1, invoke.arguments@[j].1, *input, config.server_environment@),
            arguments_build_problem(invoke.arguments@, *input, config.server_environment@, 0)
                == arguments_build_problem(invoke.arguments@, *input, config.server_environment@, i as int),
        decreases invoke.arguments@.len() - i,
    {
        let v = match resolve_mcp_binding(&invoke.arguments[i].1, input, &config.server_environment) {
            Ok(v) => v,
            Err(d) => {
                proof {
                    lemma_build_problem_iff(invoke.arguments@[i as int].1, *input, config.server_environment@);
                }
                return Err(d);
            },
        };
        proof {
            lemma_build_problem_iff(invoke.arguments@[i as int].1, *input, config.server_environment@);
        }
        arguments.push((invoke.arguments[i].0.clone(), v));
        i += 1;
    }
    Ok(ResolvedMcpInvocation {
        target_id: target.id.clone(),
        command: target.command.clone(),
        args: copy_names(&target.args),
        cwd: target.cwd.clone(),
        environment: copy_environment(&target.environment),
        upstream_tool: invoke.tool.clone(),
        arguments: JsonValue::Object(arguments),
        limits: target.limits,
        output_kind: tool.output_kind,
    })
}

} // verus!
