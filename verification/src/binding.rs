//! Bindings: how resolved invocations are built from configuration-owned values
//! and validated input.
use vstd::prelude::*;
use crate::codes::{Diagnostic, BrokerErrorCode, MAX_SCHEMA_DEPTH, reports_problem};
use crate::json::{JsonValue, lookup, has_key, get_key, contains_key, canonical_of, canonical_copy, find_key, key_at, lemma_key_at_unique};
use crate::names::{env_name_ok, validate_env_name, id_ok, validate_id};
use crate::schema::{CompiledSchema, SchemaKind, compiled_from};
use crate::text::{str_eq, string_of, contains_char, join_key, join_index, decode_ptr, decode_pointer, string_views};
use crate::validate::{child_path, index_path};

verus! {

/// The schema node that a sequence of property names leads to.
pub open spec fn schema_at(s: CompiledSchema, tokens: Seq<Seq<char>>) -> Option<CompiledSchema>
    decreases tokens.len(),
{
    if tokens.len() == 0 {
        Some(s)
    } else {
        match lookup(s.properties@, tokens[0]) {
            Some(c) => schema_at(c, tokens.drop_first()),
            None => None,
        }
    }
}

/// The schema node that a JSON Pointer into the input refers to.
pub open spec fn schema_at_pointer_spec(s: CompiledSchema, p: Seq<char>) -> Option<CompiledSchema> {
    match decode_pointer(p) {
        Some(t) => schema_at(s, t),
        None => None,
    }
}

/// Follows `pointer` through the properties of `root`.
pub fn schema_at_pointer<'a>(root: &'a CompiledSchema, pointer: &str) -> (r: Option<&'a CompiledSchema>)
    ensures
        match r {
            Some(x) => schema_at_pointer_spec(*root, pointer@) == Some(*x),
            None => schema_at_pointer_spec(*root, pointer@) is None,
        },
{
    let parts = match decode_ptr(pointer) {
        Some(p) => p,
        None => {
            return None;
        },
    };
    let ghost tokens = string_views(parts@);
    let mut current = root;
    let mut i: usize = 0;
    assert(tokens.skip(0) =~= tokens);
    while i < parts.len()
        invariant
            i <= parts@.len(),
            tokens == string_views(parts@),
            decode_pointer(pointer@) == Some(tokens),
            schema_at(*root, tokens) == schema_at(*current, tokens.skip(i as int)),
        decreases parts@.len() - i,
    {
        let ghost rest = tokens.skip(i as int);
        assert(rest[0] == parts@[i as int]@);
        assert(rest.drop_first() =~= tokens.skip(i + 1));
        match get_key(&current.properties, parts[i].as_str()) {
            Some(c) => {
                current = c;
            },
            None => {
                return None;
            },
        }
        i += 1;
    }
    assert(tokens.skip(i as int) =~= Seq::<Seq<char>>::empty());
    Some(current)
}

/// One element of a command line: fixed, one scalar input, or each element of a
/// scalar input array.
#[derive(Debug)]
pub enum CliBinding {
    Literal(String),
    Input(String),
    Each(String),
}

/// A kind that renders as one argument: string, integer or number.
pub open spec fn is_scalar_kind(k: SchemaKind) -> bool {
    k == SchemaKind::String || k == SchemaKind::Integer || k == SchemaKind::Number
}

/// A binding node of a command line: an object with exactly one entry whose
/// value is a string; `literal` without NUL, `input` pointing at a scalar
/// schema, or `each` pointing at an array schema of scalars.
pub open spec fn cli_binding_ok(v: JsonValue, s: CompiledSchema) -> bool {
    match v {
        JsonValue::Object(e) => e@.len() == 1 && match e@[0].1 {
            JsonValue::Str(p) => {
                let k = e@[0].0@;
                if k == "literal"@ {
                    !p@.contains('\0')
                } else if k == "input"@ {
                    match schema_at_pointer_spec(s, p@) {
                        Some(t) => is_scalar_kind(t.kind),
                        None => false,
                    }
                } else if k == "each"@ {
                    match schema_at_pointer_spec(s, p@) {
                        Some(t) => t.kind == SchemaKind::Array && match t.items {
                            Some(it) => is_scalar_kind(it.kind),
                            None => false,
                        },
                        None => false,
                    }
                } else {
                    false
                }
            },
            _ => false,
        },
        _ => false,
    }
}

/// `b` is the binding written as the node `v`.
pub open spec fn cli_binding_of(b: CliBinding, v: JsonValue) -> bool {
    match v {
        JsonValue::Object(e) => match e@[0].1 {
            JsonValue::Str(p) => {
                let k = e@[0].0@;
                if k == "literal"@ {
                    b matches CliBinding::Literal(q) && q@ == p@
                } else if k == "input"@ {
                    b matches CliBinding::Input(q) && q@ == p@
                } else {
                    b matches CliBinding::Each(q) && q@ == p@
                }
            },
            _ => false,
        },
        _ => false,
    }
}

fn scalar_kind(k: SchemaKind) -> (r: bool)
    ensures
        r == is_scalar_kind(k),
{
    k == SchemaKind::String || k == SchemaKind::Integer || k == SchemaKind::Number
}

/// Why adoption refuses the command-line binding node `v`, if it does.
pub open spec fn cli_binding_problem(v: JsonValue, s: CompiledSchema) -> Option<Seq<char>> {
    match v {
        JsonValue::Object(e) => if e@.len() != 1 {
            Some("binding node must have one key"@)
        } else {
            match e@[0].1 {
                JsonValue::Str(p) => {
                    let k = e@[0].0@;
                    if k == "literal"@ {
                        if p@.contains('\0') {
                            Some("literal contains NUL"@)
                        } else {
                            None
                        }
                    } else if k == "input"@ {
                        match schema_at_pointer_spec(s, p@) {
                            Some(t) => if is_scalar_kind(t.kind) {
                                None
                            } else {
                                Some("input binding requires scalar"@)
                            },
                            None => Some("input pointer does not reference schema"@),
                        }
                    } else if k == "each"@ {
                        match schema_at_pointer_spec(s, p@) {
                            Some(t) => if t.kind == SchemaKind::Array && (t.items matches Some(it) && is_scalar_kind(it.kind)) {
                                None
                            } else {
                                Some("each binding requires scalar array"@)
                            },
                            None => Some("each pointer does not reference schema"@),
                        }
                    } else {
                        Some("unsupported binding node"@)
                    }
                },
                _ => Some("binding pointer/value must be string"@),
            }
        },
        _ => Some("binding node must be object"@),
    }
}

/// The first refused node of a command line from position `i` on, at its
/// index under `p`, with the message.
pub open spec fn bindings_problem(values: Seq<JsonValue>, s: CompiledSchema, p: Seq<char>, i: int) -> Option<(Seq<char>, Seq<char>)>
    decreases values.len() - i,
{
    if i < 0 || i >= values.len() {
        None
    } else {
        match cli_binding_problem(values[i], s) {
            Some(m) => Some((index_path(p, i), m)),
            None => bindings_problem(values, s, p, i + 1),
        }
    }
}

/// Compiles the argument bindings of a command-line invocation.
pub fn compile_bindings(values: &Vec<JsonValue>, schema: &CompiledSchema, path: &str) -> (r: Result<Vec<CliBinding>, Diagnostic>)
    ensures
        r is Ok <==> forall|i: int| 0 <= i < values@.len() ==> cli_binding_ok(#[trigger] values@[i], *schema),
        r matches Ok(bs) ==> bs@.len() == values@.len()
            && forall|i: int| 0 <= i < values@.len() ==> cli_binding_of(#[trigger] bs@[i], values@[i]),
        r matches Err(d) ==> reports_problem(d, bindings_problem(values@, *schema, path@, 0)),
        r is Ok ==> bindings_problem(values@, *schema, path@, 0) is None,
{
    let mut result: Vec<CliBinding> = Vec::new();
    let mut i: usize = 0;
    while i < values.len()
        invariant
            i <= values@.len(),
            result@.len() == i,
            forall|j: int| 0 <= j < i ==> cli_binding_ok(#[trigger] values@[j], *schema),
            forall|j: int| 0 <= j < i ==> cli_binding_of(#[trigger] result@[j], values@[j]),
            bindings_problem(values@, *schema, path@, 0) == bindings_problem(values@, *schema, path@, i as int),
        decreases values@.len() - i,
    {
        let p = join_index(path, i);
        assert(cli_binding_ok(values@[i as int], *schema) <==> cli_binding_problem(values@[i as int], *schema) is None);
        let obj = match &values[i] {
            JsonValue::Object(o) => o,
            _ => {
                return Err(Diagnostic::invalid(p.as_str(), "binding node must be object"));
            },
        };
        if obj.len() != 1 {
            return Err(Diagnostic::invalid(p.as_str(), "binding node must have one key"));
        }
        let kind = &obj[0].0;
        let pointer = match &obj[0].1 {
            JsonValue::Str(s) => s,
            _ => {
                return Err(Diagnostic::invalid(p.as_str(), "binding pointer/value must be string"));
            },
        };
        if str_eq(kind.as_str(), "literal") {
            if contains_char(pointer.as_str(), '\0') {
                return Err(Diagnostic::invalid(p.as_str(), "literal contains NUL"));
            }
            result.push(CliBinding::Literal(pointer.clone()));
        } else if str_eq(kind.as_str(), "input") {
            let s = match schema_at_pointer(schema, pointer.as_str()) {
                Some(s) => s,
                None => {
                    return Err(Diagnostic::invalid(p.as_str(), "input pointer does not reference schema"));
                },
            };
            if !scalar_kind(s.kind) {
                return Err(Diagnostic::invalid(p.as_str(), "input binding requires scalar"));
            }
            result.push(CliBinding::Input(pointer.clone()));
        } else if str_eq(kind.as_str(), "each") {
            let s = match schema_at_pointer(schema, pointer.as_str()) {
                Some(s) => s,
                None => {
                    return Err(Diagnostic::invalid(p.as_str(), "each pointer does not reference schema"));
                },
            };
            let ok = s.kind == SchemaKind::Array && match &s.items {
                Some(it) => scalar_kind(it.kind),
                None => false,
            };
            if !ok {
                return Err(Diagnostic::invalid(p.as_str(), "each binding requires scalar array"));
            }
            result.push(CliBinding::Each(pointer.clone()));
        } else {
            return Err(Diagnostic::invalid(p.as_str(), "unsupported binding node"));
        }
        i += 1;
    }
    Ok(result)
}


// ---------------------------------------------------------------------------
// Upstream MCP argument bindings.

/// An argument binding of an upstream MCP call as the configuration writes it.
#[derive(Debug)]
pub enum RawMcpBinding {
    Literal(JsonValue),
    Input(String),
    Environment(String),
    Object(Vec<(String, RawMcpBinding)>),
    Array(Vec<RawMcpBinding>),
}

/// An adopted argument binding: literals are canonical, input pointers
/// reference the schema, environment names were present at adoption.
#[derive(Debug)]
pub enum McpBinding {
    Literal(JsonValue),
    Input(String),
    Environment(String),
    Object(Vec<(String, McpBinding)>),
    Array(Vec<McpBinding>),
}

/// `v`, whose top sits at nesting level `depth`, has a node below the nesting
/// limit.
pub open spec fn exceeds_depth(v: JsonValue, depth: nat) -> bool
    decreases v,
{
    if depth > MAX_SCHEMA_DEPTH {
        true
    } else {
        match v {
            JsonValue::Array(xs) => exists|i: int| 0 <= i < xs@.len() && exceeds_depth(#[trigger] xs@[i], depth + 1),
            JsonValue::Object(xs) => exists|i: int| 0 <= i < xs@.len() && exceeds_depth((#[trigger] xs@[i]).1, depth + 1),
            _ => false,
        }
    }
}

/// Some string of `v`, at any depth, contains a NUL character (object keys are
/// not looked at).
pub open spec fn json_has_nul(v: JsonValue) -> bool
    decreases v,
{
    match v {
        JsonValue::Str(s) => s@.contains('\0'),
        JsonValue::Array(xs) => exists|i: int| 0 <= i < xs@.len() && json_has_nul(#[trigger] xs@[i]),
        JsonValue::Object(xs) => exists|i: int| 0 <= i < xs@.len() && json_has_nul((#[trigger] xs@[i]).1),
        _ => false,
    }
}

/// Whether `value`, whose top sits at nesting level `depth`, goes below the
/// nesting limit.
pub fn value_exceeds_depth(value: &JsonValue, depth: usize) -> (r: bool)
    ensures
        r == exceeds_depth(*value, depth as nat),
    decreases *value,
{
    if depth > MAX_SCHEMA_DEPTH {
        return true;
    }
    match value {
        JsonValue::Array(xs) => {
            let mut i: usize = 0;
            while i < xs.len()
                invariant
                    *value == JsonValue::Array(*xs),
                    depth <= MAX_SCHEMA_DEPTH,
                    i <= xs@.len(),
                    forall|j: int| 0 <= j < i ==> !exceeds_depth(#[trigger] xs@[j], depth as nat + 1),
                decreases xs@.len() - i,
            {
                proof {
                    assert(decreases_to!(*value => (*value)->Array_0));
                    assert(decreases_to!(*xs => xs@));
                    assert(decreases_to!(xs@ => xs@[i as int]));
                }
                if value_exceeds_depth(&xs[i], depth + 1) {
                    return true;
                }
                i += 1;
            }
            false
        },
        JsonValue::Object(xs) => {
            let mut i: usize = 0;
            while i < xs.len()
                invariant
                    *value == JsonValue::Object(*xs),
                    depth <= MAX_SCHEMA_DEPTH,
                    i <= xs@.len(),
                    forall|j: int| 0 <= j < i ==> !exceeds_depth((#[trigger] xs@[j]).1, depth as nat + 1),
                decreases xs@.len() - i,
            {
                proof {
                    assert(decreases_to!(*value => (*value)->Object_0));
                    assert(decreases_to!(*xs => xs@));
                    assert(decreases_to!(xs@ => xs@[i as int]));
                    assert(decreases_to!(xs@[i as int] => xs@[i as int].1));
                }
                if value_exceeds_depth(&xs[i].1, depth + 1) {
                    return true;
                }
                i += 1;
            }
            false
        },
        _ => false,
    }
}

/// Whether some string of `value` contains a NUL character.
pub fn contains_nul(value: &JsonValue) -> (r: bool)
    ensures
        r == json_has_nul(*value),
    decreases *value,
{
    match value {
        JsonValue::Str(s) => contains_char(s.as_str(), '\0'),
        JsonValue::Array(xs) => {
            let mut i: usize = 0;
            while i < xs.len()
                invariant
                    *value == JsonValue::Array(*xs),
                    i <= xs@.len(),
                    forall|j: int| 0 <= j < i ==> !json_has_nul(#[trigger] xs@[j]),
                decreases xs@.len() - i,
            {
                proof {
                    assert(decreases_to!(*value => (*value)->Array_0));
                    assert(decreases_to!(*xs => xs@));
                    assert(decreases_to!(xs@ => xs@[i as int]));
                }
                if contains_nul(&xs[i]) {
                    return true;
                }
                i += 1;
            }
            false
        },
        JsonValue::Object(xs) => {
            let mut i: usize = 0;
            while i < xs.len()
                invariant
                    *value == JsonValue::Object(*xs),
                    i <= xs@.len(),
                    forall|j: int| 0 <= j < i ==> !json_has_nul((#[trigger] xs@[j]).1),
                decreases xs@.len() - i,
            {
                proof {
                    assert(decreases_to!(*value => (*value)->Object_0));
                    assert(decreases_to!(*xs => xs@));
                    assert(decreases_to!(xs@ => xs@[i as int]));
                    assert(decreases_to!(xs@[i as int] => xs@[i as int].1));
                }
                if contains_nul(&xs[i].1) {
                    return true;
                }
                i += 1;
            }
            false
        },
        _ => false,
    }
}


/// `raw`, at nesting level `depth`, is a binding that adoption accepts against
/// `schema` and the broker environment `env`.
pub open spec fn mcp_binding_ok(raw: RawMcpBinding, schema: CompiledSchema, env: Seq<(String, String)>, depth: nat) -> bool
    decreases raw,
{
    if depth > MAX_SCHEMA_DEPTH {
        false
    } else {
        match raw {
            RawMcpBinding::Literal(v) => !exceeds_depth(v, 1) && !json_has_nul(v),
            RawMcpBinding::Input(p) => schema_at_pointer_spec(schema, p@) is Some,
            RawMcpBinding::Environment(n) => env_name_ok(n@) && has_key(env, n@),
            RawMcpBinding::Object(es) => forall|i: int| 0 <= i < es@.len() ==> mcp_binding_ok((#[trigger] es@[i]).1, schema, env, depth + 1),
            RawMcpBinding::Array(xs) => forall|i: int| 0 <= i < xs@.len() ==> mcp_binding_ok(#[trigger] xs@[i], schema, env, depth + 1),
        }
    }
}

/// `b` is what adoption makes of `raw`: the same shape and names, literals in
/// canonical form.
pub open spec fn mcp_compiled_from(b: McpBinding, raw: RawMcpBinding) -> bool
    decreases raw,
{
    match raw {
        RawMcpBinding::Literal(v) => b matches McpBinding::Literal(w) && canonical_of(w, v),
        RawMcpBinding::Input(p) => b matches McpBinding::Input(q) && q@ == p@,
        RawMcpBinding::Environment(n) => b matches McpBinding::Environment(m) && m@ == n@,
        RawMcpBinding::Object(es) => match b {
            McpBinding::Object(fs) => {
                &&& fs@.len() == es@.len()
                &&& forall|i: int| 0 <= i < es@.len() ==> fs@[i].0@ == (#[trigger] es@[i]).0@ && mcp_compiled_from(fs@[i].1, es@[i].1)
            },
            _ => false,
        },
        RawMcpBinding::Array(xs) => match b {
            McpBinding::Array(ys) => {
                &&& ys@.len() == xs@.len()
                &&& forall|i: int| 0 <= i < xs@.len() ==> mcp_compiled_from(ys@[i], #[trigger] xs@[i])
            },
            _ => false,
        },
    }
}

/// The first part of `raw`, at nesting level `depth` and configuration path
/// `p`, that adoption refuses, with the message; parts are checked parent
/// first, then children in order.
pub open spec fn mcp_binding_problem(raw: RawMcpBinding, schema: CompiledSchema, env: Seq<(String, String)>, depth: nat, p: Seq<char>) -> Option<(Seq<char>, Seq<char>)>
    decreases raw, 1int, 0int,
{
    if depth > MAX_SCHEMA_DEPTH {
        Some((p, "binding depth exceeds 32"@))
    } else {
        match raw {
            RawMcpBinding::Literal(v) => if exceeds_depth(v, 1) {
                Some((p, "binding literal depth exceeds 32"@))
            } else if json_has_nul(v) {
                Some((p, "literal contains NUL"@))
            } else {
                None
            },
            RawMcpBinding::Input(q) => if schema_at_pointer_spec(schema, q@) is None {
                Some((p, "input pointer does not reference schema"@))
            } else {
                None
            },
            RawMcpBinding::Environment(n) => if !env_name_ok(n@) {
                Some((p, "invalid environment variable name"@))
            } else if !has_key(env, n@) {
                Some((p, "environment variable is not present"@))
            } else {
                None
            },
            RawMcpBinding::Object(_) => part_problem(raw, schema, env, depth, p, 0),
            RawMcpBinding::Array(_) => part_problem(raw, schema, env, depth, p, 0),
        }
    }
}

/// The first refused part among the entries or items of `raw` from position
/// `i` on.
pub open spec fn part_problem(raw: RawMcpBinding, schema: CompiledSchema, env: Seq<(String, String)>, depth: nat, p: Seq<char>, i: int) -> Option<(Seq<char>, Seq<char>)>
    decreases raw, 0int, (match raw {
        RawMcpBinding::Object(es) => es@.len() as int,
        RawMcpBinding::Array(xs) => xs@.len() as int,
        _ => 0,
    }) - i,
{
    match raw {
        RawMcpBinding::Object(es) => if 0 <= i < es@.len() {
            match mcp_binding_problem(es@[i].1, schema, env, depth + 1, child_path(p, es@[i].0@)) {
                Some(x) => Some(x),
                None => part_problem(raw, schema, env, depth, p, i + 1),
            }
        } else {
            None
        },
        RawMcpBinding::Array(xs) => if 0 <= i < xs@.len() {
            match mcp_binding_problem(xs@[i], schema, env, depth + 1, index_path(p, i)) {
                Some(x) => Some(x),
                None => part_problem(raw, schema, env, depth, p, i + 1),
            }
        } else {
            None
        },
        _ => None,
    }
}

/// A binding is refused exactly when it has a refused part.
pub proof fn lemma_mcp_problem_iff(raw: RawMcpBinding, schema: CompiledSchema, env: Seq<(String, String)>, depth: nat, p: Seq<char>)
    ensures
        mcp_binding_ok(raw, schema, env, depth) <==> mcp_binding_problem(raw, schema, env, depth, p) is None,
    decreases raw, 1int, 0int,
{
    if depth <= MAX_SCHEMA_DEPTH {
        match raw {
            RawMcpBinding::Object(es) => lemma_part_problem_iff(raw, schema, env, depth, p, 0),
            RawMcpBinding::Array(xs) => lemma_part_problem_iff(raw, schema, env, depth, p, 0),
            _ => {},
        }
    }
}

proof fn lemma_part_problem_iff(raw: RawMcpBinding, schema: CompiledSchema, env: Seq<(String, String)>, depth: nat, p: Seq<char>, i: int)
    requires
        0 <= i,
    ensures
        match raw {
            RawMcpBinding::Object(es) => (forall|j: int| i <= j < es@.len() ==> mcp_binding_ok((#[trigger] es@[j]).1, schema, env, depth + 1))
                <==> part_problem(raw, schema, env, depth, p, i) is None,
            RawMcpBinding::Array(xs) => (forall|j: int| i <= j < xs@.len() ==> mcp_binding_ok(#[trigger] xs@[j], schema, env, depth + 1))
                <==> part_problem(raw, schema, env, depth, p, i) is None,
            _ => true,
        },
    decreases raw, 0int, (match raw {
        RawMcpBinding::Object(es) => es@.len() as int,
        RawMcpBinding::Array(xs) => xs@.len() as int,
        _ => 0,
    }) - i,
{
    match raw {
        RawMcpBinding::Object(es) => if i < es@.len() {
            assert(decreases_to!(raw => es));
            assert(decreases_to!(es => es@));
            assert(decreases_to!(es@ => es@[i]));
            assert(decreases_to!(es@[i] => es@[i].1));
            lemma_mcp_problem_iff(es@[i].1, schema, env, depth + 1, child_path(p, es@[i].0@));
            lemma_part_problem_iff(raw, schema, env, depth, p, i + 1);
        },
        RawMcpBinding::Array(xs) => if i < xs@.len() {
            assert(decreases_to!(raw => xs));
            assert(decreases_to!(xs => xs@));
            assert(decreases_to!(xs@ => xs@[i]));
            lemma_mcp_problem_iff(xs@[i], schema, env, depth + 1, index_path(p, i));
            lemma_part_problem_iff(raw, schema, env, depth, p, i + 1);
        },
        _ => {},
    }
}

/// Adopts one argument binding at nesting level `depth`.
pub fn compile_mcp_binding(
    value: &RawMcpBinding,
    schema: &CompiledSchema,
    path: &str,
    environment: &Vec<(String, String)>,
    depth: usize,
) -> (r: Result<McpBinding, Diagnostic>)
    ensures
        r is Ok <==> mcp_binding_ok(*value, *schema, environment@, depth as nat),
        r matches Ok(b) ==> mcp_compiled_from(b, *value),
        r matches Err(d) ==> reports_problem(d, mcp_binding_problem(*value, *schema, environment@, depth as nat, path@)),
    decreases *value,
{
    if depth > MAX_SCHEMA_DEPTH {
        return Err(Diagnostic::invalid(path, "binding depth exceeds 32"));
    }
    match value {
        RawMcpBinding::Literal(v) => {
            if value_exceeds_depth(v, 1) {
                return Err(Diagnostic::invalid(path, "binding literal depth exceeds 32"));
            }
            if contains_nul(v) {
                return Err(Diagnostic::invalid(path, "literal contains NUL"));
            }
            Ok(McpBinding::Literal(canonical_copy(v)))
        },
        RawMcpBinding::Input(p) => {
            if schema_at_pointer(schema, p.as_str()).is_none() {
                return Err(Diagnostic::invalid(path, "input pointer does not reference schema"));
            }
            Ok(McpBinding::Input(p.clone()))
        },
        RawMcpBinding::Environment(n) => {
            match validate_env_name(n.as_str(), path) {
                Ok(()) => {},
                Err(d) => {
                    return Err(d);
                },
            }
            if !contains_key(environment, n.as_str()) {
                return Err(Diagnostic::invalid(path, "environment variable is not present"));
            }
            Ok(McpBinding::Environment(n.clone()))
        },
        RawMcpBinding::Object(es) => {
            let mut out: Vec<(String, McpBinding)> = Vec::new();
            let mut i: usize = 0;
            while i < es.len()
                invariant
                    *value == RawMcpBinding::Object(*es),
                    depth <= MAX_SCHEMA_DEPTH,
                    i <= es@.len(),
                    out@.len() == i,
                    forall|j: int| 0 <= j < i ==> mcp_binding_ok((#[trigger] es@[j]).1, *schema, environment@, depth as nat + 1),
                    forall|j: int| 0 <= j < i ==> out@[j].0@ == (#[trigger] es@[j]).0@ && mcp_compiled_from(out@[j].1, es@[j].1),
                    part_problem(*value, *schema, environment@, depth as nat, path@, 0)
                        == part_problem(*value, *schema, environment@, depth as nat, path@, i as int),
                decreases es@.len() - i,
            {
                proof {
                    assert(decreases_to!(*value => (*value)->Object_0));
                    assert(decreases_to!(*es => es@));
                    assert(decreases_to!(es@ => es@[i as int]));
                    assert(decreases_to!(es@[i as int] => es@[i as int].1));
                }
                let p = join_key(path, es[i].0.as_str());
                let c = match compile_mcp_binding(&es[i].1, schema, p.as_str(), environment, depth + 1) {
                    Ok(c) => c,
                    Err(d) => {
                        return Err(d);
                    },
                };
                proof {
                    lemma_mcp_problem_iff(es@[i as int].1, *schema, environment@, depth as nat + 1, p@);
                }
                out.push((es[i].0.clone(), c));
                i += 1;
            }
            Ok(McpBinding::Object(out))
        },
        RawMcpBinding::Array(xs) => {
            let mut out: Vec<McpBinding> = Vec::new();
            let mut i: usize = 0;
            while i < xs.len()
                invariant
                    *value == RawMcpBinding::Array(*xs),
                    depth <= MAX_SCHEMA_DEPTH,
                    i <= xs@.len(),
                    out@.len() == i,
                    forall|j: int| 0 <= j < i ==> mcp_binding_ok(#[trigger] xs@[j], *schema, environment@, depth as nat + 1),
                    forall|j: int| 0 <= j < i ==> mcp_compiled_from(out@[j], #[trigger] xs@[j]),
                    part_problem(*value, *schema, environment@, depth as nat, path@, 0)
                        == part_problem(*value, *schema, environment@, depth as nat, path@, i as int),
                decreases xs@.len() - i,
            {
                proof {
                    assert(decreases_to!(*value => (*value)->Array_0));
                    assert(decreases_to!(*xs => xs@));
                    assert(decreases_to!(xs@ => xs@[i as int]));
                }
                let p = join_index(path, i);
                let c = match compile_mcp_binding(&xs[i], schema, p.as_str(), environment, depth + 1) {
                    Ok(c) => c,
                    Err(d) => {
                        return Err(d);
                    },
                };
                proof {
                    lemma_mcp_problem_iff(xs@[i as int], *schema, environment@, depth as nat + 1, p@);
                }
                out.push(c);
                i += 1;
            }
            Ok(McpBinding::Array(out))
        },
    }
}

/// The top-level arguments of an upstream call are accepted: each name is an
/// identifier and each binding is accepted at nesting level 1.
pub open spec fn mcp_arguments_ok(values: Seq<(String, RawMcpBinding)>, schema: CompiledSchema, env: Seq<(String, String)>) -> bool {
    forall|i: int| 0 <= i < values.len() ==> id_ok((#[trigger] values[i]).0@) && mcp_binding_ok(values[i].1, schema, env, 1)
}

/// The first refused top-level argument from position `i` on: its name is
/// checked first, then its binding.
pub open spec fn arguments_problem(values: Seq<(String, RawMcpBinding)>, schema: CompiledSchema, env: Seq<(String, String)>, p: Seq<char>, i: int) -> Option<(Seq<char>, Seq<char>)>
    decreases values.len() - i,
{
    if i < 0 || i >= values.len() {
        None
    } else if !id_ok(values[i].0@) {
        Some((p, "must be 1..128 ASCII identifier characters"@))
    } else {
        match mcp_binding_problem(values[i].1, schema, env, 1, child_path(p, values[i].0@)) {
            Some(x) => Some(x),
            None => arguments_problem(values, schema, env, p, i + 1),
        }
    }
}

/// Adopts the top-level arguments of an upstream call, in order.
pub fn compile_mcp_bindings(
    values: &Vec<(String, RawMcpBinding)>,
    schema: &CompiledSchema,
    path: &str,
    environment: &Vec<(String, String)>,
) -> (r: Result<Vec<(String, McpBinding)>, Diagnostic>)
    ensures
        r is Ok <==> mcp_arguments_ok(values@, *schema, environment@),
        r matches Ok(bs) ==> bs@.len() == values@.len() && forall|i: int| 0 <= i < values@.len()
            ==> (#[trigger] bs@[i]).0@ == values@[i].0@ && mcp_compiled_from(bs@[i].1, values@[i].1),
        r matches Err(d) ==> reports_problem(d, arguments_problem(values@, *schema, environment@, path@, 0)),
        r is Ok ==> arguments_problem(values@, *schema, environment@, path@, 0) is None,
{
    let mut out: Vec<(String, McpBinding)> = Vec::new();
    let mut i: usize = 0;
    while i < values.len()
        invariant
            i <= values@.len(),
            out@.len() == i,
            forall|j: int| 0 <= j < i ==> id_ok((#[trigger] values@[j]).0@) && mcp_binding_ok(values@[j].1, *schema, environment@, 1),
            forall|j: int| 0 <= j < i ==> (#[trigger] out@[j]).0@ == values@[j].0@ && mcp_compiled_from(out@[j].1, values@[j].1),
            arguments_problem(values@, *schema, environment@, path@, 0) == arguments_problem(values@, *schema, environment@, path@, i as int),
        decreases values@.len() - i,
    {
        match validate_id(values[i].0.as_str(), path) {
            Ok(()) => {},
            Err(d) => {
                return Err(d);
            },
        }
        let p = join_key(path, values[i].0.as_str());
        let c = match compile_mcp_binding(&values[i].1, schema, p.as_str(), environment, 1) {
            Ok(c) => c,
            Err(d) => {
                return Err(d);
            },
        };
        proof {
            lemma_mcp_problem_iff(values@[i as int].1, *schema, environment@, 1, p@);
        }
        out.push((values[i].0.clone(), c));
        i += 1;
    }
    Ok(out)
}


// ---------------------------------------------------------------------------
// Binding checks depend only on the shape of the compiled schema.

/// `a` and `b` have the same kinds, property names and item schemas at every
/// depth.
pub open spec fn same_shape(a: CompiledSchema, b: CompiledSchema) -> bool
    decreases a,
{
    &&& a.kind == b.kind
    &&& a.properties@.len() == b.properties@.len()
    &&& forall|j: int| 0 <= j < a.properties@.len() ==> (#[trigger] a.properties@[j]).0@ == b.properties@[j].0@
        && same_shape(a.properties@[j].1, b.properties@[j].1)
    &&& match a.items {
        Some(x) => match b.items {
            Some(y) => same_shape(*x, *y),
            None => false,
        },
        None => b.items is None,
    }
}

/// Two schemas compiled from the same JSON have the same shape.
pub proof fn lemma_compiled_same_shape(c1: CompiledSchema, c2: CompiledSchema, v: JsonValue)
    requires
        compiled_from(c1, v),
        compiled_from(c2, v),
    ensures
        same_shape(c1, c2),
    decreases v,
{
    match v {
        JsonValue::Object(entries) => {
            let o = entries@;
            if c1.kind == SchemaKind::Object {
                let pi = find_key(o, "properties"@)->0;
                match o[pi].1 {
                    JsonValue::Object(props) => {
                        assert forall|j: int| 0 <= j < c1.properties@.len() implies (#[trigger] c1.properties@[j]).0@ == c2.properties@[j].0@
                            && same_shape(c1.properties@[j].1, c2.properties@[j].1) by {
                            assert(decreases_to!(v => entries));
                            assert(decreases_to!(entries => o));
                            assert(decreases_to!(o => o[pi]));
                            assert(decreases_to!(o[pi] => o[pi].1));
                            assert(decreases_to!(o[pi].1 => props));
                            assert(decreases_to!(props => props@));
                            assert(decreases_to!(props@ => props@[j]));
                            assert(decreases_to!(props@[j] => props@[j].1));
                            assert(props@[j].0@ == c1.properties@[j].0@);
                            lemma_compiled_same_shape(c1.properties@[j].1, c2.properties@[j].1, props@[j].1);
                        }
                    },
                    _ => {},
                }
            }
            if c1.kind == SchemaKind::Array {
                let ii = find_key(o, "items"@)->0;
                assert(decreases_to!(v => entries));
                assert(decreases_to!(entries => o));
                assert(decreases_to!(o => o[ii]));
                assert(decreases_to!(o[ii] => o[ii].1));
                let x = c1.items->0;
                let y = c2.items->0;
                lemma_compiled_same_shape(*x, *y, o[ii].1);
            }
        },
        _ => {},
    }
}

/// Entry lists with the same keys at every position find every key at the same position.
pub proof fn lemma_same_keys_find<V, W>(a: Seq<(String, V)>, b: Seq<(String, W)>, k: Seq<char>)
    requires
        a.len() == b.len(),
        forall|j: int| 0 <= j < a.len() ==> (#[trigger] a[j]).0@ == b[j].0@,
    ensures
        find_key(a, k) == find_key(b, k),
{
    if let Some(i) = find_key(a, k) {
        assert(key_at(a, k, i));
        assert(key_at(b, k, i)) by {
            assert forall|j: int| 0 <= j < i implies (#[trigger] b[j]).0@ != k by {
                assert(a[j].0@ == b[j].0@);
            }
            assert(a[i].0@ == b[i].0@);
        }
        lemma_key_at_unique(b, k, i);
    } else if let Some(i) = find_key(b, k) {
        assert(key_at(b, k, i));
        assert(key_at(a, k, i)) by {
            assert forall|j: int| 0 <= j < i implies (#[trigger] a[j]).0@ != k by {
                assert(a[j].0@ == b[j].0@);
            }
            assert(a[i].0@ == b[i].0@);
        }
        lemma_key_at_unique(a, k, i);
    }
}

/// Schemas of the same shape lead a sequence of property names to nodes of
/// the same shape.
pub proof fn lemma_shape_schema_at(a: CompiledSchema, b: CompiledSchema, tokens: Seq<Seq<char>>)
    requires
        same_shape(a, b),
    ensures
        match schema_at(a, tokens) {
            Some(x) => match schema_at(b, tokens) {
                Some(y) => same_shape(x, y),
                None => false,
            },
            None => schema_at(b, tokens) is None,
        },
    decreases tokens.len(),
{
    if tokens.len() > 0 {
        lemma_same_keys_find(a.properties@, b.properties@, tokens[0]);
        if let Some(i) = find_key(a.properties@, tokens[0]) {
            assert(a.properties@[i].0@ == b.properties@[i].0@);
            lemma_shape_schema_at(a.properties@[i].1, b.properties@[i].1, tokens.drop_first());
        }
    }
}

proof fn lemma_shape_pointer(a: CompiledSchema, b: CompiledSchema, p: Seq<char>)
    requires
        same_shape(a, b),
    ensures
        match schema_at_pointer_spec(a, p) {
            Some(x) => match schema_at_pointer_spec(b, p) {
                Some(y) => same_shape(x, y),
                None => false,
            },
            None => schema_at_pointer_spec(b, p) is None,
        },
{
    if let Some(t) = decode_pointer(p) {
        lemma_shape_schema_at(a, b, t);
    }
}

/// Whether a command-line binding is accepted depends only on the shape of
/// the schema.
pub proof fn lemma_shape_cli_binding(a: CompiledSchema, b: CompiledSchema, v: JsonValue)
    requires
        same_shape(a, b),
    ensures
        cli_binding_ok(v, a) == cli_binding_ok(v, b),
{
    if let JsonValue::Object(e) = v {
        if e@.len() == 1 {
            if let JsonValue::Str(p) = e@[0].1 {
                lemma_shape_pointer(a, b, p@);
                if let Some(x) = schema_at_pointer_spec(a, p@) {
                    let y = schema_at_pointer_spec(b, p@)->0;
                    if let Some(ix) = x.items {
                        let iy = y.items->0;
                        assert(same_shape(*ix, *iy));
                        assert(ix.kind == iy.kind);
                    }
                }
            }
        }
    }
}

/// Whether an upstream argument binding is accepted depends only on the shape
/// of the schema.
pub proof fn lemma_shape_mcp_binding(a: CompiledSchema, b: CompiledSchema, raw: RawMcpBinding, env: Seq<(String, String)>, depth: nat)
    requires
        same_shape(a, b),
    ensures
        mcp_binding_ok(raw, a, env, depth) == mcp_binding_ok(raw, b, env, depth),
    decreases raw,
{
    match raw {
        RawMcpBinding::Input(p) => {
            lemma_shape_pointer(a, b, p@);
        },
        RawMcpBinding::Object(es) => {
            assert forall|i: int| 0 <= i < es@.len() implies mcp_binding_ok((#[trigger] es@[i]).1, a, env, depth + 1)
                == mcp_binding_ok(es@[i].1, b, env, depth + 1) by {
                assert(decreases_to!(raw => es));
                assert(decreases_to!(es => es@));
                assert(decreases_to!(es@ => es@[i]));
                assert(decreases_to!(es@[i] => es@[i].1));
                lemma_shape_mcp_binding(a, b, es@[i].1, env, depth + 1);
            }
        },
        RawMcpBinding::Array(xs) => {
            assert forall|i: int| 0 <= i < xs@.len() implies mcp_binding_ok(#[trigger] xs@[i], a, env, depth + 1)
                == mcp_binding_ok(xs@[i], b, env, depth + 1) by {
                assert(decreases_to!(raw => xs));
                assert(decreases_to!(xs => xs@));
                assert(decreases_to!(xs@ => xs@[i]));
                lemma_shape_mcp_binding(a, b, xs@[i], env, depth + 1);
            }
        },
        _ => {},
    }
}


/// Whether all command-line bindings are accepted depends only on the shape of
/// the schema.
pub proof fn lemma_shape_cli_bindings(a: CompiledSchema, b: CompiledSchema, argv: Seq<JsonValue>)
    requires
        same_shape(a, b),
    ensures
        (forall|i: int| 0 <= i < argv.len() ==> cli_binding_ok(#[trigger] argv[i], a))
            == (forall|i: int| 0 <= i < argv.len() ==> cli_binding_ok(#[trigger] argv[i], b)),
{
    assert forall|i: int| 0 <= i < argv.len() implies cli_binding_ok(#[trigger] argv[i], a) == cli_binding_ok(argv[i], b) by {
        lemma_shape_cli_binding(a, b, argv[i]);
    }
}

/// Whether the arguments of an upstream call are accepted depends only on the
/// shape of the schema.
pub proof fn lemma_shape_mcp_arguments(a: CompiledSchema, b: CompiledSchema, values: Seq<(String, RawMcpBinding)>, env: Seq<(String, String)>)
    requires
        same_shape(a, b),
    ensures
        mcp_arguments_ok(values, a, env) == mcp_arguments_ok(values, b, env),
{
    assert forall|i: int| 0 <= i < values.len() implies mcp_binding_ok((#[trigger] values[i]).1, a, env, 1)
        == mcp_binding_ok(values[i].1, b, env, 1) by {
        lemma_shape_mcp_binding(a, b, values[i].1, env, 1);
    }
}

/// The refusal of a command-line binding depends only on the shape of the
/// schema.
pub proof fn lemma_shape_cli_problem(a: CompiledSchema, b: CompiledSchema, v: JsonValue)
    requires
        same_shape(a, b),
    ensures
        cli_binding_problem(v, a) == cli_binding_problem(v, b),
{
    if let JsonValue::Object(e) = v {
        if e@.len() == 1 {
            if let JsonValue::Str(p) = e@[0].1 {
                lemma_shape_pointer(a, b, p@);
                if let Some(x) = schema_at_pointer_spec(a, p@) {
                    let y = schema_at_pointer_spec(b, p@)->0;
                    if let Some(ix) = x.items {
                        let iy = y.items->0;
                        assert(same_shape(*ix, *iy));
                        assert(ix.kind == iy.kind);
                    }
                }
            }
        }
    }
}

/// The first refused node of a command line depends only on the shape of the
/// schema.
pub proof fn lemma_shape_bindings_problem(a: CompiledSchema, b: CompiledSchema, values: Seq<JsonValue>, p: Seq<char>, i: int)
    requires
        same_shape(a, b),
    ensures
        bindings_problem(values, a, p, i) == bindings_problem(values, b, p, i),
    decreases values.len() - i,
{
    if 0 <= i < values.len() {
        lemma_shape_cli_problem(a, b, values[i]);
        lemma_shape_bindings_problem(a, b, values, p, i + 1);
    }
}

/// The first refused part of an upstream argument binding depends only on the
/// shape of the schema.
pub proof fn lemma_shape_mcp_problem(a: CompiledSchema, b: CompiledSchema, raw: RawMcpBinding, env: Seq<(String, String)>, depth: nat, p: Seq<char>)
    requires
        same_shape(a, b),
    ensures
        mcp_binding_problem(raw, a, env, depth, p) == mcp_binding_problem(raw, b, env, depth, p),
    decreases raw, 1int, 0int,
{
    if depth <= MAX_SCHEMA_DEPTH {
        match raw {
            RawMcpBinding::Input(q) => {
                lemma_shape_pointer(a, b, q@);
            },
            RawMcpBinding::Object(_) => lemma_shape_part_problem(a, b, raw, env, depth, p, 0),
            RawMcpBinding::Array(_) => lemma_shape_part_problem(a, b, raw, env, depth, p, 0),
            _ => {},
        }
    }
}

proof fn lemma_shape_part_problem(a: CompiledSchema, b: CompiledSchema, raw: RawMcpBinding, env: Seq<(String, String)>, depth: nat, p: Seq<char>, i: int)
    requires
        same_shape(a, b),
    ensures
        part_problem(raw, a, env, depth, p, i) == part_problem(raw, b, env, depth, p, i),
    decreases raw, 0int, (match raw {
        RawMcpBinding::Object(es) => es@.len() as int,
        RawMcpBinding::Array(xs) => xs@.len() as int,
        _ => 0,
    }) - i,
{
    match raw {
        RawMcpBinding::Object(es) => if 0 <= i < es@.len() {
            assert(decreases_to!(raw => es));
            assert(decreases_to!(es => es@));
            assert(decreases_to!(es@ => es@[i]));
            assert(decreases_to!(es@[i] => es@[i].1));
            lemma_shape_mcp_problem(a, b, es@[i].1, env, depth + 1, child_path(p, es@[i].0@));
            lemma_shape_part_problem(a, b, raw, env, depth, p, i + 1);
        },
        RawMcpBinding::Array(xs) => if 0 <= i < xs@.len() {
            assert(decreases_to!(raw => xs));
            assert(decreases_to!(xs => xs@));
            assert(decreases_to!(xs@ => xs@[i]));
            lemma_shape_mcp_problem(a, b, xs@[i], env, depth + 1, index_path(p, i));
            lemma_shape_part_problem(a, b, raw, env, depth, p, i + 1);
        },
        _ => {},
    }
}

/// The first refused top-level argument of an upstream call depends only on
/// the shape of the schema.
pub proof fn lemma_shape_arguments_problem(a: CompiledSchema, b: CompiledSchema, values: Seq<(String, RawMcpBinding)>, env: Seq<(String, String)>, p: Seq<char>, i: int)
    requires
        same_shape(a, b),
    ensures
        arguments_problem(values, a, env, p, i) == arguments_problem(values, b, env, p, i),
    decreases values.len() - i,
{
    if 0 <= i < values.len() {
        lemma_shape_mcp_problem(a, b, values[i].1, env, 1, child_path(p, values[i].0@));
        lemma_shape_arguments_problem(a, b, values, env, p, i + 1);
    }
}

} // verus!
