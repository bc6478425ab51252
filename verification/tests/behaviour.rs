use mcp_boundary::admin::{diagnostic_value, static_path_checks};
use mcp_boundary::binding::{compile_mcp_binding, RawMcpBinding};
use mcp_boundary::catalog::tools_json;
use mcp_boundary::codes::{BrokerErrorCode, Diagnostic};
use mcp_boundary::config::{
    parse_config, validate_environment, validate_limits, OutputKind, RawAnnotations, RawCliInvoke,
    RawConfig, RawEnvironment, RawInvoke, RawOutput, RawServer, RawServerLimits, RawTarget,
    RawTargetLimits, RawTargetTransport, RawTool, RawTransport, ValidatedConfig,
};
use mcp_boundary::debug::DebugCall;
use mcp_boundary::json::{canonicalize, JsonFloat, JsonNumber, JsonValue};
use mcp_boundary::protocol::{
    add_revision_fields, cancel_notification, dispatch, execution_response, frame_chunk, frame_end,
    is_legacy_initialize, is_modern_discovery, jsonrpc_error, jsonrpc_result, tool_error_result,
    tool_request, validate_envelope, validate_params, BoundedMessage, Dispatch, FrameState,
    PublicRevision,
};
use mcp_boundary::resolve::{resolve_cli, value_to_arg};
use mcp_boundary::text::{decode_ptr, escape_ptr, join_key};
use mcp_boundary::runtime::{
    adapt_result, after_discovery, call_error_to_runtime, classify_reply, cli_exit_outcome, cli_json_outcome,
    cli_json_value, cli_text_outcome, next_request_id,
    frame_refusal, reader_error, request_refusal, request_within_limits, settle_termination, termination_code, upstream_reply, ExecutionResult, McpCallError,
    Negotiation, ReadError, Runtime, RuntimeError, UPSTREAM_MESSAGE_BYTES,
};
use mcp_boundary::validate::validate_input;

fn st(x: &str) -> JsonValue {
    JsonValue::Str(x.to_string())
}

fn num(n: i64) -> JsonValue {
    if n >= 0 {
        JsonValue::Number(JsonNumber::PosInt(n as u64))
    } else {
        JsonValue::Number(JsonNumber::NegInt(n))
    }
}

fn obj(entries: Vec<(&str, JsonValue)>) -> JsonValue {
    let mut es: Vec<(String, JsonValue)> = entries.into_iter().map(|(k, v)| (k.to_string(), v)).collect();
    es.sort_by(|a, b| a.0.cmp(&b.0));
    JsonValue::Object(es)
}

fn arr(xs: Vec<JsonValue>) -> JsonValue {
    JsonValue::Array(xs)
}

fn keys(v: &JsonValue) -> Vec<String> {
    match v {
        JsonValue::Object(es) => es.iter().map(|e| e.0.clone()).collect(),
        _ => panic!("not an object"),
    }
}

fn member<'a>(v: &'a JsonValue, key: &str) -> &'a JsonValue {
    match v {
        JsonValue::Object(es) => &es.iter().find(|e| e.0 == key).expect("member").1,
        _ => panic!("not an object"),
    }
}

fn text_of(v: &JsonValue) -> String {
    match v {
        JsonValue::Str(s) => s.clone(),
        _ => panic!("not a string"),
    }
}

fn no_environment() -> RawEnvironment {
    RawEnvironment { inherit: Vec::new(), set: Vec::new() }
}

fn cli_config(schema: JsonValue, argv: Vec<JsonValue>) -> RawConfig {
    RawConfig {
        version: 1,
        server: RawServer {
            name: String::from("test"),
            transport: RawTransport { kind: String::from("stdio") },
            limits: RawServerLimits::default(),
        },
        targets: vec![(
            String::from("fake"),
            RawTarget {
                kind: String::from("cli"),
                executable: Some(String::from("/bin/echo")),
                transport: None,
                cwd: Some(String::from("/work")),
                environment: no_environment(),
                limits: RawTargetLimits { timeout_ms: 1000, stdout_bytes: Some(1024), output_bytes: None, stderr_bytes: 1024 },
            },
        )],
        tools: vec![(
            String::from("read"),
            RawTool {
                title: Some(String::from("Read")),
                description: None,
                annotations: RawAnnotations {
                    read_only_hint: Some(true),
                    destructive_hint: Some(false),
                    idempotent_hint: None,
                    open_world_hint: None,
                },
                input_schema: schema,
                invoke: RawInvoke { target: String::from("fake"), cli: Some(RawCliInvoke { argv }), mcp: None },
                output: RawOutput { kind: String::from("text") },
            },
        )],
    }
}

fn name_schema(property: JsonValue) -> JsonValue {
    obj(vec![
        ("type", st("object")),
        ("properties", obj(vec![("name", property)])),
        ("required", arr(vec![st("name")])),
        ("additionalProperties", JsonValue::Bool(false)),
    ])
}

fn adopted(property: JsonValue, argv: Vec<JsonValue>) -> ValidatedConfig {
    parse_config("test", 0, cli_config(name_schema(property), argv), &Vec::new()).unwrap()
}

fn input(p: &str) -> JsonValue {
    obj(vec![("input", st(p))])
}

fn each(p: &str) -> JsonValue {
    obj(vec![("each", st(p))])
}

// ---------------------------------------------------------------------------
// Adoption and resolution.

#[test]
fn valid_input_resolves_and_only_nul_can_stop_it() {
    let config = adopted(obj(vec![("type", st("string"))]), vec![input("/name")]);
    let ok = resolve_cli(&config, "read", &obj(vec![("name", st("a;b $(c)"))])).unwrap();
    assert_eq!(ok.argv, vec![String::from("a;b $(c)")]);
    let nul = resolve_cli(&config, "read", &obj(vec![("name", st("bad\u{0}value"))]));
    let error = nul.err().unwrap();
    assert_eq!(error.code, BrokerErrorCode::InvalidArguments);
    assert_eq!(error.message, "argument contains NUL");
}

#[test]
fn each_binding_spreads_array_items_in_order() {
    let config = adopted(
        obj(vec![("type", st("array")), ("items", obj(vec![("type", st("integer"))]))]),
        vec![obj(vec![("literal", st("--fields"))]), each("/name")],
    );
    let r = resolve_cli(&config, "read", &obj(vec![("name", arr(vec![num(3), num(-5), num(0)]))])).unwrap();
    assert_eq!(r.argv, vec!["--fields", "3", "-5", "0"]);
}

#[test]
fn unknown_property_is_rejected_with_its_path() {
    let config = adopted(obj(vec![("type", st("string"))]), vec![input("/name")]);
    let error = resolve_cli(&config, "read", &obj(vec![("name", st("x")), ("a/b", num(1))])).err().unwrap();
    assert_eq!(error.path, "/a~1b");
    assert_eq!(error.message, "additionalProperties:false");
}

#[test]
fn first_issue_is_reported_for_missing_property() {
    let config = adopted(obj(vec![("type", st("string"))]), vec![input("/name")]);
    let error = resolve_cli(&config, "read", &obj(vec![])).err().unwrap();
    assert_eq!(error.path, "/name");
    assert_eq!(error.message, "required");
    let wrong_type = resolve_cli(&config, "read", &num(1)).err().unwrap();
    assert_eq!(wrong_type.path, "");
    assert_eq!(wrong_type.message, "type:Object");
}

#[test]
fn unknown_tool_is_rejected() {
    let config = adopted(obj(vec![("type", st("string"))]), vec![input("/name")]);
    let error = resolve_cli(&config, "missing", &obj(vec![("name", st("x"))])).err().unwrap();
    assert_eq!(error.path, "/tool");
    assert_eq!(error.message, "unknown tool");
}

#[test]
fn fixed_context_is_the_same_for_different_inputs() {
    let config = adopted(obj(vec![("type", st("string"))]), vec![input("/name")]);
    let a = resolve_cli(&config, "read", &obj(vec![("name", st("one"))])).unwrap();
    let b = resolve_cli(&config, "read", &obj(vec![("name", st("two"))])).unwrap();
    assert_eq!(a.target_id, b.target_id);
    assert_eq!(a.executable, "/bin/echo");
    assert_eq!(b.executable, "/bin/echo");
    assert_eq!(a.cwd, "/work");
    assert_eq!(a.cwd, b.cwd);
    assert_eq!(a.limits, b.limits);
    assert_eq!(a.output_kind, OutputKind::Text);
    assert_ne!(a.argv, b.argv);
}

#[test]
fn pattern_is_checked_by_the_regex_engine() {
    let config = adopted(obj(vec![("type", st("string")), ("pattern", st("^[a-z]+$"))]), vec![input("/name")]);
    assert!(resolve_cli(&config, "read", &obj(vec![("name", st("abc"))])).is_ok());
    let error = resolve_cli(&config, "read", &obj(vec![("name", st("ABC"))])).err().unwrap();
    assert_eq!(error.message, "pattern");
}

#[test]
fn string_lengths_count_characters_and_bytes() {
    let config = adopted(obj(vec![("type", st("string")), ("maxLength", num(2))]), vec![input("/name")]);
    assert!(resolve_cli(&config, "read", &obj(vec![("name", st("éé"))])).is_ok());
    assert!(resolve_cli(&config, "read", &obj(vec![("name", st("ééé"))])).is_err());
}

#[test]
fn catalog_lists_hints_and_title_in_key_order() {
    let config = adopted(obj(vec![("type", st("string"))]), vec![input("/name")]);
    let catalog = tools_json(&config);
    let tools = member(&catalog, "tools");
    let entry = match tools {
        JsonValue::Array(items) => &items[0],
        _ => panic!("tools must be an array"),
    };
    assert_eq!(keys(entry), vec!["annotations", "inputSchema", "name", "title"]);
    assert_eq!(keys(member(entry, "annotations")), vec!["destructiveHint", "readOnlyHint"]);
    assert_eq!(text_of(member(entry, "name")), "read");
    assert_eq!(text_of(member(entry, "title")), "Read");
}

#[test]
fn adoption_refuses_each_invalid_part() {
    let mut wrong_version = cli_config(name_schema(obj(vec![("type", st("string"))])), vec![input("/name")]);
    wrong_version.version = 2;
    assert_eq!(parse_config("test", 0, wrong_version, &Vec::new()).err().unwrap().path, "/version");

    let mut unknown_target = cli_config(name_schema(obj(vec![("type", st("string"))])), vec![input("/name")]);
    unknown_target.tools[0].1.invoke.target = String::from("other");
    assert_eq!(
        parse_config("test", 0, unknown_target, &Vec::new()).err().unwrap().path,
        "/tools/read/invoke/target"
    );

    let mut relative = cli_config(name_schema(obj(vec![("type", st("string"))])), vec![input("/name")]);
    relative.targets[0].1.executable = Some(String::from("bin/echo"));
    assert_eq!(parse_config("test", 0, relative, &Vec::new()).err().unwrap().path, "/targets/fake/executable");

    let mut not_scalar = cli_config(name_schema(obj(vec![("type", st("boolean"))])), vec![input("/name")]);
    not_scalar.tools[0].1.output.kind = String::from("text");
    assert_eq!(parse_config("test", 0, not_scalar, &Vec::new()).err().unwrap().message, "input binding requires scalar");

    let too_big = cli_config(name_schema(obj(vec![("type", st("string"))])), vec![input("/name")]);
    let error = parse_config("test", 1048577, too_big, &Vec::new()).err().unwrap();
    assert_eq!(error.path, "");
    assert_eq!(error.message, "configuration exceeds 1 MiB");
}

#[test]
fn limits_accept_their_bounds_and_refuse_one_beyond() {
    let ok = RawTargetLimits { timeout_ms: 300000, stdout_bytes: Some(16777216), output_bytes: None, stderr_bytes: 1048576 };
    assert!(validate_limits(&ok, "/l", false).is_ok());
    let zero_timeout = RawTargetLimits { timeout_ms: 0, stdout_bytes: Some(1), output_bytes: None, stderr_bytes: 1 };
    assert_eq!(validate_limits(&zero_timeout, "/l", false).err().unwrap().path, "/l/timeout_ms");
    let missing = RawTargetLimits { timeout_ms: 1, stdout_bytes: None, output_bytes: None, stderr_bytes: 1 };
    assert_eq!(validate_limits(&missing, "/l", true).err().unwrap().path, "/l/output_bytes");
    let zero_stderr = RawTargetLimits { timeout_ms: 1, stdout_bytes: None, output_bytes: Some(1), stderr_bytes: 0 };
    assert_eq!(validate_limits(&zero_stderr, "/l", true).err().unwrap().path, "/l/stderr_bytes");
}

#[test]
fn an_out_of_range_output_limit_is_reported_at_its_own_field() {
    let mcp = RawTargetLimits { timeout_ms: 1000, stdout_bytes: None, output_bytes: Some(0), stderr_bytes: 1024 };
    let d = validate_limits(&mcp, "/targets/up/limits", true).err().unwrap();
    assert_eq!(d.path, "/targets/up/limits/output_bytes");
    assert_eq!(d.message, "must be 1..16777216");
    let cli = RawTargetLimits { timeout_ms: 1000, stdout_bytes: Some(16777217), output_bytes: None, stderr_bytes: 1024 };
    let d = validate_limits(&cli, "/targets/fake/limits", false).err().unwrap();
    assert_eq!(d.path, "/targets/fake/limits/stdout_bytes");
}

#[test]
fn inherited_environment_is_sorted_and_captured() {
    let current = vec![(String::from("A"), String::from("1")), (String::from("B"), String::from("2"))];
    let raw = RawEnvironment { inherit: vec![String::from("B"), String::from("A")], set: vec![(String::from("C"), String::from("3"))] };
    let e = validate_environment(raw, &current, "/env").unwrap();
    assert_eq!(e.inherit, vec!["A", "B"]);
    assert_eq!(e.inherited_values, vec![(String::from("A"), String::from("1")), (String::from("B"), String::from("2"))]);
    assert_eq!(e.describe(), "EnvironmentSpec { inherit: [\"A\", \"B\"], inherited_names: [\"A\", \"B\"], set_names: [\"C\"] }");

    let duplicate = RawEnvironment { inherit: vec![String::from("A"), String::from("A")], set: Vec::new() };
    assert_eq!(validate_environment(duplicate, &current, "/env").err().unwrap().message, "duplicate environment source");
    let also_set = RawEnvironment { inherit: vec![String::from("A")], set: vec![(String::from("A"), String::from("x"))] };
    assert_eq!(validate_environment(also_set, &current, "/env").err().unwrap().message, "duplicate environment source");
    let absent = RawEnvironment { inherit: vec![String::from("Z")], set: Vec::new() };
    assert_eq!(validate_environment(absent, &current, "/env").err().unwrap().message, "inherited variable is not present");
    let nul = RawEnvironment { inherit: Vec::new(), set: vec![(String::from("X"), String::from("a\u{0}"))] };
    assert_eq!(validate_environment(nul, &current, "/env").err().unwrap().message, "environment value contains NUL");
}

#[test]
fn child_environment_names_are_the_inherited_and_fixed_names() {
    let current = vec![
        (String::from("HOME"), String::from("/h")),
        (String::from("PATH"), String::from("/bin")),
        (String::from("OTHER"), String::from("unused")),
    ];
    let raw = RawEnvironment {
        inherit: vec![String::from("PATH"), String::from("HOME")],
        set: vec![(String::from("TOKEN"), String::from("t")), (String::from("MODE"), String::from("m"))],
    };
    let e = validate_environment(raw, &current, "/env").unwrap();
    let mut names: Vec<String> = e.inherited_values.iter().map(|(n, _)| n.clone()).collect();
    names.extend(e.set.iter().map(|(n, _)| n.clone()));
    names.sort();
    assert_eq!(names, vec!["HOME", "MODE", "PATH", "TOKEN"]);
    assert!(!names.contains(&String::from("OTHER")));
}

#[test]
fn resolving_twice_gives_the_same_command_line() {
    let config = adopted(obj(vec![("type", st("string"))]), vec![input("/name")]);
    let call = obj(vec![("name", st("one"))]);
    let a = resolve_cli(&config, "read", &call).unwrap();
    let b = resolve_cli(&config, "read", &call).unwrap();
    assert_eq!(a.argv, b.argv);
    assert_eq!(a.argv, vec!["one"]);
    let bad = obj(vec![("name", num(3))]);
    let first = resolve_cli(&config, "read", &bad).err().unwrap();
    let second = resolve_cli(&config, "read", &bad).err().unwrap();
    assert_eq!(first.code, BrokerErrorCode::InvalidArguments);
    assert_eq!(first.code, second.code);
    assert_eq!(first.path, second.path);
}

#[test]
fn mcp_bindings_refuse_absent_environment_and_nul_literals() {
    let config = adopted(obj(vec![("type", st("string"))]), vec![input("/name")]);
    let schema = &config.tools[0].1.schema;
    let env = vec![(String::from("TOKEN"), String::from("x"))];
    assert!(compile_mcp_binding(&RawMcpBinding::Environment(String::from("TOKEN")), schema, "/b", &env, 1).is_ok());
    assert!(compile_mcp_binding(&RawMcpBinding::Environment(String::from("OTHER")), schema, "/b", &env, 1).is_err());
    assert!(compile_mcp_binding(&RawMcpBinding::Literal(st("a\u{0}")), schema, "/b", &env, 1).is_err());
    assert!(compile_mcp_binding(&RawMcpBinding::Input(String::from("/missing")), schema, "/b", &env, 1).is_err());
    assert!(compile_mcp_binding(&RawMcpBinding::Input(String::from("/name")), schema, "/b", &env, 1).is_ok());

    let nested = RawMcpBinding::Object(vec![
        (String::from("ok"), RawMcpBinding::Literal(st("fine"))),
        (
            String::from("a/b"),
            RawMcpBinding::Array(vec![
                RawMcpBinding::Environment(String::from("TOKEN")),
                RawMcpBinding::Environment(String::from("OTHER")),
            ]),
        ),
    ]);
    let refused = compile_mcp_binding(&nested, schema, "/b", &env, 1).err().unwrap();
    assert_eq!(refused.path, "/b/a~1b/1");
    assert_eq!(refused.message, "environment variable is not present");
    let bad_name = compile_mcp_binding(&RawMcpBinding::Environment(String::from("1X")), schema, "/b", &env, 1).err().unwrap();
    assert_eq!(bad_name.message, "invalid environment variable name");
}

#[test]
fn values_render_as_arguments() {
    assert_eq!(value_to_arg(&num(42)).unwrap(), "42");
    assert_eq!(value_to_arg(&num(-7)).unwrap(), "-7");
    assert_eq!(value_to_arg(&st("x y")).unwrap(), "x y");
    assert_eq!(value_to_arg(&JsonValue::Bool(true)).err().unwrap().message, "binding requires scalar string or number");
    let half = JsonValue::Number(JsonNumber::Float(JsonFloat { negative: false, mantissa: 1, exponent: -1, text: String::from("0.5") }));
    assert_eq!(value_to_arg(&half).unwrap(), "0.5");
}

#[test]
fn canonical_form_writes_zero_as_integer() {
    let negative_zero = JsonValue::Number(JsonNumber::Float(JsonFloat { negative: true, mantissa: 0, exponent: 0, text: String::from("-0.0") }));
    let c = canonicalize(arr(vec![negative_zero, num(5)]));
    match c {
        JsonValue::Array(items) => {
            assert!(matches!(items[0], JsonValue::Number(JsonNumber::PosInt(0))));
            assert!(matches!(items[1], JsonValue::Number(JsonNumber::PosInt(5))));
        }
        _ => panic!("array expected"),
    }
}

// ---------------------------------------------------------------------------
// The public protocol.

fn request(entries: Vec<(&str, JsonValue)>) -> JsonValue {
    obj(entries)
}

#[test]
fn envelope_errors_are_reported_in_order() {
    assert_eq!(validate_envelope(&num(1)), Some("request must be an object"));
    assert_eq!(validate_envelope(&request(vec![("extra", num(1))])), Some("unknown JSON-RPC envelope field"));
    assert_eq!(validate_envelope(&request(vec![("jsonrpc", st("1.0"))])), Some("jsonrpc must be exactly 2.0"));
    assert_eq!(validate_envelope(&request(vec![("jsonrpc", st("2.0"))])), Some("method is required"));
    assert_eq!(
        validate_envelope(&request(vec![("jsonrpc", st("2.0")), ("method", st("m")), ("id", arr(vec![]))])),
        Some("id must be a string, number, or null")
    );
    assert_eq!(
        validate_envelope(&request(vec![("jsonrpc", st("2.0")), ("method", st("m")), ("params", num(1))])),
        Some("params must be an object")
    );
    assert_eq!(validate_envelope(&request(vec![("jsonrpc", st("2.0")), ("method", st("m")), ("id", JsonValue::Null)])), None);
}

#[test]
fn method_parameters_are_checked() {
    assert_eq!(validate_params("tools/call", &obj(vec![("cursor", st("x"))])), Some("unknown method parameter"));
    assert_eq!(validate_params("initialize", &obj(vec![("protocolVersion", num(1))])), Some("invalid initialize parameters"));
    assert_eq!(validate_params("tools/list", &obj(vec![("cursor", num(1))])), Some("cursor must be a string"));
    assert_eq!(validate_params("tools/call", &obj(vec![("name", num(1))])), Some("tool name must be a string"));
    assert_eq!(validate_params("tools/call", &obj(vec![("name", st("t")), ("arguments", num(1))])), Some("tool arguments must be an object"));
    assert_eq!(validate_params("tools/call", &obj(vec![("name", st("t")), ("_meta", obj(vec![]))])), None);
}

fn call(name: &str) -> JsonValue {
    request(vec![
        ("jsonrpc", st("2.0")),
        ("id", num(7)),
        ("method", st("tools/call")),
        ("params", obj(vec![("name", st(name)), ("arguments", obj(vec![("name", st("v"))]))])),
    ])
}

#[test]
fn dispatch_decides_each_method() {
    let config = adopted(obj(vec![("type", st("string"))]), vec![input("/name")]);
    let init = |v: Option<&str>, id: bool| {
        let mut params = Vec::new();
        if let Some(v) = v {
            params.push(("protocolVersion", st(v)));
        }
        let mut entries = vec![("jsonrpc", st("2.0")), ("method", st("initialize")), ("params", obj(params))];
        if id {
            entries.push(("id", num(1)));
        }
        request(entries)
    };
    assert!(matches!(dispatch(&config, &init(None, true), false), Dispatch::Initialize(PublicRevision::Legacy)));
    assert!(matches!(dispatch(&config, &init(Some("2026-07-28"), true), false), Dispatch::Initialize(PublicRevision::Modern)));
    assert!(matches!(dispatch(&config, &init(Some("1999-01-01"), true), false), Dispatch::Reject("unsupported protocol version")));
    assert!(matches!(dispatch(&config, &init(None, false), false), Dispatch::Reject("initialize requires an id")));

    match dispatch(&config, &call("read"), false) {
        Dispatch::Call { name, arguments, mcp } => {
            assert_eq!(name, "read");
            assert!(!mcp);
            assert_eq!(keys(&arguments), vec!["name"]);
        }
        _ => panic!("call expected"),
    }
    assert!(matches!(dispatch(&config, &call("read"), true), Dispatch::ShuttingDown));
    assert!(matches!(dispatch(&config, &call("other"), false), Dispatch::Reject("unknown tool")));

    let list_with_cursor = request(vec![
        ("jsonrpc", st("2.0")),
        ("id", num(2)),
        ("method", st("tools/list")),
        ("params", obj(vec![("cursor", st("c"))])),
    ]);
    assert!(matches!(dispatch(&config, &list_with_cursor, false), Dispatch::Reject("pagination is unsupported")));
    let list = request(vec![("jsonrpc", st("2.0")), ("id", num(2)), ("method", st("tools/list"))]);
    assert!(matches!(dispatch(&config, &list, false), Dispatch::ListTools));
    let notified = request(vec![("jsonrpc", st("2.0")), ("id", num(3)), ("method", st("notifications/initialized"))]);
    assert!(matches!(dispatch(&config, &notified, false), Dispatch::Reject("notification must not have an id")));
    let other = request(vec![("jsonrpc", st("2.0")), ("id", num(3)), ("method", st("resources/list"))]);
    assert!(matches!(dispatch(&config, &other, false), Dispatch::Reject("unsupported method")));
}

#[test]
fn tool_errors_and_results_follow_the_revision() {
    let modern = tool_error_result("TARGET_FAILED", "target failed", PublicRevision::Modern);
    assert_eq!(keys(&modern), vec!["content", "isError", "resultType"]);
    let block = match member(&modern, "content") {
        JsonValue::Array(b) => &b[0],
        _ => panic!("content must be an array"),
    };
    assert_eq!(text_of(member(block, "text")), "TARGET_FAILED: target failed");
    let legacy = tool_error_result("TARGET_FAILED", "target failed", PublicRevision::Legacy);
    assert_eq!(keys(&legacy), vec!["content", "isError"]);

    let stripped = add_revision_fields(obj(vec![("resultType", st("complete")), ("x", num(1))]), PublicRevision::Legacy);
    assert_eq!(keys(&stripped), vec!["x"]);

    let ran = ExecutionResult {
        code: BrokerErrorCode::TargetFailed,
        is_error: false,
        text: Some(String::from("hello")),
        text_blocks: Vec::new(),
        structured: Some(obj(vec![("a", num(2))])),
    };
    let response = execution_response(ran, PublicRevision::Modern);
    assert_eq!(keys(&response), vec!["content", "isError", "resultType", "structuredContent"]);

    let failed = ExecutionResult { code: BrokerErrorCode::TargetFailed, is_error: true, text: None, text_blocks: Vec::new(), structured: None };
    let response = execution_response(failed, PublicRevision::Legacy);
    let block = match member(&response, "content") {
        JsonValue::Array(b) => &b[0],
        _ => panic!("content must be an array"),
    };
    assert_eq!(text_of(member(block, "text")), "TARGET_FAILED: target failed");
}

#[test]
fn json_rpc_envelopes_have_fixed_shapes() {
    let r = jsonrpc_result(Some(num(4)), obj(vec![]));
    assert_eq!(keys(&r), vec!["id", "jsonrpc", "result"]);
    let e = jsonrpc_error(None, "INVALID_ARGUMENTS", "bad");
    assert_eq!(keys(&e), vec!["error", "id", "jsonrpc"]);
    assert!(matches!(member(&e, "id"), JsonValue::Null));
    assert_eq!(text_of(member(member(&e, "error"), "code")), "INVALID_ARGUMENTS");

    let t = tool_request(9, "fixed", obj(vec![]));
    assert_eq!(keys(&t), vec!["id", "jsonrpc", "method", "params"]);
    assert_eq!(keys(member(&t, "params")), vec!["arguments", "name"]);
    let c = cancel_notification(9);
    assert_eq!(keys(member(&c, "params")), vec!["reason", "requestId"]);
}

#[test]
fn messages_are_framed_by_newlines_within_the_limit() {
    let mut state = FrameState::new();
    let (used, done) = frame_chunk(&mut state, b"ab\r\ncd", 10);
    assert_eq!(used, 4);
    match done {
        Some(BoundedMessage::Complete(m)) => assert_eq!(m, b"ab".to_vec()),
        _ => panic!("complete message expected"),
    }

    let mut state = FrameState::new();
    let (used, done) = frame_chunk(&mut state, b"abc", 10);
    assert_eq!(used, 3);
    assert!(done.is_none());
    let (used, done) = frame_chunk(&mut state, b"d\nrest", 10);
    assert_eq!(used, 2);
    match done {
        Some(BoundedMessage::Complete(m)) => assert_eq!(m, b"abcd".to_vec()),
        _ => panic!("complete message expected"),
    }

    let mut state = FrameState::new();
    let (used, done) = frame_chunk(&mut state, b"abcdef", 5);
    assert_eq!(used, 6);
    assert!(matches!(done, Some(BoundedMessage::TooLarge)));

    let mut state = FrameState::new();
    let _ = frame_chunk(&mut state, b"xyz", 5);
    assert!(matches!(frame_end(state), Some(BoundedMessage::Complete(m)) if m == b"xyz".to_vec()));
    assert!(frame_end(FrameState::new()).is_none());
}

// ---------------------------------------------------------------------------
// Upstream results.

fn text_block(t: &str) -> JsonValue {
    obj(vec![("type", st("text")), ("text", st(t))])
}

#[test]
fn upstream_results_are_adapted_to_the_output_kind() {
    let ok = obj(vec![("content", arr(vec![text_block("a"), text_block("b")]))]);
    let r = adapt_result(ok, OutputKind::Text, 100, 0).unwrap();
    assert_eq!(r.text, Some(String::from("a\nb")));
    assert_eq!(r.text_blocks, vec!["a", "b"]);
    assert!(!r.is_error);

    let image = obj(vec![("content", arr(vec![obj(vec![("type", st("image"))])]))]);
    assert!(matches!(adapt_result(image, OutputKind::Text, 100, 0), Err(McpCallError::Output)));

    let structured_for_text = obj(vec![("content", arr(vec![text_block("a")])), ("structuredContent", obj(vec![]))]);
    assert!(matches!(adapt_result(structured_for_text, OutputKind::Text, 100, 2), Err(McpCallError::Output)));

    let no_structured = obj(vec![("content", arr(vec![text_block("a")]))]);
    assert!(matches!(adapt_result(no_structured, OutputKind::Structured, 100, 0), Err(McpCallError::Output)));

    let big = obj(vec![("content", arr(vec![text_block("abcdef")])), ("structuredContent", obj(vec![]))]);
    assert!(matches!(adapt_result(big, OutputKind::Structured, 7, 2), Err(McpCallError::MessageLimit)));

    let error = obj(vec![("isError", JsonValue::Bool(true)), ("content", arr(vec![text_block("secret")]))]);
    let r = adapt_result(error, OutputKind::Text, 100, 0).unwrap();
    assert!(r.is_error);
    assert!(r.text.is_none());
}

#[test]
fn upstream_replies_are_correlated() {
    let note = obj(vec![("jsonrpc", st("2.0")), ("method", st("notifications/progress"))]);
    assert!(classify_reply(&note, 3).is_none());
    let wrong_id = obj(vec![("jsonrpc", st("2.0")), ("id", num(4)), ("result", obj(vec![]))]);
    assert!(matches!(classify_reply(&wrong_id, 3), Some(Err(McpCallError::Protocol))));
    let remote = obj(vec![("jsonrpc", st("2.0")), ("id", num(3)), ("error", obj(vec![("code", num(-1))]))]);
    assert!(matches!(classify_reply(&remote, 3), Some(Err(McpCallError::RemoteError))));
    let result = obj(vec![("jsonrpc", st("2.0")), ("id", num(3)), ("result", obj(vec![("x", num(1))]))]);
    assert!(matches!(classify_reply(&result, 3), Some(Ok(_))));

    assert!(matches!(after_discovery(Ok(obj(vec![("protocolVersion", st("2026-07-28"))]))), Negotiation::Modern));
    assert!(matches!(after_discovery(Err(McpCallError::RemoteError)), Negotiation::Legacy { restart: false, id: 2 }));
    assert!(matches!(after_discovery(Err(McpCallError::ConnectionClosed)), Negotiation::Legacy { restart: true, id: 1 }));
    assert!(matches!(after_discovery(Err(McpCallError::Output)), Negotiation::Fail(McpCallError::Output)));
    assert!(is_modern_discovery(&obj(vec![("protocolVersions", arr(vec![st("2025-11-25"), st("2026-07-28")]))])));
    assert!(is_legacy_initialize(&obj(vec![("protocolVersion", st("2025-11-25"))])));
    assert_eq!(next_request_id(u64::MAX), u64::MAX);
    assert_eq!(next_request_id(2), 3);
}

#[test]
fn runtime_errors_have_stable_codes() {
    assert_eq!(reader_error(&ReadError::LimitExceeded).code, BrokerErrorCode::OutputLimitExceeded);
    assert_eq!(reader_error(&ReadError::Io).code, BrokerErrorCode::TargetFailed);
    assert_eq!(call_error_to_runtime(McpCallError::StderrOverflow).code, BrokerErrorCode::OutputLimitExceeded);
    assert_eq!(call_error_to_runtime(McpCallError::Output).code, BrokerErrorCode::InvalidTargetOutput);
    assert_eq!(Runtime::new().unavailable(), BrokerErrorCode::TargetUnavailable);
    assert_eq!(BrokerErrorCode::ServerBusy.as_str(), "SERVER_BUSY");
}

#[test]
fn request_limits_bound_depth_strings_and_arrays() {
    let nested = arr(vec![arr(vec![num(1)])]);
    assert!(request_within_limits(&nested, 1, 3));
    assert!(!request_within_limits(&nested, 1, 2));
    assert!(!request_within_limits(&st(&"x".repeat(262145)), 1, 32));
    assert!(!request_within_limits(&arr((0..1025).map(num).collect()), 1, 32));
}

#[test]
fn nested_call_arguments_count_toward_the_request_depth() {
    let deep = obj(vec![("nested", obj(vec![("too_deep", JsonValue::Bool(true))]))]);
    let request = obj(vec![
        ("jsonrpc", st("2.0")),
        ("id", num(1)),
        ("method", st("tools/call")),
        ("params", obj(vec![("name", st("inspect")), ("arguments", obj(vec![("value", deep)]))])),
    ]);
    assert!(!request_within_limits(&request, 1, 4));
    assert!(!request_within_limits(&request, 1, 5));
    assert!(request_within_limits(&request, 1, 6));
}

// ---------------------------------------------------------------------------
// Operator output.

#[test]
fn call_events_are_due_once() {
    let mut call = DebugCall::begin(5, "read", Some("fake"));
    assert!(call.error(BrokerErrorCode::TargetFailed));
    assert!(!call.finish());
    assert_eq!(call.code, Some("TARGET_FAILED"));
    let event = call.event();
    assert_eq!(keys(&event), vec!["code", "correlation_id", "event", "outcome", "target", "tool"]);
    let mut inactive = DebugCall::inactive();
    assert!(!inactive.success());
}

#[test]
fn static_paths_and_diagnostics_are_listed_in_order() {
    let config = adopted(obj(vec![("type", st("string"))]), vec![input("/name")]);
    let checks = static_path_checks(&config);
    assert_eq!(checks.len(), 2);
    assert_eq!(checks[0].path, "/bin/echo");
    assert_eq!(checks[0].config_path, "/targets/fake/executable");
    assert!(checks[0].executable);
    assert_eq!(checks[1].config_path, "/targets/fake/cwd");
    assert!(!checks[1].executable);

    let d = Diagnostic::invalid("/x", "bad");
    let line = diagnostic_value("/etc/c.yaml", &d);
    assert_eq!(keys(&line), vec!["code", "config_path", "message", "path"]);
    assert_eq!(text_of(member(&line, "config_path")), "/etc/c.yaml");
}

#[test]
fn validation_accepts_exactly_the_schema() {
    let config = adopted(
        obj(vec![("type", st("integer")), ("minimum", num(-3)), ("maximum", num(3)), ("enum", arr(vec![num(-3), num(0), num(3)]))]),
        vec![input("/name")],
    );
    let schema = &config.tools[0].1.schema;
    assert!(validate_input(schema, &obj(vec![("name", num(0))])).is_ok());
    let issues = validate_input(schema, &obj(vec![("name", num(1))])).err().unwrap();
    assert_eq!(issues[0].constraint, "enum");
    let issues = validate_input(schema, &obj(vec![("name", num(9))])).err().unwrap();
    assert_eq!(issues[0].constraint, "enum");
    let issues = validate_input(schema, &obj(vec![("name", st("0"))])).err().unwrap();
    assert_eq!(issues[0].constraint, "type:Integer");
}

#[test]
fn joined_keys_decode_back_to_their_tokens() {
    let path = join_key("/a", "x/y~z");
    assert_eq!(path, "/a/x~1y~0z");
    assert_eq!(decode_ptr(&path), Some(vec![String::from("a"), String::from("x/y~z")]));
    assert_eq!(decode_ptr(&join_key("", "")), Some(vec![String::new()]));
    assert_eq!(escape_ptr("~/"), "~0~1");
    assert_eq!(decode_ptr("/~2"), None);
}

#[test]
fn command_line_runs_become_results_by_exit_and_output_kind() {
    let failed = cli_exit_outcome(false, OutputKind::Text).unwrap().unwrap();
    assert!(failed.is_error);
    assert_eq!(failed.code, BrokerErrorCode::TargetFailed);
    assert_eq!(failed.text, None);
    assert!(failed.text_blocks.is_empty());
    assert_eq!(cli_exit_outcome(true, OutputKind::Structured).unwrap().err().unwrap().code, BrokerErrorCode::InvalidTargetOutput);
    assert!(cli_exit_outcome(true, OutputKind::Json).is_none());

    let text = cli_text_outcome(Some(String::from("hello"))).unwrap();
    assert!(!text.is_error);
    assert_eq!(text.text, Some(String::from("hello")));
    assert_eq!(text.text_blocks, vec!["hello"]);
    assert_eq!(cli_text_outcome(None).err().unwrap().code, BrokerErrorCode::InvalidTargetOutput);

    assert_eq!(cli_json_value(None).err().unwrap().code, BrokerErrorCode::InvalidTargetOutput);
    let value = cli_json_value(Some(obj(vec![("b", num(1)), ("a", num(2))]))).unwrap();
    assert_eq!(keys(&value), vec!["a", "b"]);
    let json = cli_json_outcome(value, Some(String::from("{\"a\":2,\"b\":1}"))).unwrap();
    assert_eq!(json.text_blocks, vec!["{\"a\":2,\"b\":1}"]);
    assert!(json.structured.is_some());
    assert_eq!(cli_json_outcome(st("x"), None).err().unwrap().code, BrokerErrorCode::InvalidTargetOutput);
}

#[test]
fn every_issue_is_reported_in_order() {
    let config = adopted(obj(vec![("type", st("string")), ("minLength", num(3)), ("pattern", st("^x"))]), vec![input("/name")]);
    let schema = &config.tools[0].1.schema;
    let issues = validate_input(schema, &obj(vec![("name", st("ab")), ("x", num(1)), ("y", num(2))])).err().unwrap();
    let seen: Vec<(String, String)> = issues.iter().map(|i| (i.path.clone(), i.constraint.clone())).collect();
    assert_eq!(
        seen,
        vec![
            (String::from("/x"), String::from("additionalProperties:false")),
            (String::from("/y"), String::from("additionalProperties:false")),
            (String::from("/name"), String::from("minLength")),
            (String::from("/name"), String::from("pattern")),
        ]
    );
    let missing = validate_input(schema, &obj(vec![("z", num(1))])).err().unwrap();
    assert_eq!(missing[0].path, "/name");
    assert_eq!(missing[0].constraint, "required");
    assert_eq!(missing[1].path, "/z");
    assert_eq!(missing.len(), 2);
}

#[test]
fn configuration_description_names_but_never_shows_values() {
    let raw = RawEnvironment { inherit: Vec::new(), set: vec![(String::from("TOKEN"), String::from("secret-sentinel"))] };
    let mut config = adopted(obj(vec![("type", st("string"))]), vec![input("/name")]);
    config.server_environment = vec![(String::from("HOME"), String::from("home-sentinel"))];
    let described = config.describe();
    assert_eq!(
        described,
        "ValidatedConfig { server_name: \"test\", request_bytes: 1048576, json_depth: 32, target_ids: [\"fake\"], upstream_target_ids: [], tool_names: [\"read\"] }"
    );
    assert!(!described.contains("home-sentinel"));
    let e = validate_environment(raw, &Vec::new(), "/env").unwrap();
    assert!(!e.describe().contains("secret-sentinel"));
}

#[test]
fn refused_configurations_name_the_first_problem() {
    let strange = cli_config(name_schema(obj(vec![("type", st("strange"))])), vec![input("/name")]);
    let d = parse_config("test", 0, strange, &Vec::new()).err().unwrap();
    assert_eq!(d.path, "/tools/read/input_schema/properties/name/type");
    assert_eq!(d.message, "unsupported type");

    let unbound = cli_config(name_schema(obj(vec![("type", st("string"))])), vec![input("/other")]);
    let d = parse_config("test", 0, unbound, &Vec::new()).err().unwrap();
    assert_eq!(d.path, "/tools/read/invoke/cli/argv/0");
    assert_eq!(d.message, "input pointer does not reference schema");

    let mut slow = cli_config(name_schema(obj(vec![("type", st("string"))])), vec![input("/name")]);
    slow.targets[0].1.limits.timeout_ms = 0;
    let d = parse_config("test", 0, slow, &Vec::new()).err().unwrap();
    assert_eq!(d.path, "/targets/fake/limits/timeout_ms");
    assert_eq!(d.message, "must be 1..300000");

    let mut version = cli_config(name_schema(obj(vec![("type", st("string"))])), vec![input("/name")]);
    version.version = 2;
    let d = parse_config("test", 0, version, &Vec::new()).err().unwrap();
    assert_eq!(d.path, "/version");
    assert_eq!(d.message, "unsupported version");

    let big = cli_config(name_schema(obj(vec![("type", st("string"))])), vec![input("/name")]);
    let d = parse_config("test", 1048577, big, &Vec::new()).err().unwrap();
    assert_eq!(d.path, "");
    assert_eq!(d.message, "configuration exceeds 1 MiB");
}

#[test]
fn refusals_do_not_depend_on_environment_values() {
    let make = || {
        let mut raw = cli_config(name_schema(obj(vec![("type", st("string"))])), vec![input("/name")]);
        raw.targets[0].1.environment = RawEnvironment { inherit: vec![String::from("MISSING")], set: Vec::new() };
        raw
    };
    let first = parse_config("test", 0, make(), &vec![(String::from("HOME"), String::from("value-one"))]).err().unwrap();
    let second = parse_config("test", 0, make(), &vec![(String::from("HOME"), String::from("value-two"))]).err().unwrap();
    assert_eq!(first.path, "/targets/fake/environment");
    assert_eq!(first.message, "inherited variable is not present");
    assert_eq!(first.path, second.path);
    assert_eq!(first.message, second.message);
}

#[test]
fn command_line_invocations_need_a_command_line_target() {
    let mut raw = cli_config(name_schema(obj(vec![("type", st("string"))])), vec![obj(vec![("literal", st("x"))])]);
    raw.targets[0].1 = RawTarget {
        kind: String::from("mcp"),
        executable: None,
        transport: Some(RawTargetTransport {
            kind: String::from("stdio"),
            command: String::from("/bin/fake-mcp"),
            args: Vec::new(),
            cwd: String::from("/"),
            environment: no_environment(),
        }),
        cwd: None,
        environment: no_environment(),
        limits: RawTargetLimits { timeout_ms: 1000, stdout_bytes: None, output_bytes: Some(1024), stderr_bytes: 1024 },
    };
    raw.tools[0].1.output = RawOutput { kind: String::from("json") };
    let d = parse_config("test", 0, raw, &Vec::new()).err().unwrap();
    assert_eq!(d.code, BrokerErrorCode::InvalidArguments);
    assert_eq!(d.path, "/tools/read/invoke/cli");
    assert_eq!(d.message, "target is not cli");
}

#[test]
fn validation_reports_at_most_thirty_two_issues() {
    let config = adopted(obj(vec![("type", st("string"))]), vec![input("/name")]);
    let schema = &config.tools[0].1.schema;
    let names: Vec<String> = (0..40).map(|i| format!("k{:02}", i)).collect();
    let mut entries: Vec<(&str, JsonValue)> = names.iter().map(|n| (n.as_str(), num(1))).collect();
    entries.push(("name", st("x")));
    let issues = validate_input(schema, &obj(entries)).err().unwrap();
    assert_eq!(issues.len(), 32);
    assert_eq!(issues[0].path, "/k00");
    assert_eq!(issues[31].path, "/k31");
}

#[test]
fn diagnostics_render_as_one_line() {
    let d = Diagnostic::invalid("/tools/read", "unknown target");
    assert_eq!(d.render(), "INVALID_ARGUMENTS at /tools/read: unknown target");
    assert_eq!(Diagnostic::internal("", "stdin read failed").render(), "TARGET_FAILED at : stdin read failed");
}

#[test]
fn upstream_replies_are_framed_like_public_requests() {
    assert!(matches!(upstream_reply(BoundedMessage::TooLarge), Err(McpCallError::MessageLimit)));
    assert!(matches!(upstream_reply(BoundedMessage::Complete(Vec::new())), Err(McpCallError::Protocol)));
    match upstream_reply(BoundedMessage::Complete(b"{}".to_vec())) {
        Ok(bytes) => assert_eq!(bytes, b"{}".to_vec()),
        Err(_) => panic!("a non-empty frame is a reply"),
    }
    let mut state = FrameState::new();
    let (used, done) = frame_chunk(&mut state, b"{\"id\":1}\r\n", UPSTREAM_MESSAGE_BYTES);
    assert_eq!(used, 10);
    match done.map(upstream_reply) {
        Some(Ok(bytes)) => assert_eq!(bytes, b"{\"id\":1}".to_vec()),
        _ => panic!("one complete reply"),
    }
    let mut state = FrameState::new();
    let (_, done) = frame_chunk(&mut state, b"\r\n", UPSTREAM_MESSAGE_BYTES);
    assert!(matches!(done.map(upstream_reply), Some(Err(McpCallError::Protocol))));
    let long = vec![b'x'; UPSTREAM_MESSAGE_BYTES + 1];
    let mut state = FrameState::new();
    let (_, done) = frame_chunk(&mut state, &long, UPSTREAM_MESSAGE_BYTES);
    assert!(matches!(done.map(upstream_reply), Some(Err(McpCallError::MessageLimit))));
}

#[test]
fn simultaneous_termination_reasons_have_a_fixed_order() {
    assert_eq!(termination_code(true, true, true, true), Some(BrokerErrorCode::Cancelled));
    assert_eq!(termination_code(false, true, true, true), Some(BrokerErrorCode::OutputLimitExceeded));
    assert_eq!(termination_code(false, false, true, true), Some(BrokerErrorCode::TargetTimeout));
    assert_eq!(termination_code(false, false, false, true), Some(BrokerErrorCode::TargetFailed));
    assert_eq!(termination_code(false, false, false, false), None);
    assert_eq!(termination_code(true, false, false, false), Some(BrokerErrorCode::Cancelled));
}

#[test]
fn requests_are_refused_before_dispatch_for_each_reason() {
    let over = frame_refusal(&BoundedMessage::TooLarge, 100).unwrap();
    assert_eq!(over.code, BrokerErrorCode::InvalidArguments);
    assert_eq!(over.message, "request exceeds configured limit");
    assert!(over.stop);
    let long = frame_refusal(&BoundedMessage::Complete(vec![b'x'; 101]), 100).unwrap();
    assert_eq!(long.message, "request exceeds configured limit");
    assert!(!long.stop);
    assert!(frame_refusal(&BoundedMessage::Complete(vec![b'x'; 100]), 100).is_none());
    let garbage = request_refusal(None, 4).unwrap();
    assert_eq!(garbage.message, "invalid JSON request");
    assert!(!garbage.stop);
    let deep = arr(vec![arr(vec![arr(vec![])])]);
    let refused = request_refusal(Some(&deep), 2).unwrap();
    assert_eq!(refused.message, "request exceeds configured JSON limits");
    assert!(request_refusal(Some(&deep), 3).is_none());
}

#[test]
fn a_depth_limit_admits_every_larger_limit() {
    let deep = arr(vec![arr(vec![arr(vec![])])]);
    assert!(!request_within_limits(&deep, 1, 2));
    assert!(request_within_limits(&deep, 1, 3));
    assert!(request_within_limits(&deep, 1, 4));
    assert!(request_within_limits(&deep, 1, 32));
}

#[test]
fn a_run_ending_for_several_reasons_is_settled_in_order() {
    let out = || RuntimeError::new(BrokerErrorCode::OutputLimitExceeded, "output exceeded");
    let failed = || RuntimeError::new(BrokerErrorCode::TargetFailed, "target failed");
    assert_eq!(settle_termination(out(), true, true).code, BrokerErrorCode::Cancelled);
    assert_eq!(settle_termination(out(), false, true).code, BrokerErrorCode::OutputLimitExceeded);
    let late = settle_termination(failed(), false, true);
    assert_eq!(late.code, BrokerErrorCode::TargetTimeout);
    assert_eq!(late.message, "target timed out");
    assert_eq!(settle_termination(failed(), false, false).code, BrokerErrorCode::TargetFailed);
}

#[test]
fn an_event_is_reported_once_over_any_run() {
    let mut call = DebugCall::begin(9, "read", None);
    let dues = vec![
        call.rejected(BrokerErrorCode::InvalidArguments),
        call.success(),
        call.error(BrokerErrorCode::TargetTimeout),
        call.finish(),
    ];
    assert_eq!(dues.iter().filter(|d| **d).count(), 1);
    assert!(dues[0]);
    let mut inactive = DebugCall::inactive();
    let dues = vec![inactive.success(), inactive.rejected(BrokerErrorCode::Cancelled), inactive.finish()];
    assert_eq!(dues.iter().filter(|d| **d).count(), 0);
}
