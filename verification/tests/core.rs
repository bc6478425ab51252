use mcp_boundary::binding::{compile_mcp_binding, RawMcpBinding};
use mcp_boundary::catalog::tools_json;
use mcp_boundary::codes::{
    BrokerErrorCode, ConfigBytes, Diagnostic, MAX_CONFIG_BYTES, MAX_JSON_DEPTH, MAX_SCHEMA_DEPTH,
    MAX_STRING_BYTES,
};
use mcp_boundary::config::{
    parse_config, RawAnnotations, RawCliInvoke, RawConfig, RawEnvironment, RawInvoke,
    RawMcpInvoke, RawOutput, RawServer, RawServerLimits, RawTarget, RawTargetLimits,
    RawTargetTransport, RawTool, RawTransport, ValidatedConfig,
};
use mcp_boundary::json::{JsonFloat, JsonNumber, JsonValue};
use mcp_boundary::resolve::{resolve_cli, resolve_mcp};
use mcp_boundary::schema::compile_schema;
use mcp_boundary::validate::validate_input;

// ---------------------------------------------------------------------------
// JSON values, with object keys in key order as a JSON map holds them.

fn st(x: &str) -> JsonValue {
    JsonValue::Str(x.to_string())
}

fn num(n: i64) -> JsonValue {
    if n >= 0 {
        JsonValue::Number(JsonNumber::PosInt(n as u64))
    } else {
        JsonValue::Number(JsonNumber::NegInt(n))
    }
}

fn float(x: f64) -> JsonValue {
    let bits = x.to_bits();
    let negative = (bits >> 63) == 1;
    let exp = ((bits >> 52) & 0x7ff) as i32;
    let frac = bits & 0x000f_ffff_ffff_ffff;
    let (mantissa, exponent) = if exp == 0 { (frac, -1074) } else { (frac | (1u64 << 52), exp - 1075) };
    JsonValue::Number(JsonNumber::Float(JsonFloat {
        negative,
        mantissa,
        exponent: exponent as i16,
        text: format!("{x:?}"),
    }))
}

fn obj(entries: Vec<(&str, JsonValue)>) -> JsonValue {
    let mut es: Vec<(String, JsonValue)> = entries.into_iter().map(|(k, v)| (k.to_string(), v)).collect();
    es.sort_by(|a, b| a.0.cmp(&b.0));
    JsonValue::Object(es)
}

fn arr(xs: Vec<JsonValue>) -> JsonValue {
    JsonValue::Array(xs)
}

fn same(a: &JsonValue, b: &JsonValue) -> bool {
    match (a, b) {
        (JsonValue::Null, JsonValue::Null) => true,
        (JsonValue::Bool(x), JsonValue::Bool(y)) => x == y,
        (JsonValue::Number(x), JsonValue::Number(y)) => x == y,
        (JsonValue::Str(x), JsonValue::Str(y)) => x == y,
        (JsonValue::Array(x), JsonValue::Array(y)) => x.len() == y.len() && x.iter().zip(y.iter()).all(|(p, q)| same(p, q)),
        (JsonValue::Object(x), JsonValue::Object(y)) => {
            x.len() == y.len() && x.iter().zip(y.iter()).all(|(p, q)| p.0 == q.0 && same(&p.1, &q.1))
        }
        _ => false,
    }
}

fn member<'a>(v: &'a JsonValue, key: &str) -> &'a JsonValue {
    match v {
        JsonValue::Object(es) => &es.iter().find(|e| e.0 == key).expect("member").1,
        _ => panic!("not an object"),
    }
}

// ---------------------------------------------------------------------------
// Configurations, as the YAML documents of the scenarios read.

const VALID: &str = "version: 1
server: {name: test, transport: {kind: stdio}}
targets:
  fake:
    kind: cli
    executable: /bin/echo
    cwd: /
    limits: {timeout_ms: 1000, stdout_bytes: 1024, stderr_bytes: 1024}
tools:
  read:
    input_schema: {type: object, properties: {name: {type: string, minLength: 1}}, required: [name], additionalProperties: false}
    invoke: {target: fake, cli: {argv: [{literal: hi}, {input: /name}]}}
    output: {kind: text}
";

fn env() -> Vec<(String, String)> {
    Vec::new()
}

fn mcp_env() -> Vec<(String, String)> {
    vec![(String::from("TOKEN"), String::from("secret-sentinel"))]
}

fn no_environment() -> RawEnvironment {
    RawEnvironment { inherit: Vec::new(), set: Vec::new() }
}

fn server(request_bytes: usize, json_depth: usize) -> RawServer {
    RawServer {
        name: String::from("test"),
        transport: RawTransport { kind: String::from("stdio") },
        limits: RawServerLimits { request_bytes, json_depth },
    }
}

fn default_server() -> RawServer {
    RawServer {
        name: String::from("test"),
        transport: RawTransport { kind: String::from("stdio") },
        limits: RawServerLimits::default(),
    }
}

fn cli_limits(timeout_ms: u64, stdout_bytes: usize, stderr_bytes: usize) -> RawTargetLimits {
    RawTargetLimits { timeout_ms, stdout_bytes: Some(stdout_bytes), output_bytes: None, stderr_bytes }
}

fn cli_target(environment: RawEnvironment, limits: RawTargetLimits) -> RawTarget {
    RawTarget {
        kind: String::from("cli"),
        executable: Some(String::from("/bin/echo")),
        transport: None,
        cwd: Some(String::from("/")),
        environment,
        limits,
    }
}

fn no_annotations() -> RawAnnotations {
    RawAnnotations { read_only_hint: None, destructive_hint: None, idempotent_hint: None, open_world_hint: None }
}

fn object_schema(properties: Vec<(&str, JsonValue)>, required: Vec<&str>) -> JsonValue {
    obj(vec![
        ("type", st("object")),
        ("properties", obj(properties)),
        ("required", arr(required.into_iter().map(st).collect())),
        ("additionalProperties", JsonValue::Bool(false)),
    ])
}

fn string_min1() -> JsonValue {
    obj(vec![("type", st("string")), ("minLength", num(1))])
}

fn literal(x: &str) -> JsonValue {
    obj(vec![("literal", st(x))])
}

fn input(p: &str) -> JsonValue {
    obj(vec![("input", st(p))])
}

fn cli_tool(schema: JsonValue, target: &str, argv: Vec<JsonValue>, output: &str) -> RawTool {
    RawTool {
        title: None,
        description: None,
        annotations: no_annotations(),
        input_schema: schema,
        invoke: RawInvoke { target: String::from(target), cli: Some(RawCliInvoke { argv }), mcp: None },
        output: RawOutput { kind: String::from(output) },
    }
}

/// The `valid` configuration with the property schema of `name`, the
/// required list and the command line replaced.
fn valid_with(name_schema: JsonValue, required: Vec<&str>, argv: Vec<JsonValue>, environment: RawEnvironment) -> RawConfig {
    RawConfig {
        version: 1,
        server: default_server(),
        targets: vec![(String::from("fake"), cli_target(environment, cli_limits(1000, 1024, 1024)))],
        tools: vec![(
            String::from("read"),
            cli_tool(object_schema(vec![("name", name_schema)], required), "fake", argv, "text"),
        )],
    }
}

fn valid() -> RawConfig {
    valid_with(string_min1(), vec!["name"], vec![literal("hi"), input("/name")], no_environment())
}

fn parse(raw: RawConfig, environment: &Vec<(String, String)>) -> Result<ValidatedConfig, Diagnostic> {
    parse_config("test", VALID.len(), raw, environment)
}

fn mcp_valid_with(target_limits: RawTargetLimits, output: &str, credential: RawMcpBinding, visibility: RawMcpBinding) -> RawConfig {
    let schema = object_schema(
        vec![
            ("owner", string_min1()),
            ("limit", obj(vec![("type", st("integer")), ("minimum", num(1)), ("maximum", num(100))])),
        ],
        vec!["owner", "limit"],
    );
    let arguments = vec![
        (String::from("credential"), credential),
        (String::from("limit"), RawMcpBinding::Input(String::from("/limit"))),
        (
            String::from("query"),
            RawMcpBinding::Object(vec![
                (String::from("owner"), RawMcpBinding::Input(String::from("/owner"))),
                (String::from("visibility"), visibility),
            ]),
        ),
    ];
    RawConfig {
        version: 1,
        server: default_server(),
        targets: vec![(
            String::from("upstream"),
            RawTarget {
                kind: String::from("mcp"),
                executable: None,
                transport: Some(RawTargetTransport {
                    kind: String::from("stdio"),
                    command: String::from("/bin/fake-mcp"),
                    args: vec![String::from("--fixed")],
                    cwd: String::from("/"),
                    environment: no_environment(),
                }),
                cwd: None,
                environment: no_environment(),
                limits: target_limits,
            },
        )],
        tools: vec![(
            String::from("query"),
            RawTool {
                title: None,
                description: None,
                annotations: no_annotations(),
                input_schema: schema,
                invoke: RawInvoke {
                    target: String::from("upstream"),
                    cli: None,
                    mcp: Some(RawMcpInvoke { tool: String::from("private-query"), arguments }),
                },
                output: RawOutput { kind: String::from(output) },
            },
        )],
    }
}

fn mcp_limits() -> RawTargetLimits {
    RawTargetLimits { timeout_ms: 1000, stdout_bytes: None, output_bytes: Some(1024), stderr_bytes: 1024 }
}

fn mcp_valid() -> RawConfig {
    mcp_valid_with(
        mcp_limits(),
        "structured",
        RawMcpBinding::Environment(String::from("TOKEN")),
        RawMcpBinding::Literal(st("private")),
    )
}

fn limits_config(request_bytes: usize, json_depth: usize, timeout_ms: u64, output_bytes: usize, stderr_bytes: usize) -> RawConfig {
    RawConfig {
        version: 1,
        server: server(request_bytes, json_depth),
        targets: vec![(
            String::from("fake"),
            cli_target(no_environment(), cli_limits(timeout_ms, output_bytes, stderr_bytes)),
        )],
        tools: vec![(
            String::from("read"),
            cli_tool(object_schema(vec![("name", obj(vec![("type", st("string"))]))], vec!["name"]), "fake", vec![input("/name")], "text"),
        )],
    }
}

fn tool<'a>(config: &'a ValidatedConfig, name: &str) -> &'a mcp_boundary::config::CompiledTool {
    &config.tools.iter().find(|t| t.0 == name).expect("tool").1
}

// ---------------------------------------------------------------------------
// Scenarios.

#[test]
fn parses_and_resolves() {
    let c = parse(valid(), &env()).unwrap();
    let i = resolve_cli(&c, "read", &obj(vec![("name", st("a b"))])).unwrap();
    assert_eq!(i.argv, vec![String::from("hi"), String::from("a b")]);
}

#[test]
fn rejects_unknown_input() {
    let c = parse(valid(), &env()).unwrap();
    assert!(resolve_cli(&c, "read", &obj(vec![("name", st("a")), ("x", num(1))])).is_err());
}

#[test]
fn rejects_optional_schema() {
    let s = valid_with(string_min1(), vec![], vec![literal("hi"), input("/name")], no_environment());
    assert!(parse(s, &env()).is_err());
}

#[test]
fn mcp_binding_keeps_literal_environment_and_target_fixed() {
    let config = parse(mcp_valid(), &mcp_env()).unwrap();
    let invocation = resolve_mcp(&config, "query", &obj(vec![("owner", st("team-a")), ("limit", num(20))])).unwrap();

    assert_eq!(invocation.target_id, "upstream");
    assert_eq!(invocation.command, "/bin/fake-mcp");
    assert_eq!(invocation.args, vec!["--fixed"]);
    assert_eq!(invocation.cwd, "/");
    assert_eq!(invocation.upstream_tool, "private-query");
    let expected = obj(vec![
        ("query", obj(vec![("owner", st("team-a")), ("visibility", st("private"))])),
        ("limit", num(20)),
        ("credential", st("secret-sentinel")),
    ]);
    assert!(same(&invocation.arguments, &expected));

    let changed = resolve_mcp(&config, "query", &obj(vec![("owner", st("other")), ("limit", num(99))])).unwrap();
    assert_eq!(changed.target_id, invocation.target_id);
    assert_eq!(changed.command, invocation.command);
    assert_eq!(changed.args, invocation.args);
    assert_eq!(changed.cwd, invocation.cwd);
    assert_eq!(changed.upstream_tool, invocation.upstream_tool);
    assert!(same(member(member(&changed.arguments, "query"), "visibility"), &st("private")));
    assert!(same(member(&changed.arguments, "credential"), &st("secret-sentinel")));
}

#[test]
fn mcp_unknown_input_is_rejected_before_resolution() {
    let config = parse(mcp_valid(), &mcp_env()).unwrap();
    let result = resolve_mcp(
        &config,
        "query",
        &obj(vec![("owner", st("team-a")), ("limit", num(20)), ("credential", st("attacker"))]),
    );
    let diagnostic = result.err().unwrap();
    assert_eq!(diagnostic.code, BrokerErrorCode::InvalidArguments);
    assert!(diagnostic.path.contains("credential"));
}

#[test]
fn target_limit_fields_are_specific_to_target_kind() {
    let mut cli_with_mcp_limit = valid();
    cli_with_mcp_limit.targets[0].1.limits.output_bytes = Some(1024);
    assert!(parse(cli_with_mcp_limit, &env()).is_err());

    let mut limits = mcp_limits();
    limits.stdout_bytes = Some(1024);
    let mcp_with_cli_limit = mcp_valid_with(
        limits,
        "structured",
        RawMcpBinding::Environment(String::from("TOKEN")),
        RawMcpBinding::Literal(st("private")),
    );
    assert!(parse(mcp_with_cli_limit, &mcp_env()).is_err());
}

#[test]
fn environment_debug_does_not_expose_values() {
    let source = valid_with(
        string_min1(),
        vec!["name"],
        vec![literal("hi"), input("/name")],
        RawEnvironment { inherit: Vec::new(), set: vec![(String::from("TOKEN"), String::from("secret-sentinel"))] },
    );
    let config = parse(source, &env()).unwrap();
    let rendered = config.targets[0].1.environment.describe();
    assert!(!rendered.contains("secret-sentinel"));
    assert!(rendered.contains("TOKEN"));
}

#[test]
fn environment_names_accept_lowercase_ascii_letters() {
    let with_set = |name: &str| {
        valid_with(
            string_min1(),
            vec!["name"],
            vec![literal("hi"), input("/name")],
            RawEnvironment { inherit: Vec::new(), set: vec![(String::from(name), String::from("fixed"))] },
        )
    };
    assert!(parse(with_set("lowercase_name_2"), &env()).is_ok());
    assert!(parse(with_set("2lowercase_name"), &env()).is_err());
}

#[test]
fn catalog_schema_is_the_schema_used_by_validation() {
    let config = parse(valid(), &env()).unwrap();
    let catalog = tools_json(&config);
    let published = match member(&catalog, "tools") {
        JsonValue::Array(items) => member(&items[0], "inputSchema"),
        _ => panic!("tools must be an array"),
    };
    assert!(same(published, &tool(&config, "read").schema.public_json));

    assert!(validate_input(&tool(&config, "read").schema, &obj(vec![("name", st("ok"))])).is_ok());
    let invalid = obj(vec![("name", st("")), ("unexpected", JsonValue::Bool(true))]);
    let issues = validate_input(&tool(&config, "read").schema, &invalid).err().unwrap();
    assert!(issues.iter().any(|i| i.path == "/unexpected"));
    assert!(issues.iter().any(|i| i.path == "/name"));
}

fn zed_and_alpha(required_zed: Vec<&str>) -> RawConfig {
    RawConfig {
        version: 1,
        server: default_server(),
        targets: vec![(String::from("fake"), cli_target(no_environment(), cli_limits(1000, 1024, 1024)))],
        tools: vec![
            (
                String::from("alpha"),
                cli_tool(
                    object_schema(vec![("value", obj(vec![("type", st("string"))]))], vec!["value"]),
                    "fake",
                    vec![input("/value")],
                    "text",
                ),
            ),
            (
                String::from("zed"),
                cli_tool(
                    object_schema(
                        vec![("z", obj(vec![("type", st("string"))])), ("a", obj(vec![("type", st("integer"))]))],
                        required_zed,
                    ),
                    "fake",
                    vec![literal("fixed"), input("/z"), input("/a")],
                    "text",
                ),
            ),
        ],
    }
}

#[test]
fn normalization_is_deterministic_for_map_order() {
    let left = parse(zed_and_alpha(vec!["z", "a"]), &env()).unwrap();
    let right = parse(zed_and_alpha(vec!["a", "z"]), &env()).unwrap();
    assert!(same(&tools_json(&left), &tools_json(&right)));

    let left_call = resolve_cli(&left, "zed", &obj(vec![("z", st("name")), ("a", num(4))])).unwrap();
    let right_call = resolve_cli(&right, "zed", &JsonValue::Object(vec![
        (String::from("a"), num(4)),
        (String::from("z"), st("name")),
    ]))
    .unwrap();
    assert_eq!(left_call.target_id, right_call.target_id);
    assert_eq!(left_call.executable, right_call.executable);
    assert_eq!(left_call.cwd, right_call.cwd);
    assert_eq!(left_call.argv, right_call.argv);
}

#[test]
fn finite_limit_boundaries_are_explicit() {
    assert!(ConfigBytes::new("test", vec![0; MAX_CONFIG_BYTES]).is_ok());
    assert_eq!(ConfigBytes::new("test", vec![0; MAX_CONFIG_BYTES + 1]), Err(BrokerErrorCode::InvalidArguments));

    let at_limit = parse(limits_config(1, 1, 1, 1, 1), &env()).unwrap();
    assert_eq!(at_limit.request_bytes, 1);
    assert_eq!(at_limit.json_depth, 1);
    assert_eq!(at_limit.targets[0].1.limits.timeout_ms, 1);
    assert_eq!(at_limit.targets[0].1.limits.output_bytes, 1);
    assert_eq!(at_limit.targets[0].1.limits.stderr_bytes, 1);

    assert!(parse(limits_config(MAX_CONFIG_BYTES + 1, 1, 1, 1, 1), &env()).is_err());
    assert!(parse(limits_config(1, MAX_JSON_DEPTH + 1, 1, 1, 1), &env()).is_err());
    assert!(parse(limits_config(1, 1, 300_001, 1, 1), &env()).is_err());
    assert!(parse(limits_config(1, 1, 1, 16 * 1024 * 1024 + 1, 1), &env()).is_err());
    assert!(parse(limits_config(1, 1, 1, 1, 1024 * 1024 + 1), &env()).is_err());
}

#[test]
fn schema_resource_boundaries_are_enforced_before_resolution() {
    let config_text = RawConfig {
        version: 1,
        server: default_server(),
        targets: vec![(String::from("fake"), cli_target(no_environment(), cli_limits(1000, 1024, 1024)))],
        tools: vec![(
            String::from("read"),
            cli_tool(
                object_schema(
                    vec![
                        ("text", obj(vec![("type", st("string"))])),
                        (
                            "values",
                            obj(vec![("type", st("array")), ("items", obj(vec![("type", st("integer"))])), ("maxItems", num(1024))]),
                        ),
                    ],
                    vec!["text", "values"],
                ),
                "fake",
                vec![literal("fixed")],
                "text",
            ),
        )],
    };
    let config = parse(config_text, &env()).unwrap();
    let zeros = |n: usize| arr((0..n).map(|_| num(0)).collect());
    let text_at_limit = "x".repeat(MAX_STRING_BYTES);
    assert!(resolve_cli(&config, "read", &obj(vec![("text", st(&text_at_limit)), ("values", zeros(1024))])).is_ok());

    let too_long = "x".repeat(MAX_STRING_BYTES + 1);
    assert!(resolve_cli(&config, "read", &obj(vec![("text", st(&too_long)), ("values", zeros(1024))])).is_err());
    assert!(resolve_cli(&config, "read", &obj(vec![("text", st("ok")), ("values", zeros(1025))])).is_err());
}

#[test]
fn unsupported_regex_is_rejected_at_configuration_boundary() {
    let invalid = valid_with(
        obj(vec![("type", st("string")), ("pattern", st("(?=x)"))]),
        vec!["name"],
        vec![literal("hi"), input("/name")],
        no_environment(),
    );
    assert!(parse(invalid, &env()).is_err());
}

#[test]
fn regex_compiled_size_is_bounded_separately_from_pattern_bytes() {
    let pattern = String::from("(?:a|b){1000000}");
    assert!(pattern.len() <= 16 * 1024);
    let schema = obj(vec![("type", st("string")), ("pattern", st(&pattern))]);
    assert!(compile_schema(&schema, "/schema", false, 1).is_err());
}

fn config_with_property_schema(schema: JsonValue, argv: Vec<JsonValue>) -> RawConfig {
    valid_with(schema, vec!["name"], argv, no_environment())
}

fn default_argv() -> Vec<JsonValue> {
    vec![literal("hi"), input("/name")]
}

#[test]
fn schema_keywords_are_strictly_typed_and_scoped() {
    let invalid = vec![
        obj(vec![("type", st("string")), ("minItems", num(1))]),
        obj(vec![("type", st("string")), ("pattern", num(1))]),
        obj(vec![("type", st("array")), ("items", arr(vec![])), ("uniqueItems", JsonValue::Bool(true))]),
        obj(vec![("type", st("array")), ("items", obj(vec![("type", st("string"))])), ("uniqueItems", st("yes"))]),
        obj(vec![("type", st("string")), ("enum", st("value"))]),
        obj(vec![("type", st("string")), ("enum", arr(vec![num(1)]))]),
    ];
    for schema in invalid {
        let text = format!("{schema:?}");
        assert!(
            parse(config_with_property_schema(schema, default_argv()), &env()).is_err(),
            "schema unexpectedly accepted: {text}"
        );
    }
}

#[test]
fn enum_rejects_semantic_duplicates() {
    let text = config_with_property_schema(
        obj(vec![("type", st("number")), ("enum", arr(vec![num(1), float(1.0)]))]),
        default_argv(),
    );
    assert!(parse(text, &env()).is_err());
}

#[test]
fn numeric_limits_and_runtime_equality_preserve_large_integers() {
    let bounded = config_with_property_schema(
        obj(vec![("type", st("integer")), ("minimum", num(9007199254740993)), ("maximum", num(9007199254740993))]),
        default_argv(),
    );
    let config = parse(bounded, &env()).unwrap();
    assert!(resolve_cli(&config, "read", &obj(vec![("name", num(9007199254740992))])).is_err());
    assert!(resolve_cli(&config, "read", &obj(vec![("name", num(9007199254740993))])).is_ok());

    let unique = config_with_property_schema(
        obj(vec![("type", st("array")), ("items", obj(vec![("type", st("number"))])), ("uniqueItems", JsonValue::Bool(true))]),
        vec![literal("hi"), literal("fixed")],
    );
    let config = parse(unique, &env()).unwrap();
    assert!(validate_input(
        &tool(&config, "read").schema,
        &obj(vec![("name", arr(vec![num(9007199254740992), num(9007199254740993)]))])
    )
    .is_ok());
    assert!(validate_input(&tool(&config, "read").schema, &obj(vec![("name", arr(vec![num(1), float(1.0)]))])).is_err());

    let nested_number = config_with_property_schema(
        obj(vec![
            ("type", st("array")),
            ("items", obj(vec![("type", st("number"))])),
            ("enum", arr(vec![arr(vec![num(9007199254740993)])])),
        ]),
        vec![literal("hi"), literal("fixed")],
    );
    let config = parse(nested_number, &env()).unwrap();
    assert!(validate_input(&tool(&config, "read").schema, &obj(vec![("name", arr(vec![num(9007199254740993)]))])).is_ok());
}

fn nested_schema(depth: usize) -> JsonValue {
    let mut schema = obj(vec![("type", st("string"))]);
    for _ in 1..depth {
        schema = obj(vec![
            ("type", st("object")),
            ("properties", obj(vec![("child", schema)])),
            ("required", arr(vec![st("child")])),
            ("additionalProperties", JsonValue::Bool(false)),
        ]);
    }
    schema
}

#[test]
fn schema_and_binding_depth_are_bounded_at_adoption() {
    assert!(compile_schema(&nested_schema(MAX_SCHEMA_DEPTH), "/schema", true, 1).is_ok());
    assert!(compile_schema(&nested_schema(MAX_SCHEMA_DEPTH + 1), "/schema", true, 1).is_err());

    let config = parse(mcp_valid(), &mcp_env()).unwrap();
    let mut binding = RawMcpBinding::Literal(JsonValue::Null);
    for _ in 1..MAX_SCHEMA_DEPTH {
        binding = RawMcpBinding::Object(vec![(String::from("child"), binding)]);
    }
    assert!(compile_mcp_binding(&binding, &tool(&config, "query").schema, "/binding", &mcp_env(), 1).is_ok());
    binding = RawMcpBinding::Object(vec![(String::from("child"), binding)]);
    assert!(compile_mcp_binding(&binding, &tool(&config, "query").schema, "/binding", &mcp_env(), 1).is_err());
}

#[test]
fn invalid_json_pointer_escape_is_rejected() {
    let text = config_with_property_schema(string_min1(), vec![literal("hi"), input("/name~2")]);
    let error = parse(text, &env()).err().unwrap();
    assert!(error.path.contains("/invoke/cli/argv"));
}

#[test]
fn mcp_json_output_kind_is_rejected() {
    let text = mcp_valid_with(
        mcp_limits(),
        "json",
        RawMcpBinding::Environment(String::from("TOKEN")),
        RawMcpBinding::Literal(st("private")),
    );
    assert!(parse(text, &mcp_env()).is_err());
}

#[test]
fn cli_negative_zero_is_normalized_before_argv() {
    let text = config_with_property_schema(obj(vec![("type", st("number"))]), default_argv());
    let config = parse(text, &env()).unwrap();
    let negative_zero = float(-0.0);
    let invocation = resolve_cli(&config, "read", &obj(vec![("name", negative_zero)])).unwrap();
    assert_eq!(invocation.argv, vec![String::from("hi"), String::from("0")]);
}

#[test]
fn catalog_lists_tools_and_required_names_in_key_order() {
    let config = parse(zed_and_alpha(vec!["z", "a"]), &env()).unwrap();
    let catalog = tools_json(&config);
    let items = match member(&catalog, "tools") {
        JsonValue::Array(items) => items,
        _ => panic!("tools must be an array"),
    };
    let names: Vec<&JsonValue> = items.iter().map(|item| member(item, "name")).collect();
    assert!(matches!(names[0], JsonValue::Str(n) if n == "alpha"));
    assert!(matches!(names[1], JsonValue::Str(n) if n == "zed"));
    let zed = member(&items[1], "inputSchema");
    match member(zed, "required") {
        JsonValue::Array(req) => {
            assert!(matches!(&req[0], JsonValue::Str(n) if n == "a"));
            assert!(matches!(&req[1], JsonValue::Str(n) if n == "z"));
        }
        _ => panic!("required must be an array"),
    }
}
