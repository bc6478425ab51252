//! The management commands' decisions: exit statuses, the diagnostic line,
//! and which configured paths are checked on disk before a configuration is
//! used.
use vstd::prelude::*;
use crate::codes::{Diagnostic, code_name};
use crate::config::ValidatedConfig;
use crate::json::JsonValue;
use crate::protocol::keys_of;
use crate::schema::str_is;
use crate::text::{string_of, join_path};

verus! {

pub const EXIT_SUCCESS: i32 = 0;
pub const EXIT_USAGE: i32 = 2;
pub const EXIT_CONFIG: i32 = 3;
pub const EXIT_RUNTIME: i32 = 4;

/// `r` is the diagnostic line of `d` for the configuration at `config_path`.
pub open spec fn diagnostic_json(r: JsonValue, config_path: Seq<char>, d: Diagnostic) -> bool {
    match r {
        JsonValue::Object(es) => {
            &&& keys_of(es@) == seq!["code"@, "config_path"@, "message"@, "path"@]
            &&& str_is(es@[0].1, code_name(d.code))
            &&& str_is(es@[1].1, config_path)
            &&& str_is(es@[2].1, d.message@)
            &&& str_is(es@[3].1, d.path@)
        },
        _ => false,
    }
}

/// The diagnostic line written for a configuration that cannot be used.
pub fn diagnostic_value(config_path: &str, d: &Diagnostic) -> (r: JsonValue)
    ensures
        diagnostic_json(r, config_path@, *d),
{
    let mut es: Vec<(String, JsonValue)> = Vec::new();
    es.push((string_of("code"), JsonValue::Str(string_of(d.code.as_str()))));
    es.push((string_of("config_path"), JsonValue::Str(string_of(config_path))));
    es.push((string_of("message"), JsonValue::Str(d.message.clone())));
    es.push((string_of("path"), JsonValue::Str(d.path.clone())));
    assert(keys_of(es@) =~= seq!["code"@, "config_path"@, "message"@, "path"@]);
    JsonValue::Object(es)
}

/// A path to check on disk: the path, where it is in the configuration, and
/// whether it must be an executable file (otherwise a directory).
pub struct PathCheck {
    pub path: String,
    pub config_path: String,
    pub executable: bool,
}

/// The checks of the command-line targets, then of the MCP targets, each
/// target's program before its working directory.
pub open spec fn path_checks_of(config: ValidatedConfig, checks: Seq<PathCheck>) -> bool {
    let n = config.targets@.len();
    let m = config.upstream_targets@.len();
    &&& checks.len() == 2 * n + 2 * m
    &&& forall|i: int| 0 <= i < n ==> {
        let t = (#[trigger] config.targets@[i]);
        &&& checks[2 * i].path@ == t.1.executable@ && checks[2 * i].executable
        &&& checks[2 * i].config_path@ == "/targets/"@ + t.0@ + "/executable"@
        &&& checks[2 * i + 1].path@ == t.1.cwd@ && !checks[2 * i + 1].executable
        &&& checks[2 * i + 1].config_path@ == "/targets/"@ + t.0@ + "/cwd"@
    }
    &&& forall|i: int| 0 <= i < m ==> {
        let t = (#[trigger] config.upstream_targets@[i]);
        &&& checks[2 * n + 2 * i].path@ == t.1.command@ && checks[2 * n + 2 * i].executable
        &&& checks[2 * n + 2 * i].config_path@ == "/targets/"@ + t.0@ + "/transport/command"@
        &&& checks[2 * n + 2 * i + 1].path@ == t.1.cwd@ && !checks[2 * n + 2 * i + 1].executable
        &&& checks[2 * n + 2 * i + 1].config_path@ == "/targets/"@ + t.0@ + "/transport/cwd"@
    }
}

fn check_path(id: &str, field: &str) -> (r: String)
    ensures
        r@ == "/targets/"@ + id@ + "/"@ + field@,
{
    let base = join_path("/targets", id);
    proof {
        reveal_strlit("/targets/");
        reveal_strlit("/targets");
        reveal_strlit("/");
        assert("/targets"@ + seq!['/'] =~= "/targets/"@);
    }
    let r = join_path(base.as_str(), field);
    assert(r@ =~= "/targets/"@ + id@ + "/"@ + field@);
    r
}

proof fn lemma_field_paths()
    ensures
        "/"@ + "executable"@ == "/executable"@,
        "/"@ + "cwd"@ == "/cwd"@,
        "/"@ + "transport/command"@ == "/transport/command"@,
        "/"@ + "transport/cwd"@ == "/transport/cwd"@,
{
    reveal_strlit("/");
    reveal_strlit("/executable");
    reveal_strlit("executable");
    reveal_strlit("/cwd");
    reveal_strlit("cwd");
    reveal_strlit("/transport/command");
    reveal_strlit("transport/command");
    reveal_strlit("/transport/cwd");
    reveal_strlit("transport/cwd");
    assert("/"@ + "executable"@ =~= "/executable"@);
    assert("/"@ + "cwd"@ =~= "/cwd"@);
    assert("/"@ + "transport/command"@ =~= "/transport/command"@);
    assert("/"@ + "transport/cwd"@ =~= "/transport/cwd"@);
}

/// The paths to check before a configuration is used, in order.
pub fn static_path_checks(config: &ValidatedConfig) -> (r: Vec<PathCheck>)
    ensures
        path_checks_of(*config, r@),
{
    let mut out: Vec<PathCheck> = Vec::new();
    let n = config.targets.len();
    let mut i: usize = 0;
    while i < n
        invariant
            n == config.targets@.len(),
            i <= n,
            out@.len() == 2 * i,
            forall|j: int| 0 <= j < i ==> {
                let t = (#[trigger] config.targets@[j]);
                &&& out@[2 * j].path@ == t.1.executable@ && out@[2 * j].executable
                &&& out@[2 * j].config_path@ == "/targets/"@ + t.0@ + "/executable"@
                &&& out@[2 * j + 1].path@ == t.1.cwd@ && !out@[2 * j + 1].executable
                &&& out@[2 * j + 1].config_path@ == "/targets/"@ + t.0@ + "/cwd"@
            },
        decreases n - i,
    {
        let id = config.targets[i].0.as_str();
        proof {
            lemma_field_paths();
        }
        let e = check_path(id, "executable");
        let c = check_path(id, "cwd");
        assert(e@ =~= "/targets/"@ + id@ + "/executable"@);
        assert(c@ =~= "/targets/"@ + id@ + "/cwd"@);
        out.push(PathCheck { path: config.targets[i].1.executable.clone(), config_path: e, executable: true });
        out.push(PathCheck { path: config.targets[i].1.cwd.clone(), config_path: c, executable: false });
        i += 1;
    }
    let m = config.upstream_targets.len();
    let mut k: usize = 0;
    while k < m
        invariant
            n == config.targets@.len(),
            m == config.upstream_targets@.len(),
            k <= m,
            out@.len() == 2 * n + 2 * k,
            forall|j: int| 0 <= j < n ==> {
                let t = (#[trigger] config.targets@[j]);
                &&& out@[2 * j].path@ == t.1.executable@ && out@[2 * j].executable
                &&& out@[2 * j].config_path@ == "/targets/"@ + t.0@ + "/executable"@
                &&& out@[2 * j + 1].path@ == t.1.cwd@ && !out@[2 * j + 1].executable
                &&& out@[2 * j + 1].config_path@ == "/targets/"@ + t.0@ + "/cwd"@
            },
            forall|j: int| 0 <= j < k ==> {
                let t = (#[trigger] config.upstream_targets@[j]);
                &&& out@[2 * n + 2 * j].path@ == t.1.command@ && out@[2 * n + 2 * j].executable
                &&& out@[2 * n + 2 * j].config_path@ == "/targets/"@ + t.0@ + "/transport/command"@
                &&& out@[2 * n + 2 * j + 1].path@ == t.1.cwd@ && !out@[2 * n + 2 * j + 1].executable
                &&& out@[2 * n + 2 * j + 1].config_path@ == "/targets/"@ + t.0@ + "/transport/cwd"@
            },
        decreases m - k,
    {
        let id = config.upstream_targets[k].0.as_str();
        proof {
            lemma_field_paths();
        }
        let e = check_path(id, "transport/command");
        let c = check_path(id, "transport/cwd");
        assert(e@ =~= "/targets/"@ + id@ + "/transport/command"@);
        assert(c@ =~= "/targets/"@ + id@ + "/transport/cwd"@);
        out.push(PathCheck { path: config.upstream_targets[k].1.command.clone(), config_path: e, executable: true });
        out.push(PathCheck { path: config.upstream_targets[k].1.cwd.clone(), config_path: c, executable: false });
        k += 1;
    }
    out
}

} // verus!
