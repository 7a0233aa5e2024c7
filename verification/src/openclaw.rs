//! How the `openclaw` command line tool and its gateway are started.
use vstd::prelude::*;
use crate::command::{result_view, CommandOutput, CommandSpec};
use crate::envfile::pair_views;
use crate::text::{string_views, concat2, concat3, ends_with, ends_with_str, extend_str, string_of, trim, trim_chars};

verus! {

pub const NPM_REGISTRY_VAR: &'static str = "NPM_CONFIG_REGISTRY";

pub const NPM_REGISTRY_VAR_LOWER: &'static str = "npm_config_registry";

pub const PATH_VAR: &'static str = "PATH";

pub const GATEWAY_TOKEN_VAR: &'static str = "OPENCLAW_GATEWAY_TOKEN";

/// The token used when none is configured.
pub const DEFAULT_GATEWAY_TOKEN: &'static str = "openclaw-manager-local-token";

/// The port the gateway listens on.
pub const GATEWAY_PORT: &'static str = "18789";

/// The message when `openclaw` cannot be found.
pub const OPENCLAW_NOT_FOUND: &'static str = "找不到 openclaw 命令，请确保已通过 npm install -g openclaw 安装";

/// The start of the message when `openclaw` could not be started.
pub const OPENCLAW_RUN_FAILED: &'static str = "执行 openclaw 失败: ";

/// The variables that point npm at `registry`.
pub open spec fn registry_env(registry: Seq<char>) -> Seq<(Seq<char>, Seq<char>)> {
    seq![(NPM_REGISTRY_VAR@, registry), (NPM_REGISTRY_VAR_LOWER@, registry)]
}

/// The variables that every child started with the extended `PATH` gets.
pub open spec fn child_env(registry: Seq<char>, path: Seq<char>) -> Seq<(Seq<char>, Seq<char>)> {
    registry_env(registry) + seq![(PATH_VAR@, path)]
}

fn own(s: &str) -> (res: String)
    ensures
        res@ == s@,
{
    s.to_owned()
}

fn push_env(env: &mut Vec<(String, String)>, name: &str, value: &str)
    ensures
        pair_views(final(env)@) == pair_views(old(env)@).push((name@, value@)),
{
    env.push((own(name), own(value)));
    assert(pair_views(env@) =~= pair_views(old(env)@).push((name@, value@)));
}

fn push_arg(args: &mut Vec<String>, a: &str)
    ensures
        string_views(final(args)@) == string_views(old(args)@).push(a@),
{
    args.push(own(a));
    assert(string_views(args@) =~= string_views(old(args)@).push(a@));
}

fn extend_args(args: &mut Vec<String>, more: &Vec<String>)
    ensures
        string_views(final(args)@) == string_views(old(args)@) + string_views(more@),
{
    let mut i: usize = 0;
    while i < more.len()
        invariant
            i <= more.len(),
            string_views(args@) == string_views(old(args)@) + string_views(more@).take(i as int),
        decreases more.len() - i,
    {
        push_arg(args, more[i].as_str());
        assert(string_views(more@).take(i + 1) =~= string_views(more@).take(i as int).push(
            more@[i as int]@,
        ));
        assert(string_views(args@) =~= string_views(old(args)@) + string_views(more@).take(
            i + 1,
        ));
        i = i + 1;
    }
    assert(string_views(more@).take(more.len() as int) =~= string_views(more@));
}

fn child_env_vec(registry: &str, path: &str) -> (res: Vec<(String, String)>)
    ensures
        pair_views(res@) == child_env(registry@, path@),
{
    let mut env: Vec<(String, String)> = Vec::new();
    push_env(&mut env, NPM_REGISTRY_VAR, registry);
    push_env(&mut env, NPM_REGISTRY_VAR_LOWER, registry);
    push_env(&mut env, PATH_VAR, path);
    assert(pair_views(env@) =~= child_env(registry@, path@));
    env
}

fn registry_env_vec(registry: &str) -> (res: Vec<(String, String)>)
    ensures
        pair_views(res@) == registry_env(registry@),
{
    let mut env: Vec<(String, String)> = Vec::new();
    push_env(&mut env, NPM_REGISTRY_VAR, registry);
    push_env(&mut env, NPM_REGISTRY_VAR_LOWER, registry);
    assert(pair_views(env@) =~= registry_env(registry@));
    env
}

/// A program run with its arguments, the npm registry and the extended
/// `PATH`.
pub fn command_invocation(cmd: &str, args: &Vec<String>, registry: &str, path: &str) -> (res:
    CommandSpec)
    ensures
        res.program@ == cmd@,
        string_views(res.args@) == string_views(args@),
        pair_views(res.env@) == child_env(registry@, path@),
{
    let mut a: Vec<String> = Vec::new();
    extend_args(&mut a, args);
    assert(string_views(a@) =~= string_views(args@));
    CommandSpec { program: own(cmd), args: a, env: child_env_vec(registry, path) }
}

/// `bash -c SCRIPT` with the npm registry and the extended `PATH`.
pub fn bash_invocation(script: &str, registry: &str, path: &str) -> (res: CommandSpec)
    ensures
        res.program@ == "bash"@,
        string_views(res.args@) == seq!["-c"@, script@],
        pair_views(res.env@) == child_env(registry@, path@),
{
    let mut a: Vec<String> = Vec::new();
    push_arg(&mut a, "-c");
    push_arg(&mut a, script);
    assert(string_views(a@) =~= seq!["-c"@, script@]);
    CommandSpec { program: own("bash"), args: a, env: child_env_vec(registry, path) }
}

/// `cmd /c SCRIPT` with the npm registry (and no change of `PATH`).
pub fn cmd_invocation(script: &str, registry: &str) -> (res: CommandSpec)
    ensures
        res.program@ == "cmd"@,
        string_views(res.args@) == seq!["/c"@, script@],
        pair_views(res.env@) == registry_env(registry@),
{
    let mut a: Vec<String> = Vec::new();
    push_arg(&mut a, "/c");
    push_arg(&mut a, script);
    assert(string_views(a@) =~= seq!["/c"@, script@]);
    CommandSpec { program: own("cmd"), args: a, env: registry_env_vec(registry) }
}

/// PowerShell running SCRIPT with no profile, non-interactively and with the
/// execution policy bypassed, with the npm registry (and no change of
/// `PATH`).
pub fn powershell_invocation(script: &str, registry: &str) -> (res: CommandSpec)
    ensures
        res.program@ == "powershell"@,
        string_views(res.args@) == seq![
            "-NoProfile"@,
            "-NonInteractive"@,
            "-ExecutionPolicy"@,
            "Bypass"@,
            "-Command"@,
            script@,
        ],
        pair_views(res.env@) == registry_env(registry@),
{
    let mut a: Vec<String> = Vec::new();
    push_arg(&mut a, "-NoProfile");
    push_arg(&mut a, "-NonInteractive");
    push_arg(&mut a, "-ExecutionPolicy");
    push_arg(&mut a, "Bypass");
    push_arg(&mut a, "-Command");
    push_arg(&mut a, script);
    assert(string_views(a@) =~= seq![
        "-NoProfile"@,
        "-NonInteractive"@,
        "-ExecutionPolicy"@,
        "Bypass"@,
        "-Command"@,
        script@,
    ]);
    CommandSpec { program: own("powershell"), args: a, env: registry_env_vec(registry) }
}

/// Whether the tool is a Windows `.cmd` script, which must be run by
/// `cmd /c`.
pub open spec fn is_cmd_script(openclaw_path: Seq<char>) -> bool {
    ends_with(openclaw_path, ".cmd"@)
}

/// The program and the arguments before `tail` that run the tool.
pub open spec fn tool_program(openclaw_path: Seq<char>) -> Seq<char> {
    if is_cmd_script(openclaw_path) {
        "cmd"@
    } else {
        openclaw_path
    }
}

pub open spec fn tool_args(openclaw_path: Seq<char>, tail: Seq<Seq<char>>) -> Seq<Seq<char>> {
    if is_cmd_script(openclaw_path) {
        seq!["/c"@, openclaw_path] + tail
    } else {
        tail
    }
}

/// `openclaw ARGS` with the gateway token, the npm registry and the extended
/// `PATH`.
pub fn openclaw_invocation(
    openclaw_path: &str,
    args: &Vec<String>,
    token: &str,
    registry: &str,
    path: &str,
) -> (res: CommandSpec)
    ensures
        res.program@ == tool_program(openclaw_path@),
        string_views(res.args@) == tool_args(openclaw_path@, string_views(args@)),
        pair_views(res.env@) == seq![(GATEWAY_TOKEN_VAR@, token@)] + child_env(registry@, path@),
{
    let is_cmd = ends_with_str(openclaw_path, ".cmd");
    let mut a: Vec<String> = Vec::new();
    if is_cmd {
        push_arg(&mut a, "/c");
        push_arg(&mut a, openclaw_path);
    }
    extend_args(&mut a, args);
    if is_cmd {
        assert(string_views(a@) =~= seq!["/c"@, openclaw_path@] + string_views(args@));
    } else {
        assert(string_views(a@) =~= string_views(args@));
    }
    let mut env: Vec<(String, String)> = Vec::new();
    push_env(&mut env, GATEWAY_TOKEN_VAR, token);
    push_env(&mut env, NPM_REGISTRY_VAR, registry);
    push_env(&mut env, NPM_REGISTRY_VAR_LOWER, registry);
    push_env(&mut env, PATH_VAR, path);
    assert(pair_views(env@) =~= seq![(GATEWAY_TOKEN_VAR@, token@)] + child_env(registry@, path@));
    let program = if is_cmd {
        own("cmd")
    } else {
        own(openclaw_path)
    };
    CommandSpec { program, args: a, env }
}

/// The path the search found, or the message that `openclaw` cannot be
/// found.
pub fn require_openclaw_path(found: Option<String>) -> (res: Result<String, String>)
    ensures
        result_view(res) == match found {
            Some(p) => Ok::<Seq<char>, Seq<char>>(p@),
            None => Err::<Seq<char>, Seq<char>>(OPENCLAW_NOT_FOUND@),
        },
{
    match found {
        Some(p) => Ok(p),
        None => Err(own(OPENCLAW_NOT_FOUND)),
    }
}

/// What a run of `openclaw` gives: its output on success; on failure its
/// output and error output joined by a line feed and trimmed; when it could
/// not be started, the reason.
pub open spec fn openclaw_result(outcome: Result<CommandOutput, String>) -> Result<
    Seq<char>,
    Seq<char>,
> {
    match outcome {
        Ok(o) => if o.success {
            Ok(o.stdout@)
        } else {
            Err(trim(o.stdout@ + seq!['\n'] + o.stderr@))
        },
        Err(e) => Err(OPENCLAW_RUN_FAILED@ + e@),
    }
}

/// How a run of `openclaw` is reported: a successful run gives its standard
/// output exactly as written, whatever it wrote to standard error; a failed
/// run gives its standard output and error output, a line break between
/// them, trimmed; a run that could not start says so, with the reason.
pub proof fn law_openclaw_outcome(o: CommandOutput, e: String)
    ensures
        o.success ==> openclaw_result(Ok(o)) == Ok::<Seq<char>, Seq<char>>(o.stdout@),
        !o.success ==> openclaw_result(Ok(o)) == Err::<Seq<char>, Seq<char>>(
            trim(o.stdout@ + seq!['\n'] + o.stderr@),
        ),
        openclaw_result(Err(e)) == Err::<Seq<char>, Seq<char>>(OPENCLAW_RUN_FAILED@ + e@),
{
}

/// What a run of `openclaw` gives.
pub fn openclaw_output(outcome: Result<CommandOutput, String>) -> (res: Result<String, String>)
    ensures
        result_view(res) == openclaw_result(outcome),
{
    match outcome {
        Err(e) => {
            let m = concat2(OPENCLAW_RUN_FAILED, e.as_str());
            assert(m@ == OPENCLAW_RUN_FAILED@ + e@);
            Err(m)
        },
        Ok(o) => if o.success {
            Ok(o.stdout)
        } else {
            let mut v: Vec<char> = Vec::new();
            extend_str(&mut v, o.stdout.as_str());
            v.push('\n');
            extend_str(&mut v, o.stderr.as_str());
            assert(v@ =~= o.stdout@ + seq!['\n'] + o.stderr@);
            let t = trim_chars(&v);
            Err(string_of(&t))
        },
    }
}

/// The configured gateway token, or the default one.
pub fn gateway_token_or_default(token: Option<String>) -> (res: String)
    ensures
        res@ == match token {
            Some(t) => t@,
            None => DEFAULT_GATEWAY_TOKEN@,
        },
{
    match token {
        Some(t) => t,
        None => own(DEFAULT_GATEWAY_TOKEN),
    }
}

/// `openclaw gateway --port 18789`, with the user's variables from the
/// environment file first, then the npm registry, the extended `PATH` and the
/// gateway token, which win over the user's.
pub fn gateway_invocation(
    openclaw_path: &str,
    user_env: &Vec<(String, String)>,
    registry: &str,
    path: &str,
    token: &str,
) -> (res: CommandSpec)
    ensures
        res.program@ == tool_program(openclaw_path@),
        string_views(res.args@) == tool_args(
            openclaw_path@,
            seq!["gateway"@, "--port"@, GATEWAY_PORT@],
        ),
        pair_views(res.env@) == pair_views(user_env@) + child_env(registry@, path@) + seq![
            (GATEWAY_TOKEN_VAR@, token@),
        ],
{
    let is_cmd = ends_with_str(openclaw_path, ".cmd");
    let mut a: Vec<String> = Vec::new();
    if is_cmd {
        push_arg(&mut a, "/c");
        push_arg(&mut a, openclaw_path);
    }
    let ghost before = string_views(a@);
    push_arg(&mut a, "gateway");
    push_arg(&mut a, "--port");
    push_arg(&mut a, GATEWAY_PORT);
    assert(string_views(a@) =~= before + seq!["gateway"@, "--port"@, GATEWAY_PORT@]);
    if is_cmd {
        assert(before =~= seq!["/c"@, openclaw_path@]);
    } else {
        assert(before =~= Seq::<Seq<char>>::empty());
    }
    let mut env: Vec<(String, String)> = Vec::new();
    let mut i: usize = 0;
    while i < user_env.len()
        invariant
            i <= user_env.len(),
            pair_views(env@) == pair_views(user_env@).take(i as int),
        decreases user_env.len() - i,
    {
        push_env(&mut env, user_env[i].0.as_str(), user_env[i].1.as_str());
        assert(pair_views(user_env@).take(i + 1) =~= pair_views(user_env@).take(i as int).push(
            pair_views(user_env@)[i as int],
        ));
        i = i + 1;
    }
    assert(pair_views(user_env@).take(user_env.len() as int) =~= pair_views(user_env@));
    push_env(&mut env, NPM_REGISTRY_VAR, registry);
    push_env(&mut env, NPM_REGISTRY_VAR_LOWER, registry);
    push_env(&mut env, PATH_VAR, path);
    push_env(&mut env, GATEWAY_TOKEN_VAR, token);
    assert(pair_views(env@) =~= pair_views(user_env@) + child_env(registry@, path@) + seq![
        (GATEWAY_TOKEN_VAR@, token@),
    ]);
    let program = if is_cmd {
        own("cmd")
    } else {
        own(openclaw_path)
    };
    CommandSpec { program, args: a, env }
}

/// The gateway's log directory under the configuration directory, and its
/// output and error logs in it.
pub fn gateway_log_paths(config_dir: &str) -> (res: (String, String, String))
    ensures
        res.0@ == config_dir@ + "/logs"@,
        res.1@ == config_dir@ + "/logs"@ + "/gateway.log"@,
        res.2@ == config_dir@ + "/logs"@ + "/gateway.err.log"@,
{
    let logs = concat2(config_dir, "/logs");
    let out = concat2(logs.as_str(), "/gateway.log");
    let err = concat2(logs.as_str(), "/gateway.err.log");
    (logs, out, err)
}

/// The message when the gateway could not be started.
pub fn gateway_spawn_error(openclaw_path: &str, error: &str) -> (res: String)
    ensures
        res@ == "启动失败 (路径: "@ + openclaw_path@ + "): "@ + error@,
{
    let head = concat3("启动失败 (路径: ", openclaw_path, "): ");
    concat2(head.as_str(), error)
}

} // verus!
