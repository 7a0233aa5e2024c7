use openclaw_manager::command::CommandOutput;
use openclaw_manager::openclaw::{
    bash_invocation, cmd_invocation, command_invocation, gateway_invocation, gateway_log_paths,
    gateway_spawn_error, gateway_token_or_default, openclaw_invocation, openclaw_output,
    powershell_invocation, require_openclaw_path,
};

fn pairs(v: &[(&str, &str)]) -> Vec<(String, String)> {
    v.iter().map(|(a, b)| (a.to_string(), b.to_string())).collect()
}

fn strings(v: &[&str]) -> Vec<String> {
    v.iter().map(|s| s.to_string()).collect()
}

#[test]
fn bash_gets_registry_and_path() {
    let spec = bash_invocation("echo hi", "https://r", "/bin:/usr/bin");
    assert_eq!(spec.program, "bash");
    assert_eq!(spec.args, strings(&["-c", "echo hi"]));
    assert_eq!(
        spec.env,
        pairs(&[
            ("NPM_CONFIG_REGISTRY", "https://r"),
            ("npm_config_registry", "https://r"),
            ("PATH", "/bin:/usr/bin"),
        ])
    );
}

#[test]
fn cmd_and_powershell_get_only_the_registry() {
    let spec = cmd_invocation("dir", "https://r");
    assert_eq!(spec.program, "cmd");
    assert_eq!(spec.args, strings(&["/c", "dir"]));
    assert_eq!(spec.env.len(), 2);
    let spec = powershell_invocation("Get-Item .", "https://r");
    assert_eq!(spec.program, "powershell");
    assert_eq!(
        spec.args,
        strings(&["-NoProfile", "-NonInteractive", "-ExecutionPolicy", "Bypass", "-Command", "Get-Item ."])
    );
}

#[test]
fn command_keeps_its_arguments() {
    let spec = command_invocation("npm", &strings(&["install", "-g", "openclaw"]), "r", "p");
    assert_eq!(spec.program, "npm");
    assert_eq!(spec.args, strings(&["install", "-g", "openclaw"]));
}

#[test]
fn openclaw_cmd_scripts_run_through_cmd() {
    let spec = openclaw_invocation("C:\\npm\\openclaw.cmd", &strings(&["status"]), "tok", "r", "p");
    assert_eq!(spec.program, "cmd");
    assert_eq!(spec.args, strings(&["/c", "C:\\npm\\openclaw.cmd", "status"]));
    assert_eq!(spec.env[0], ("OPENCLAW_GATEWAY_TOKEN".to_string(), "tok".to_string()));
    let spec = openclaw_invocation("/usr/bin/openclaw", &strings(&["status"]), "tok", "r", "p");
    assert_eq!(spec.program, "/usr/bin/openclaw");
    assert_eq!(spec.args, strings(&["status"]));
}

#[test]
fn openclaw_output_joins_outputs_on_failure() {
    let ok = Ok(CommandOutput { success: true, code: Some(0), stdout: " out\n".to_string(), stderr: String::new() });
    assert_eq!(openclaw_output(ok), Ok(" out\n".to_string()));
    let bad = Ok(CommandOutput { success: false, code: Some(1), stdout: "o".to_string(), stderr: "e\n".to_string() });
    assert_eq!(openclaw_output(bad), Err("o\ne".to_string()));
    assert_eq!(openclaw_output(Err("denied".to_string())), Err("执行 openclaw 失败: denied".to_string()));
}

#[test]
fn gateway_token_defaults() {
    assert_eq!(gateway_token_or_default(None), "openclaw-manager-local-token");
    assert_eq!(gateway_token_or_default(Some("t".to_string())), "t");
}

#[test]
fn gateway_environment_puts_the_user_first_and_the_token_last() {
    let user = pairs(&[("PATH", "/mine"), ("ANTHROPIC_API_KEY", "k")]);
    let spec = gateway_invocation("/usr/bin/openclaw", &user, "r", "/ext", "tok");
    assert_eq!(spec.program, "/usr/bin/openclaw");
    assert_eq!(spec.args, strings(&["gateway", "--port", "18789"]));
    assert_eq!(
        spec.env,
        pairs(&[
            ("PATH", "/mine"),
            ("ANTHROPIC_API_KEY", "k"),
            ("NPM_CONFIG_REGISTRY", "r"),
            ("npm_config_registry", "r"),
            ("PATH", "/ext"),
            ("OPENCLAW_GATEWAY_TOKEN", "tok"),
        ])
    );
    let spec = gateway_invocation("C:\\x\\openclaw.cmd", &Vec::new(), "r", "p", "t");
    assert_eq!(spec.args, strings(&["/c", "C:\\x\\openclaw.cmd", "gateway", "--port", "18789"]));
}

#[test]
fn gateway_logs_live_under_the_config_dir() {
    let (dir, out, err) = gateway_log_paths("/home/u/.openclaw");
    assert_eq!(dir, "/home/u/.openclaw/logs");
    assert_eq!(out, "/home/u/.openclaw/logs/gateway.log");
    assert_eq!(err, "/home/u/.openclaw/logs/gateway.err.log");
    assert_eq!(gateway_spawn_error("/p", "boom"), "启动失败 (路径: /p): boom");
}

#[test]
fn missing_openclaw_is_reported() {
    assert_eq!(
        require_openclaw_path(None),
        Err("找不到 openclaw 命令，请确保已通过 npm install -g openclaw 安装".to_string())
    );
    assert_eq!(
        require_openclaw_path(Some("/x".to_string())),
        Ok("/x".to_string())
    );
}
