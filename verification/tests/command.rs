use openclaw_manager::command::{
    command_lookup_program, debug_exit_code, decimal_string, run_bash_output, run_cmd_output,
    run_command_output, run_powershell_output, run_script_output, CommandOutput,
};

fn out(success: bool, code: Option<i32>, stdout: &str, stderr: &str) -> Result<CommandOutput, String> {
    Ok(CommandOutput {
        success,
        code,
        stdout: stdout.to_string(),
        stderr: stderr.to_string(),
    })
}

#[test]
fn command_output_trims_stdout_on_success() {
    assert_eq!(run_command_output(out(true, Some(0), "  hi\n", "x")), Ok("hi".to_string()));
    assert_eq!(run_command_output(out(false, Some(1), "hi", " err \n")), Err("err".to_string()));
    assert_eq!(run_command_output(Err("no such file".to_string())), Err("no such file".to_string()));
}

#[test]
fn bash_output_reports_the_exit_code_when_stderr_is_empty() {
    assert_eq!(
        run_bash_output(out(false, Some(2), "ignored", "  ")),
        Err("Command failed with exit code: Some(2)".to_string())
    );
    assert_eq!(
        run_bash_output(out(false, None, "", "")),
        Err("Command failed with exit code: None".to_string())
    );
    assert_eq!(run_bash_output(out(false, Some(2), "", "bad\n")), Err("bad".to_string()));
    assert_eq!(run_bash_output(out(true, Some(0), "\tok\n", "")), Ok("ok".to_string()));
}

#[test]
fn windows_outputs_fall_back_to_stdout() {
    assert_eq!(run_cmd_output(out(false, Some(1), " said \r\n", "")), Err("said".to_string()));
    assert_eq!(
        run_powershell_output(out(false, Some(-1073741510), "", "")),
        Err("Command failed with exit code: Some(-1073741510)".to_string())
    );
    assert_eq!(run_powershell_output(out(false, Some(1), "o", "e")), Err("e".to_string()));
}

#[test]
fn script_output_follows_the_platform() {
    assert_eq!(run_script_output(true, out(false, Some(3), "text", "")), Err("text".to_string()));
    assert_eq!(
        run_script_output(false, out(false, Some(3), "text", "")),
        Err("Command failed with exit code: Some(3)".to_string())
    );
}

#[test]
fn exit_codes_print_like_debug() {
    assert_eq!(debug_exit_code(Some(0)), format!("{:?}", Some(0)));
    assert_eq!(debug_exit_code(Some(i32::MIN)), format!("{:?}", Some(i32::MIN)));
    assert_eq!(debug_exit_code(Some(i32::MAX)), format!("{:?}", Some(i32::MAX)));
    assert_eq!(debug_exit_code(None), "None");
    assert_eq!(decimal_string(1234567890123), "1234567890123");
}

#[test]
fn lookup_program_depends_on_platform() {
    assert_eq!(command_lookup_program(true), "where");
    assert_eq!(command_lookup_program(false), "which");
}
