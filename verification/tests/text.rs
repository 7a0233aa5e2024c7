use openclaw_manager::text::{join_strings, last_lines, split_lines, trim_string};
use openclaw_manager::token::{windows_random_bytes, windows_random_command};
use openclaw_manager::command::CommandOutput;

fn strings(v: &[&str]) -> Vec<String> {
    v.iter().map(|s| s.to_string()).collect()
}

#[test]
fn trim_matches_std() {
    for s in ["", "  ", " a b ", "\u{3000}x\u{85}", "\r\n\tq\u{a0}", "\u{200b}z"] {
        assert_eq!(trim_string(s), s.trim());
    }
}

#[test]
fn last_lines_keeps_the_tail() {
    let lines = strings(&["a", "b", "c"]);
    assert_eq!(last_lines(lines.clone(), 2), strings(&["b", "c"]));
    assert_eq!(last_lines(lines.clone(), 5), lines);
    assert_eq!(last_lines(lines, 0), Vec::<String>::new());
}

#[test]
fn windows_random_source() {
    let spec = windows_random_command(32);
    assert_eq!(spec.program, "powershell");
    assert_eq!(
        spec.args[3],
        "[Convert]::ToHexString([System.Security.Cryptography.RandomNumberGenerator]::GetBytes(32)).ToLowerInvariant()"
    );
    let ok = |s: &str| Ok(CommandOutput { success: true, code: Some(0), stdout: s.to_string(), stderr: String::new() });
    assert_eq!(windows_random_bytes(ok(" 00ffA1\r\n"), 3), Ok(vec![0x00, 0xff, 0xa1]));
    assert_eq!(windows_random_bytes(ok("00ff"), 3), Err("Windows 随机源返回了无效数据".to_string()));
    assert_eq!(windows_random_bytes(ok("00fg"), 2), Err("Windows 随机源返回了无效数据".to_string()));
    assert_eq!(windows_random_bytes(Err("gone".to_string()), 2), Err("调用 Windows 随机源失败: gone".to_string()));
    let failed = Ok(CommandOutput { success: false, code: Some(1), stdout: String::new(), stderr: " denied ".to_string() });
    assert_eq!(windows_random_bytes(failed, 2), Err("denied".to_string()));
}

#[test]
fn split_lines_matches_std() {
    for s in ["", "a", "a\n", "a\r\n", "a\r", "\n\n", "x\r\ny\rz\n\r\n", "\r"] {
        let chars: Vec<char> = s.chars().collect();
        let got: Vec<String> = split_lines(&chars).into_iter().map(|l| l.into_iter().collect()).collect();
        let expected: Vec<String> = s.lines().map(|l| l.to_string()).collect();
        assert_eq!(got, expected, "lines of {:?}", s);
    }
}

#[test]
fn join_strings_matches_std() {
    let parts = vec!["a".to_string(), String::new(), "c".to_string()];
    assert_eq!(join_strings(&parts, "::"), parts.join("::"));
    assert_eq!(join_strings(&Vec::new(), ":"), "");
}
