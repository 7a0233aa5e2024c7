use openclaw_manager::probe::{OpenclawProbe, ProbeAction, ProbeEvent};
use std::collections::HashSet;

/// Runs the search against a fixed world.
fn run(candidates: &[&str], windows: bool, files: &[&str], on_path: bool, shell: Result<&str, &str>) -> Option<String> {
    let files: HashSet<&str> = files.iter().copied().collect();
    let (mut probe, mut action) =
        OpenclawProbe::new(candidates.iter().map(|s| s.to_string()).collect(), windows);
    let mut steps = 0;
    loop {
        steps += 1;
        assert!(steps <= candidates.len() + 4);
        action = match action {
            ProbeAction::CheckFile(p) => probe.step(ProbeEvent::Exists(files.contains(p.as_str()))),
            ProbeAction::CheckCommand(c) => {
                assert_eq!(c, "openclaw");
                probe.step(ProbeEvent::CommandFound(on_path))
            }
            ProbeAction::RunShell(_) => probe.step(ProbeEvent::ShellOutput(
                shell.map(|s| s.to_string()).map_err(|e| e.to_string()),
            )),
            ProbeAction::Finish(r) => return r,
        };
    }
}

#[test]
fn probe_takes_the_first_existing_candidate() {
    assert_eq!(run(&["/a", "/b", "/c"], false, &["/c", "/b"], true, Ok("/z")), Some("/b".to_string()));
}

#[test]
fn probe_falls_back_to_the_path_then_the_shell() {
    assert_eq!(run(&["/a"], false, &[], true, Ok("/z")), Some("openclaw".to_string()));
    assert_eq!(run(&["/a"], false, &["/z"], false, Ok("/z")), Some("/z".to_string()));
    assert_eq!(run(&["/a"], false, &[], false, Ok("/z")), None);
    assert_eq!(run(&[], false, &["/z"], false, Ok("")), None);
    assert_eq!(run(&[], false, &["/z"], false, Err("failed")), None);
}

#[test]
fn probe_never_asks_the_shell_on_windows() {
    assert_eq!(run(&["C:\\a.cmd"], true, &["/z"], false, Ok("/z")), None);
    assert_eq!(run(&[], true, &[], true, Ok("/z")), Some("openclaw".to_string()));
}
