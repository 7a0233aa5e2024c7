use openclaw_manager::order::sort_descending;
use openclaw_manager::paths::{extended_path, unix_openclaw_paths, windows_openclaw_paths};

fn strings(v: &[&str]) -> Vec<String> {
    v.iter().map(|s| s.to_string()).collect()
}

#[test]
fn extended_path_without_home() {
    assert_eq!(
        extended_path(None, Some("22"), &strings(&["/x"]), "", false),
        "/opt/homebrew/bin:/usr/local/bin:/usr/bin:/bin"
    );
    assert_eq!(
        extended_path(None, None, &Vec::new(), "C:\\bin", true),
        "/opt/homebrew/bin;/usr/local/bin;/usr/bin;/bin;C:\\bin"
    );
}

#[test]
fn extended_path_with_home() {
    let installed = strings(&["/h/.nvm/versions/node/v18.0.0/bin", "/h/.nvm/versions/node/v20.1.0/bin"]);
    let p = extended_path(Some("/h"), Some(" 20.1.0\n"), &installed, "/usr/sbin", false);
    let expected = [
        "/h/.nvm/versions/node/v20.1.0/bin",
        "/opt/homebrew/bin",
        "/usr/local/bin",
        "/usr/bin",
        "/bin",
        "/h/.nvm/versions/node/v20.1.0/bin",
        "/h/.nvm/versions/node/v18.0.0/bin",
        "/h/.nvm/versions/node/v22.22.0/bin",
        "/h/.nvm/versions/node/v22.12.0/bin",
        "/h/.nvm/versions/node/v22.11.0/bin",
        "/h/.nvm/versions/node/v22.0.0/bin",
        "/h/.nvm/versions/node/v23.0.0/bin",
        "/h/.fnm/aliases/default/bin",
        "/h/.volta/bin",
        "/h/.asdf/shims",
        "/h/.local/share/mise/shims",
        "/usr/sbin",
    ]
    .join(":");
    assert_eq!(p, expected);
    let p = extended_path(Some("/h"), Some("  "), &Vec::new(), "", false);
    assert!(p.starts_with("/opt/homebrew/bin:"));
}

#[test]
fn sorting_matches_std() {
    let v = strings(&["b", "a", "ä", "ab", "", "B", "b"]);
    let mut expected = v.clone();
    expected.sort();
    expected.reverse();
    assert_eq!(sort_descending(&v), expected);
}

#[test]
fn unix_candidates() {
    assert_eq!(
        unix_openclaw_paths(None, None, &Vec::new()),
        strings(&["/usr/local/bin/openclaw", "/opt/homebrew/bin/openclaw", "/usr/bin/openclaw"])
    );
    let paths = unix_openclaw_paths(Some("/h"), Some("22.1.0"), &strings(&["/h/a", "/h/b"]));
    assert_eq!(paths[3], "/h/.npm-global/bin/openclaw");
    assert_eq!(paths[4], "/h/.nvm/versions/node/v22.1.0/bin/openclaw");
    assert_eq!(paths[5], "/h/b");
    assert_eq!(paths[6], "/h/a");
    assert_eq!(paths[7], "/h/.nvm/versions/node/v22.22.0/bin/openclaw");
    assert_eq!(paths.last().unwrap(), "/h/.config/yarn/global/node_modules/.bin/openclaw");
    assert_eq!(paths.len(), 20);
    let paths = unix_openclaw_paths(Some("/h"), Some("v20\n"), &Vec::new());
    assert_eq!(paths[4], "/h/.nvm/versions/node/v20/bin/openclaw");
}

#[test]
fn windows_candidates() {
    assert_eq!(
        windows_openclaw_paths(Some("C:\\Users\\u")),
        strings(&[
            "C:\\nvm4w\\nodejs\\openclaw.cmd",
            "C:\\Users\\u\\AppData\\Roaming\\npm\\openclaw.cmd",
            "C:\\Program Files\\nodejs\\openclaw.cmd",
        ])
    );
    assert_eq!(windows_openclaw_paths(None).len(), 2);
}
