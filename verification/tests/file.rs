use openclaw_manager::envfile::{
    escape_env_value, load_openclaw_env_vars, parse_env_value, read_env_value, remove_env_value,
    set_env_value, unescape_env_value, validate_env_key, EnvError,
};

#[test]
fn set_env_value_rejects_invalid_keys() {
    let result = set_env_value("", "BAD KEY", "value");

    assert!(result.is_err());
    assert_eq!(result, Err(EnvError::InvalidKey));
}

#[test]
fn set_env_value_rejects_multiline_values() {
    let result = set_env_value("", "OPENCLAW_TEST", "line1\nline2");

    assert!(result.is_err());
    assert_eq!(result, Err(EnvError::MultilineValue));
}

#[test]
fn set_env_value_escapes_shell_sensitive_characters_and_round_trips() {
    let value = r#"abc "quoted" $HOME `cmd` \ slash"#;

    let content = set_env_value("", "OPENCLAW_TEST", value).expect("value should be written");
    let loaded = read_env_value(&content, "OPENCLAW_TEST").expect("value should round trip");

    assert_eq!(
        content,
        r#"export OPENCLAW_TEST="abc \"quoted\" \$HOME \`cmd\` \\ slash""#
    );
    assert_eq!(loaded, value);
}

#[test]
fn set_env_value_replaces_only_the_first_assignment() {
    let content = "# comment\nexport A=\"1\"\nexport B=2\nexport A=3\n";
    assert_eq!(
        set_env_value(content, "A", "x").unwrap(),
        "# comment\nexport A=\"x\"\nexport B=2\nexport A=3"
    );
}

#[test]
fn set_env_value_appends_a_new_key() {
    assert_eq!(
        set_env_value("export A=1\r\n", "B", "two").unwrap(),
        "export A=1\nexport B=\"two\""
    );
}

#[test]
fn set_env_value_rejects_empty_key_and_carriage_returns() {
    assert_eq!(set_env_value("", "", "v"), Err(EnvError::EmptyKey));
    assert_eq!(set_env_value("", "1ABC", "v"), Err(EnvError::InvalidKey));
    assert_eq!(set_env_value("", "A", "a\rb"), Err(EnvError::MultilineValue));
}

#[test]
fn remove_env_value_drops_every_assignment_of_the_key() {
    let content = "export A=1\nexport AB=2\nexport A=3\nkeep";
    assert_eq!(remove_env_value(content, "A").unwrap(), "export AB=2\nkeep");
    assert_eq!(remove_env_value(content, "A B"), Err(EnvError::InvalidKey));
}

#[test]
fn read_env_value_trims_lines_and_handles_quotes() {
    let content = "  export A= 'single $x'  \nexport B=plain\nexport C=\"esc\\\"aped\"";
    assert_eq!(read_env_value(content, "A").unwrap(), "single $x");
    assert_eq!(read_env_value(content, "B").unwrap(), "plain");
    assert_eq!(read_env_value(content, "C").unwrap(), "esc\"aped");
    assert_eq!(read_env_value(content, "D"), None);
}

#[test]
fn read_env_value_strips_a_repeated_prefix() {
    assert_eq!(read_env_value("export K=export K=v", "K").unwrap(), "v");
}

#[test]
fn read_after_remove_gives_nothing() {
    let content = "export K=\"a\"\nexport L=\"b\"";
    let removed = remove_env_value(content, "K").unwrap();
    assert_eq!(read_env_value(&removed, "K"), None);
    assert_eq!(read_env_value(&removed, "L").unwrap(), "b");
}

#[test]
fn set_keeps_other_keys() {
    let content = "export K=\"a\"\nexport L=\"b\"";
    let updated = set_env_value(content, "K", "new").unwrap();
    assert_eq!(read_env_value(&updated, "L").unwrap(), "b");
    assert_eq!(read_env_value(&updated, "K").unwrap(), "new");
}

#[test]
fn escape_and_unescape() {
    assert_eq!(escape_env_value("a$b`c\"d\\e").unwrap(), "a\\$b\\`c\\\"d\\\\e");
    assert_eq!(escape_env_value("a\nb"), Err(EnvError::MultilineValue));
    assert_eq!(unescape_env_value("a\\$b\\"), "a$b");
    assert_eq!(parse_env_value("  \"x\\\\y\"  "), "x\\y");
    assert_eq!(parse_env_value("\""), "\"");
}

#[test]
fn validate_env_key_accepts_shell_names() {
    assert_eq!(validate_env_key("_A1"), Ok(()));
    assert_eq!(validate_env_key(""), Err(EnvError::EmptyKey));
    assert_eq!(validate_env_key("A-B"), Err(EnvError::InvalidKey));
}

#[test]
fn load_openclaw_env_vars_keeps_the_last_assignment() {
    let content = "# comment\n\nexport A=\"1\"\nB = '2'\nexport A=3\nnot an assignment\nC=\"x\\\"\"";
    let mut vars = load_openclaw_env_vars(content);
    vars.sort();
    assert_eq!(
        vars,
        vec![
            ("A".to_string(), "3".to_string()),
            ("B".to_string(), "2".to_string()),
            ("C".to_string(), "x\"".to_string()),
        ]
    );
}

#[test]
fn load_after_set_sees_the_new_key() {
    let content = "export A=\"1\"\n# note\n";
    let updated = set_env_value(content, "B", "two words $x").unwrap();
    let mut vars = load_openclaw_env_vars(&updated);
    vars.sort();
    assert_eq!(
        vars,
        vec![
            ("A".to_string(), "1".to_string()),
            ("B".to_string(), "two words $x".to_string()),
        ]
    );
}

#[test]
fn load_keeps_a_trailing_escaped_quote() {
    let updated = set_env_value("", "Q", "a\"").unwrap();
    assert_eq!(read_env_value(&updated, "Q").unwrap(), "a\"");
    assert_eq!(load_openclaw_env_vars(&updated), vec![("Q".to_string(), "a\"".to_string())]);
}

#[test]
fn load_reads_quotes_as_a_shell_does() {
    assert_eq!(
        load_openclaw_env_vars("export K='a\\b'"),
        vec![("K".to_string(), "a\\b".to_string())]
    );
    assert_eq!(
        load_openclaw_env_vars("export K=\"a\\b \\$x\""),
        vec![("K".to_string(), "a\\b $x".to_string())]
    );
    assert_eq!(
        load_openclaw_env_vars("K=a\\ b"),
        vec![("K".to_string(), "a b".to_string())]
    );
}

#[test]
fn load_after_set_round_trips_any_value() {
    for v in ["", "\"", "'", "'x'", "a\"", "\\", "$HOME `cmd` \\ \"q\" 'single'", "  spaced  "] {
        let updated = set_env_value("# c", "K", v).unwrap();
        assert_eq!(load_openclaw_env_vars(&updated), vec![("K".to_string(), v.to_string())], "value {:?}", v);
    }
}
