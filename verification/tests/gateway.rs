use openclaw_manager::gateway_token::{
    read_gateway_token_from_config, resolve_gateway_token, token_from_config_field,
};

#[test]
fn token_comes_from_the_json_config() {
    let config = r#"{"gateway": {"auth": {"token": "  secret  "}}}"#;
    assert_eq!(read_gateway_token_from_config(Some(config)), Some("secret".to_string()));
    assert_eq!(resolve_gateway_token(Some(config), Some("export OPENCLAW_GATEWAY_TOKEN=\"env\"")), Some("secret".to_string()));
}

#[test]
fn token_falls_back_to_the_env_file() {
    let env = "export OPENCLAW_GATEWAY_TOKEN=\" from-env \"";
    assert_eq!(resolve_gateway_token(None, Some(env)), Some("from-env".to_string()));
    assert_eq!(resolve_gateway_token(Some("not json"), Some(env)), Some("from-env".to_string()));
    let blank = r#"{"gateway": {"auth": {"token": "   "}}}"#;
    assert_eq!(resolve_gateway_token(Some(blank), Some(env)), Some("from-env".to_string()));
    let number = r#"{"gateway": {"auth": {"token": 5}}}"#;
    assert_eq!(resolve_gateway_token(Some(number), Some(env)), Some("from-env".to_string()));
    assert_eq!(resolve_gateway_token(Some(number), None), None);
    assert_eq!(resolve_gateway_token(None, Some("export OPENCLAW_GATEWAY_TOKEN=")), None);
}

#[test]
fn config_field_is_trimmed_and_non_blank() {
    assert_eq!(token_from_config_field(Some(" t\n")), Some("t".to_string()));
    assert_eq!(token_from_config_field(Some(" \t")), None);
    assert_eq!(token_from_config_field(None), None);
    assert_eq!(read_gateway_token_from_config(Some(r#"{"gateway": {}}"#)), None);
    assert_eq!(read_gateway_token_from_config(None), None);
}
