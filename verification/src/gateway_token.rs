//! Which token authenticates to the local gateway: the one in the JSON
//! configuration file, else the one in the environment file.
use vstd::prelude::*;
use crate::envfile::{env_value, read_env_value};
use crate::text::{opt_view, trim, trim_nonblank, trimmed_nonblank};

verus! {

/// A JSON value of `serde_json`.
#[verifier::external_type_specification]
#[verifier::external_body]
pub struct ExJsonValue(serde_json::Value);

/// The value `serde_json::from_str` reads from `text`, if the text is a JSON
/// document.
pub uninterp spec fn json_parse(text: Seq<char>) -> Option<serde_json::Value>;

/// The value that `Value::pointer` finds at the JSON pointer `pointer`.
pub uninterp spec fn json_pointer(value: serde_json::Value, pointer: Seq<char>) -> Option<
    serde_json::Value,
>;

/// The text that `Value::as_str` finds in a JSON string value.
pub uninterp spec fn json_str(value: serde_json::Value) -> Option<Seq<char>>;

/// Reads a JSON document (`serde_json::from_str::<Value>`); gives nothing
/// when the text is not one. The result is named, not described.
#[verifier::external_body]
fn parse_json(text: &str) -> (res: Option<serde_json::Value>)
    ensures
        res == json_parse(text@),
{
    serde_json::from_str::<serde_json::Value>(text).ok()
}

/// The value at a JSON pointer (`Value::pointer`). The result is named, not
/// described.
#[verifier::external_body]
fn value_at<'a>(value: &'a serde_json::Value, pointer: &str) -> (res: Option<&'a serde_json::Value>)
    ensures
        match res {
            Some(v) => json_pointer(*value, pointer@) == Some(*v),
            None => json_pointer(*value, pointer@) is None,
        },
{
    value.pointer(pointer)
}

/// The text of a JSON string value (`Value::as_str`), copied. The result is
/// named, not described.
#[verifier::external_body]
fn value_str(value: &serde_json::Value) -> (res: Option<String>)
    ensures
        match res {
            Some(s) => json_str(*value) == Some(s@),
            None => json_str(*value) is None,
        },
{
    match value.as_str() {
        Some(s) => Some(s.to_string()),
        None => None,
    }
}

/// Where the token is in the configuration file.
pub const GATEWAY_TOKEN_POINTER: &'static str = "/gateway/auth/token";

/// The key of the token in the environment file.
pub const GATEWAY_TOKEN_KEY: &'static str = "OPENCLAW_GATEWAY_TOKEN";

/// The string at `/gateway/auth/token` in the configuration text, if it is
/// JSON and holds a string there.
pub open spec fn config_token_field(config: Seq<char>) -> Option<Seq<char>> {
    match json_parse(config) {
        Some(v) => match json_pointer(v, GATEWAY_TOKEN_POINTER@) {
            Some(t) => json_str(t),
            None => None,
        },
        None => None,
    }
}

/// The token from the configuration file's text, if it could be read.
pub open spec fn config_token(config: Option<Seq<char>>) -> Option<Seq<char>> {
    match config {
        Some(c) => trimmed_nonblank(config_token_field(c)),
        None => None,
    }
}

/// The token from the environment file's text, if it could be read.
pub open spec fn env_token(env: Option<Seq<char>>) -> Option<Seq<char>> {
    match env {
        Some(e) => trimmed_nonblank(env_value(e, GATEWAY_TOKEN_KEY@)),
        None => None,
    }
}

/// The gateway token: from the configuration file, else from the
/// environment file.
pub open spec fn gateway_token(config: Option<Seq<char>>, env: Option<Seq<char>>) -> Option<
    Seq<char>,
> {
    match config_token(config) {
        Some(t) => Some(t),
        None => env_token(env),
    }
}

/// A token in the configuration file wins: whenever the configuration text
/// holds a string at `/gateway/auth/token` that is not blank, the resolved
/// token is that string trimmed, whatever the environment file holds and
/// whether it could be read at all; the environment file is consulted only
/// when the configuration gives no token.
pub proof fn law_config_token_wins(
    config: Seq<char>,
    field: Seq<char>,
    env: Option<Seq<char>>,
    other_env: Option<Seq<char>>,
)
    requires
        config_token_field(config) == Some(field),
        trim(field).len() > 0,
    ensures
        gateway_token(Some(config), env) == Some(trim(field)),
        gateway_token(Some(config), env) == gateway_token(Some(config), other_env),
{
}

/// Without a token in the configuration (no file, not JSON, no string at
/// `/gateway/auth/token`, or a blank one), the resolved token is the trimmed
/// `OPENCLAW_GATEWAY_TOKEN` of the environment file, if it is not blank.
pub proof fn law_env_token_fallback(config: Option<Seq<char>>, env: Seq<char>)
    requires
        config_token(config) is None,
    ensures
        gateway_token(config, Some(env)) == (match env_value(env, GATEWAY_TOKEN_KEY@) {
            Some(v) => if trim(v).len() > 0 {
                Some(trim(v))
            } else {
                None
            },
            None => None,
        }),
        gateway_token(config, None) is None,
{
}

/// The token in a field read from the configuration: trimmed, and only if
/// it is not blank.
pub fn token_from_config_field(field: Option<&str>) -> (res: Option<String>)
    ensures
        match res {
            Some(t) => trimmed_nonblank(opt_view(field)) == Some(t@),
            None => trimmed_nonblank(opt_view(field)) is None,
        },
{
    trim_nonblank(field)
}

/// The token in the text of the JSON configuration file, if it could be
/// read.
pub fn read_gateway_token_from_config(config: Option<&str>) -> (res: Option<String>)
    ensures
        match res {
            Some(t) => config_token(opt_view(config)) == Some(t@),
            None => config_token(opt_view(config)) is None,
        },
{
    let text = match config {
        Some(c) => c,
        None => return None,
    };
    let value = match parse_json(text) {
        Some(v) => v,
        None => return None,
    };
    let field = match value_at(&value, GATEWAY_TOKEN_POINTER) {
        Some(t) => value_str(t),
        None => None,
    };
    match &field {
        Some(f) => token_from_config_field(Some(f.as_str())),
        None => token_from_config_field(None),
    }
}

/// The gateway token from the texts of the configuration file and of the
/// environment file (each `None` when it could not be read): the trimmed
/// token in the configuration, else the trimmed `OPENCLAW_GATEWAY_TOKEN` of
/// the environment file; blank tokens are skipped.
pub fn resolve_gateway_token(config: Option<&str>, env: Option<&str>) -> (res: Option<String>)
    ensures
        match res {
            Some(t) => gateway_token(opt_view(config), opt_view(env)) == Some(t@),
            None => gateway_token(opt_view(config), opt_view(env)) is None,
        },
{
    if let Some(t) = read_gateway_token_from_config(config) {
        return Some(t);
    }
    match env {
        None => None,
        Some(e) => {
            let v = read_env_value(e, GATEWAY_TOKEN_KEY);
            match &v {
                Some(s) => token_from_config_field(Some(s.as_str())),
                None => token_from_config_field(None),
            }
        },
    }
}

} // verus!
