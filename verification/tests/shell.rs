use openclaw_manager::registry::{
    npm_registry_bash_prelude, npm_registry_powershell_prelude, resolve_npm_registry_from_env,
    DEFAULT_NPM_REGISTRY,
};

#[test]
fn resolve_npm_registry_defaults_to_china_mirror() {
    assert_eq!(
        resolve_npm_registry_from_env(None, None, None),
        DEFAULT_NPM_REGISTRY
    );
}

#[test]
fn resolve_npm_registry_ignores_empty_overrides() {
    assert_eq!(
        resolve_npm_registry_from_env(Some(""), Some("   "), None),
        DEFAULT_NPM_REGISTRY
    );
}

#[test]
fn resolve_npm_registry_prefers_explicit_openclaw_override() {
    assert_eq!(
        resolve_npm_registry_from_env(
            Some("https://custom.example"),
            Some("https://npm.example"),
            None
        ),
        "https://custom.example"
    );
}

#[test]
fn resolve_npm_registry_respects_existing_npm_registry() {
    assert_eq!(
        resolve_npm_registry_from_env(None, Some("https://npm.example"), None),
        "https://npm.example"
    );
}

#[test]
fn resolve_npm_registry_trims_and_falls_back_to_lower_case_variable() {
    assert_eq!(
        resolve_npm_registry_from_env(Some(" \t"), None, Some("  https://lower.example \n")),
        "https://lower.example"
    );
}

#[test]
fn bash_prelude_names_default_registry() {
    let expected = "export npm_config_registry=\"${OPENCLAW_NPM_REGISTRY:-${NPM_CONFIG_REGISTRY:-https://registry.npmmirror.com}}\"\n\
export NPM_CONFIG_REGISTRY=\"$npm_config_registry\"\n\
echo \"使用 npm registry: $npm_config_registry\"\n\
if command -v npm >/dev/null 2>&1; then\n  npm config set registry \"$npm_config_registry\" --location=user >/dev/null 2>&1 || true\nfi\n";
    assert_eq!(npm_registry_bash_prelude(), expected);
}

#[test]
fn powershell_prelude_names_default_registry() {
    let expected = "$registry = $env:OPENCLAW_NPM_REGISTRY\n\
if (-not $registry) { $registry = $env:NPM_CONFIG_REGISTRY }\n\
if (-not $registry) { $registry = \"https://registry.npmmirror.com\" }\n\
$env:npm_config_registry = $registry\n\
$env:NPM_CONFIG_REGISTRY = $registry\n\
Write-Host \"使用 npm registry: $registry\"\n\
if (Get-Command npm -ErrorAction SilentlyContinue) {\n  npm config set registry $registry --location=user | Out-Null\n}\n";
    assert_eq!(npm_registry_powershell_prelude(), expected);
}
