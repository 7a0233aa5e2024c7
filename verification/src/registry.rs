//! Which npm registry child processes use.
use vstd::prelude::*;
use crate::text::{chars_of, concat3, opt_view, string_of, trim_chars, trimmed_nonblank};

verus! {

/// The registry used when no override is set.
pub const DEFAULT_NPM_REGISTRY: &'static str = "https://registry.npmmirror.com";

/// The first usable override among the three, or the default registry.
pub open spec fn resolved_registry(
    openclaw: Option<Seq<char>>,
    npm_upper: Option<Seq<char>>,
    npm_lower: Option<Seq<char>>,
) -> Seq<char> {
    match trimmed_nonblank(openclaw) {
        Some(r) => r,
        None => match trimmed_nonblank(npm_upper) {
            Some(r) => r,
            None => match trimmed_nonblank(npm_lower) {
                Some(r) => r,
                None => DEFAULT_NPM_REGISTRY@,
            },
        },
    }
}

fn trimmed_nonblank_exec(o: Option<&str>) -> (res: Option<String>)
    ensures
        match res {
            Some(r) => trimmed_nonblank(opt_view(o)) == Some(r@),
            None => trimmed_nonblank(opt_view(o)) is None,
        },
{
    match o {
        None => None,
        Some(s) => {
            let cs = chars_of(s);
            let t = trim_chars(&cs);
            if t.len() > 0 {
                Some(string_of(&t))
            } else {
                None
            }
        },
    }
}

/// The npm registry from the values of `OPENCLAW_NPM_REGISTRY`,
/// `NPM_CONFIG_REGISTRY` and `npm_config_registry`, in that order of
/// preference; blank values are skipped and the chosen one is trimmed.
pub fn resolve_npm_registry_from_env(
    openclaw_registry: Option<&str>,
    npm_config_registry: Option<&str>,
    npm_config_registry_lower: Option<&str>,
) -> (res: String)
    ensures
        res@ == resolved_registry(
            opt_view(openclaw_registry),
            opt_view(npm_config_registry),
            opt_view(npm_config_registry_lower),
        ),
{
    if let Some(r) = trimmed_nonblank_exec(openclaw_registry) {
        return r;
    }
    if let Some(r) = trimmed_nonblank_exec(npm_config_registry) {
        return r;
    }
    if let Some(r) = trimmed_nonblank_exec(npm_config_registry_lower) {
        return r;
    }
    DEFAULT_NPM_REGISTRY.to_owned()
}

/// The bash prelude before the default registry.
pub const BASH_PRELUDE_HEAD: &'static str = "export npm_config_registry=\"${OPENCLAW_NPM_REGISTRY:-${NPM_CONFIG_REGISTRY:-";

/// The bash prelude after the default registry.
pub const BASH_PRELUDE_TAIL: &'static str = "}}\"\nexport NPM_CONFIG_REGISTRY=\"$npm_config_registry\"\necho \"使用 npm registry: $npm_config_registry\"\nif command -v npm >/dev/null 2>&1; then\n  npm config set registry \"$npm_config_registry\" --location=user >/dev/null 2>&1 || true\nfi\n";

/// The PowerShell prelude before the default registry.
pub const POWERSHELL_PRELUDE_HEAD: &'static str = "$registry = $env:OPENCLAW_NPM_REGISTRY\nif (-not $registry) { $registry = $env:NPM_CONFIG_REGISTRY }\nif (-not $registry) { $registry = \"";

/// The PowerShell prelude after the default registry.
pub const POWERSHELL_PRELUDE_TAIL: &'static str = "\" }\n$env:npm_config_registry = $registry\n$env:NPM_CONFIG_REGISTRY = $registry\nWrite-Host \"使用 npm registry: $registry\"\nif (Get-Command npm -ErrorAction SilentlyContinue) {\n  npm config set registry $registry --location=user | Out-Null\n}\n";

/// A bash script prelude that exports the npm registry (an override from the
/// environment, else the default) and configures npm with it.
pub fn npm_registry_bash_prelude() -> (res: String)
    ensures
        res@ == BASH_PRELUDE_HEAD@ + DEFAULT_NPM_REGISTRY@ + BASH_PRELUDE_TAIL@,
{
    concat3(BASH_PRELUDE_HEAD, DEFAULT_NPM_REGISTRY, BASH_PRELUDE_TAIL)
}

/// The same prelude for PowerShell.
pub fn npm_registry_powershell_prelude() -> (res: String)
    ensures
        res@ == POWERSHELL_PRELUDE_HEAD@ + DEFAULT_NPM_REGISTRY@ + POWERSHELL_PRELUDE_TAIL@,
{
    concat3(POWERSHELL_PRELUDE_HEAD, DEFAULT_NPM_REGISTRY, POWERSHELL_PRELUDE_TAIL)
}

} // verus!
