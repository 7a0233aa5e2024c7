//! Where node tools are looked for: the extended `PATH` and the places the
//! `openclaw` tool may be installed.
use vstd::prelude::*;
use crate::order::{
    lemma_sorted_descending_facts, lemma_sorted_descending_permutation, lex_le, sort_descending,
    sorted_descending,
};
use crate::text::{
    chars_of, concat2, concat3, join_sep, join_strings, opt_view, starts_with,
    string_views, trim_nonblank, trimmed_nonblank,
};

verus! {

/// The user's home directory (`dirs::home_dir`), as text.
///
/// What it gives depends on the environment (`$HOME`, the password
/// database), so nothing is stated of it.
#[verifier::external_body]
fn home_dir() -> (res: Option<String>) {
    match dirs::home_dir() {
        Some(h) => Some(h.display().to_string()),
        None => None,
    }
}

/// Node versions whose install directories are tried when no others are
/// found.
pub open spec fn fallback_versions() -> Seq<Seq<char>> {
    seq!["v22.22.0"@, "v22.12.0"@, "v22.11.0"@, "v22.0.0"@, "v23.0.0"@]
}

/// The system directories every extended `PATH` holds.
pub open spec fn system_bins() -> Seq<Seq<char>> {
    seq!["/opt/homebrew/bin"@, "/usr/local/bin"@, "/usr/bin"@, "/bin"@]
}

/// The entries of the extended `PATH`, in order: the nvm default version's
/// `bin` (always written with a `v` before the version), the system
/// directories, the installed nvm versions' `bin` directories from the
/// greatest to the least, the fallback versions, fnm, volta, asdf and mise,
/// and last the current `PATH` if it is not empty. Without a home directory
/// only the system directories and the current `PATH` remain.
pub open spec fn extended_path_entries(
    home: Option<Seq<char>>,
    nvm_default: Option<Seq<char>>,
    installed_bins: Seq<Seq<char>>,
    current_path: Seq<char>,
) -> Seq<Seq<char>> {
    let with_home = match home {
        None => system_bins(),
        Some(h) => {
            let first = match trimmed_nonblank(nvm_default) {
                Some(v) => seq![h + "/.nvm/versions/node/v"@ + v + "/bin"@],
                None => Seq::<Seq<char>>::empty(),
            };
            first + system_bins() + sorted_descending(installed_bins) + fallback_versions().map_values(
                |ver: Seq<char>| h + "/.nvm/versions/node/"@ + ver + "/bin"@,
            ) + seq![
                h + "/.fnm/aliases/default/bin"@,
                h + "/.volta/bin"@,
                h + "/.asdf/shims"@,
                h + "/.local/share/mise/shims"@,
            ]
        },
    };
    if current_path.len() > 0 {
        with_home.push(current_path)
    } else {
        with_home
    }
}

/// The separator between `PATH` entries.
pub open spec fn path_separator(is_windows: bool) -> Seq<char> {
    if is_windows {
        ";"@
    } else {
        ":"@
    }
}

fn push_str(v: &mut Vec<String>, s: &str)
    ensures
        string_views(final(v)@) == string_views(old(v)@).push(s@),
{
    v.push(s.to_owned());
    assert(string_views(v@) =~= string_views(old(v)@).push(s@));
}

fn push_string(v: &mut Vec<String>, s: String)
    ensures
        string_views(final(v)@) == string_views(old(v)@).push(s@),
{
    v.push(s);
    assert(string_views(v@) =~= string_views(old(v)@).push(s@));
}

fn push_all(v: &mut Vec<String>, more: Vec<String>)
    ensures
        string_views(final(v)@) == string_views(old(v)@) + string_views(more@),
{
    let mut i: usize = 0;
    while i < more.len()
        invariant
            i <= more.len(),
            string_views(v@) == string_views(old(v)@) + string_views(more@).take(i as int),
        decreases more.len() - i,
    {
        push_str(v, more[i].as_str());
        assert(string_views(more@).take(i + 1) =~= string_views(more@).take(i as int).push(
            more@[i as int]@,
        ));
        assert(string_views(v@) =~= string_views(old(v)@) + string_views(more@).take(i + 1));
        i = i + 1;
    }
    assert(string_views(more@).take(more.len() as int) =~= string_views(more@));
}

fn with_fallbacks(v: &mut Vec<String>, h: &str, tail: &str)
    ensures
        string_views(final(v)@) == string_views(old(v)@) + fallback_versions().map_values(
            |ver: Seq<char>| h@ + "/.nvm/versions/node/"@ + ver + tail@,
        ),
{
    let base = concat2(h, "/.nvm/versions/node/");
    push_string(v, concat3(base.as_str(), "v22.22.0", tail));
    push_string(v, concat3(base.as_str(), "v22.12.0", tail));
    push_string(v, concat3(base.as_str(), "v22.11.0", tail));
    push_string(v, concat3(base.as_str(), "v22.0.0", tail));
    push_string(v, concat3(base.as_str(), "v23.0.0", tail));
    assert(string_views(v@) =~= string_views(old(v)@) + fallback_versions().map_values(
        |ver: Seq<char>| h@ + "/.nvm/versions/node/"@ + ver + tail@,
    ));
}

/// The extended `PATH`: `home` is the home directory if known, `nvm_default`
/// the text of nvm's default alias file if it could be read, `installed_bins`
/// the `bin` directories of the installed nvm versions that exist, and
/// `current_path` the current `PATH` (empty when unset).
pub fn extended_path(
    home: Option<&str>,
    nvm_default: Option<&str>,
    installed_bins: &Vec<String>,
    current_path: &str,
    is_windows: bool,
) -> (res: String)
    ensures
        res@ == join_sep(
            extended_path_entries(
                opt_view(home),
                opt_view(nvm_default),
                string_views(installed_bins@),
                current_path@,
            ),
            path_separator(is_windows),
        ),
{
    let mut paths: Vec<String> = Vec::new();
    let ghost sys = system_bins();
    match home {
        None => {
            push_str(&mut paths, "/opt/homebrew/bin");
            push_str(&mut paths, "/usr/local/bin");
            push_str(&mut paths, "/usr/bin");
            push_str(&mut paths, "/bin");
            assert(string_views(paths@) =~= sys);
        },
        Some(h) => {
            let ghost first = match trimmed_nonblank(opt_view(nvm_default)) {
                Some(v) => seq![h@ + "/.nvm/versions/node/v"@ + v + "/bin"@],
                None => Seq::<Seq<char>>::empty(),
            };
            match trim_nonblank(nvm_default) {
                Some(v) => {
                    let a = concat3(h, "/.nvm/versions/node/v", v.as_str());
                    push_string(&mut paths, concat2(a.as_str(), "/bin"));
                },
                None => {},
            }
            assert(string_views(paths@) =~= first);
            push_str(&mut paths, "/opt/homebrew/bin");
            push_str(&mut paths, "/usr/local/bin");
            push_str(&mut paths, "/usr/bin");
            push_str(&mut paths, "/bin");
            assert(string_views(paths@) =~= first + sys);
            let sorted = sort_descending(installed_bins);
            push_all(&mut paths, sorted);
            with_fallbacks(&mut paths, h, "/bin");
            push_string(&mut paths, concat2(h, "/.fnm/aliases/default/bin"));
            push_string(&mut paths, concat2(h, "/.volta/bin"));
            push_string(&mut paths, concat2(h, "/.asdf/shims"));
            push_string(&mut paths, concat2(h, "/.local/share/mise/shims"));
            assert(string_views(paths@) =~= first + sys + sorted_descending(
                string_views(installed_bins@),
            ) + fallback_versions().map_values(
                |ver: Seq<char>| h@ + "/.nvm/versions/node/"@ + ver + "/bin"@,
            ) + seq![
                h@ + "/.fnm/aliases/default/bin"@,
                h@ + "/.volta/bin"@,
                h@ + "/.asdf/shims"@,
                h@ + "/.local/share/mise/shims"@,
            ]);
        },
    }
    if !current_path.is_empty() {
        push_str(&mut paths, current_path);
    }
    let sep = if is_windows {
        ";"
    } else {
        ":"
    };
    join_strings(&paths, sep)
}

/// How many entries of the extended `PATH` come before the installed nvm
/// versions' directories: the default version's, if any, and the four
/// system directories.
pub open spec fn installed_bins_start(nvm_default: Option<Seq<char>>) -> int {
    (if trimmed_nonblank(nvm_default) is Some { 1int } else { 0int }) + 4
}

/// The extended `PATH` does not depend on the order in which the installed
/// nvm versions' directories were listed (as a directory is read, in no
/// particular order): any rearrangement of them gives the same `PATH`.
pub proof fn law_path_ignores_listing_order(
    home: Option<Seq<char>>,
    nvm_default: Option<Seq<char>>,
    a: Seq<Seq<char>>,
    b: Seq<Seq<char>>,
    current_path: Seq<char>,
)
    requires
        a.to_multiset() == b.to_multiset(),
    ensures
        extended_path_entries(home, nvm_default, a, current_path) == extended_path_entries(
            home,
            nvm_default,
            b,
            current_path,
        ),
{
    lemma_sorted_descending_permutation(a, b);
}

/// With a home directory, the installed nvm versions' directories stand in
/// the extended `PATH` right after the system directories, each exactly as
/// often as it was listed, from the greatest text to the least.
pub proof fn law_path_installed_bins_descending(
    home: Seq<char>,
    nvm_default: Option<Seq<char>>,
    installed_bins: Seq<Seq<char>>,
    current_path: Seq<char>,
)
    ensures
        ({
            let e = extended_path_entries(Some(home), nvm_default, installed_bins, current_path);
            let k = installed_bins_start(nvm_default);
            &&& k + installed_bins.len() <= e.len()
            &&& e.subrange(k, k + installed_bins.len()).to_multiset()
                == installed_bins.to_multiset()
            &&& forall|i: int, j: int|
                k <= i < j < k + installed_bins.len() ==> lex_le(#[trigger] e[j], #[trigger] e[i])
        }),
{
    let e = extended_path_entries(Some(home), nvm_default, installed_bins, current_path);
    let k = installed_bins_start(nvm_default);
    let n = installed_bins.len() as int;
    let sd = sorted_descending(installed_bins);
    lemma_sorted_descending_facts(installed_bins);
    let first = match trimmed_nonblank(nvm_default) {
        Some(v) => seq![home + "/.nvm/versions/node/v"@ + v + "/bin"@],
        None => Seq::<Seq<char>>::empty(),
    };
    let rest = fallback_versions().map_values(
        |ver: Seq<char>| home + "/.nvm/versions/node/"@ + ver + "/bin"@,
    ) + seq![
        home + "/.fnm/aliases/default/bin"@,
        home + "/.volta/bin"@,
        home + "/.asdf/shims"@,
        home + "/.local/share/mise/shims"@,
    ];
    let with_home = first + system_bins() + sd + rest;
    assert(with_home =~= (first + system_bins()) + sd + rest);
    assert(e.subrange(k, k + n) =~= sd);
    assert forall|i: int, j: int| k <= i < j < k + n implies lex_le(
        #[trigger] e[j],
        #[trigger] e[i],
    ) by {
        assert(e[i] == sd[i - k]);
        assert(e[j] == sd[j - k]);
    }
}

/// The version directory name for nvm's default alias: `v` is added unless
/// the version starts with it.
pub open spec fn normalized_version(v: Seq<char>) -> Seq<char> {
    if starts_with(v, "v"@) {
        v
    } else {
        "v"@ + v
    }
}

/// The places where `openclaw` may be installed on Unix, in the order they
/// are tried.
pub open spec fn unix_openclaw_candidates(
    home: Option<Seq<char>>,
    nvm_default: Option<Seq<char>>,
    installed: Seq<Seq<char>>,
) -> Seq<Seq<char>> {
    let fixed = seq![
        "/usr/local/bin/openclaw"@,
        "/opt/homebrew/bin/openclaw"@,
        "/usr/bin/openclaw"@,
    ];
    match home {
        None => fixed,
        Some(h) => {
            let nvm = match trimmed_nonblank(nvm_default) {
                Some(v) => seq![h + "/.nvm/versions/node/"@ + normalized_version(v) + "/bin/openclaw"@],
                None => Seq::<Seq<char>>::empty(),
            };
            fixed + seq![h + "/.npm-global/bin/openclaw"@] + nvm + sorted_descending(installed)
                + fallback_versions().map_values(
                |ver: Seq<char>| h + "/.nvm/versions/node/"@ + ver + "/bin/openclaw"@,
            ) + seq![
                h + "/.fnm/aliases/default/bin/openclaw"@,
                h + "/.volta/bin/openclaw"@,
                h + "/.pnpm/bin/openclaw"@,
                h + "/Library/pnpm/openclaw"@,
                h + "/.asdf/shims/openclaw"@,
                h + "/.local/share/mise/shims/openclaw"@,
                h + "/.yarn/bin/openclaw"@,
                h + "/.config/yarn/global/node_modules/.bin/openclaw"@,
            ]
        },
    }
}

/// How many candidates come before the installed nvm versions' `openclaw`:
/// the three system places, npm's global directory and, if any, the default
/// nvm version's.
pub open spec fn installed_openclaw_start(nvm_default: Option<Seq<char>>) -> int {
    (if trimmed_nonblank(nvm_default) is Some { 1int } else { 0int }) + 4
}

/// Which `openclaw` is found does not depend on the order in which the
/// installed nvm versions were listed: any rearrangement of them gives the
/// same candidates.
pub proof fn law_candidates_ignore_listing_order(
    home: Option<Seq<char>>,
    nvm_default: Option<Seq<char>>,
    a: Seq<Seq<char>>,
    b: Seq<Seq<char>>,
)
    requires
        a.to_multiset() == b.to_multiset(),
    ensures
        unix_openclaw_candidates(home, nvm_default, a) == unix_openclaw_candidates(
            home,
            nvm_default,
            b,
        ),
{
    lemma_sorted_descending_permutation(a, b);
}

/// With a home directory, the installed nvm versions' `openclaw` files are
/// tried right after the default version's, each as often as it was listed,
/// from the greatest text to the least, so the newest install is tried
/// first.
pub proof fn law_candidates_installed_descending(
    home: Seq<char>,
    nvm_default: Option<Seq<char>>,
    installed: Seq<Seq<char>>,
)
    ensures
        ({
            let c = unix_openclaw_candidates(Some(home), nvm_default, installed);
            let k = installed_openclaw_start(nvm_default);
            &&& k + installed.len() <= c.len()
            &&& c.subrange(k, k + installed.len()).to_multiset() == installed.to_multiset()
            &&& forall|i: int, j: int|
                k <= i < j < k + installed.len() ==> lex_le(#[trigger] c[j], #[trigger] c[i])
        }),
{
    let c = unix_openclaw_candidates(Some(home), nvm_default, installed);
    let k = installed_openclaw_start(nvm_default);
    let n = installed.len() as int;
    let sd = sorted_descending(installed);
    lemma_sorted_descending_facts(installed);
    let fixed = seq![
        "/usr/local/bin/openclaw"@,
        "/opt/homebrew/bin/openclaw"@,
        "/usr/bin/openclaw"@,
    ];
    let nvm = match trimmed_nonblank(nvm_default) {
        Some(v) => seq![home + "/.nvm/versions/node/"@ + normalized_version(v) + "/bin/openclaw"@],
        None => Seq::<Seq<char>>::empty(),
    };
    let head = fixed + seq![home + "/.npm-global/bin/openclaw"@] + nvm;
    let rest = fallback_versions().map_values(
        |ver: Seq<char>| home + "/.nvm/versions/node/"@ + ver + "/bin/openclaw"@,
    ) + seq![
        home + "/.fnm/aliases/default/bin/openclaw"@,
        home + "/.volta/bin/openclaw"@,
        home + "/.pnpm/bin/openclaw"@,
        home + "/Library/pnpm/openclaw"@,
        home + "/.asdf/shims/openclaw"@,
        home + "/.local/share/mise/shims/openclaw"@,
        home + "/.yarn/bin/openclaw"@,
        home + "/.config/yarn/global/node_modules/.bin/openclaw"@,
    ];
    assert(head.len() == k);
    assert(c =~= head + sd + rest);
    assert(c.subrange(k, k + n) =~= sd);
    assert forall|i: int, j: int| k <= i < j < k + n implies lex_le(
        #[trigger] c[j],
        #[trigger] c[i],
    ) by {
        assert(c[i] == sd[i - k]);
        assert(c[j] == sd[j - k]);
    }
}

/// The places where `openclaw` may be installed on Unix: `home` is the home
/// directory if known, `nvm_default` the text of nvm's default alias file if
/// it could be read, `installed` the `bin/openclaw` files of the installed
/// nvm versions that exist.
pub fn unix_openclaw_paths(home: Option<&str>, nvm_default: Option<&str>, installed: &Vec<String>) -> (res:
    Vec<String>)
    ensures
        string_views(res@) == unix_openclaw_candidates(
            opt_view(home),
            opt_view(nvm_default),
            string_views(installed@),
        ),
{
    let mut paths: Vec<String> = Vec::new();
    push_str(&mut paths, "/usr/local/bin/openclaw");
    push_str(&mut paths, "/opt/homebrew/bin/openclaw");
    push_str(&mut paths, "/usr/bin/openclaw");
    let ghost fixed = string_views(paths@);
    match home {
        None => {
            assert(fixed =~= seq![
                "/usr/local/bin/openclaw"@,
                "/opt/homebrew/bin/openclaw"@,
                "/usr/bin/openclaw"@,
            ]);
        },
        Some(h) => {
            push_string(&mut paths, concat2(h, "/.npm-global/bin/openclaw"));
            let ghost before_nvm = string_views(paths@);
            let ghost nvm = match trimmed_nonblank(opt_view(nvm_default)) {
                Some(v) => seq![h@ + "/.nvm/versions/node/"@ + normalized_version(v) + "/bin/openclaw"@],
                None => Seq::<Seq<char>>::empty(),
            };
            match trim_nonblank(nvm_default) {
                Some(v) => {
                    let vc = chars_of(v.as_str());
                    proof {
                        reveal_strlit("v");
                    }
                    let normalized = if vc.len() > 0 && vc[0] == 'v' {
                        assert(v@.take(1) =~= "v"@);
                        v
                    } else {
                        assert(!starts_with(v@, "v"@)) by {
                            if v@.len() > 0 {
                                assert(v@.take(1)[0] == v@[0]);
                            }
                        }
                        concat2("v", v.as_str())
                    };
                    let a = concat3(h, "/.nvm/versions/node/", normalized.as_str());
                    push_string(&mut paths, concat2(a.as_str(), "/bin/openclaw"));
                },
                None => {},
            }
            assert(string_views(paths@) =~= before_nvm + nvm);
            let sorted = sort_descending(installed);
            push_all(&mut paths, sorted);
            with_fallbacks(&mut paths, h, "/bin/openclaw");
            push_string(&mut paths, concat2(h, "/.fnm/aliases/default/bin/openclaw"));
            push_string(&mut paths, concat2(h, "/.volta/bin/openclaw"));
            push_string(&mut paths, concat2(h, "/.pnpm/bin/openclaw"));
            push_string(&mut paths, concat2(h, "/Library/pnpm/openclaw"));
            push_string(&mut paths, concat2(h, "/.asdf/shims/openclaw"));
            push_string(&mut paths, concat2(h, "/.local/share/mise/shims/openclaw"));
            push_string(&mut paths, concat2(h, "/.yarn/bin/openclaw"));
            push_string(&mut paths, concat2(h, "/.config/yarn/global/node_modules/.bin/openclaw"));
            assert(string_views(paths@) =~= fixed + seq![h@ + "/.npm-global/bin/openclaw"@] + nvm
                + sorted_descending(string_views(installed@)) + fallback_versions().map_values(
                |ver: Seq<char>| h@ + "/.nvm/versions/node/"@ + ver + "/bin/openclaw"@,
            ) + seq![
                h@ + "/.fnm/aliases/default/bin/openclaw"@,
                h@ + "/.volta/bin/openclaw"@,
                h@ + "/.pnpm/bin/openclaw"@,
                h@ + "/Library/pnpm/openclaw"@,
                h@ + "/.asdf/shims/openclaw"@,
                h@ + "/.local/share/mise/shims/openclaw"@,
                h@ + "/.yarn/bin/openclaw"@,
                h@ + "/.config/yarn/global/node_modules/.bin/openclaw"@,
            ]);
        },
    }
    paths
}

/// The places where `openclaw` may be installed on Windows, in the order
/// they are tried.
pub open spec fn windows_openclaw_candidates(home: Option<Seq<char>>) -> Seq<Seq<char>> {
    let npm = match home {
        Some(h) => seq![h + "\\AppData\\Roaming\\npm\\openclaw.cmd"@],
        None => Seq::<Seq<char>>::empty(),
    };
    seq!["C:\\nvm4w\\nodejs\\openclaw.cmd"@] + npm + seq!["C:\\Program Files\\nodejs\\openclaw.cmd"@]
}

/// The places where `openclaw` may be installed on Windows, for the home
/// directory `home`.
pub fn windows_openclaw_paths(home: Option<&str>) -> (res: Vec<String>)
    ensures
        string_views(res@) == windows_openclaw_candidates(opt_view(home)),
{
    let mut paths: Vec<String> = Vec::new();
    push_str(&mut paths, "C:\\nvm4w\\nodejs\\openclaw.cmd");
    match home {
        Some(h) => push_string(&mut paths, concat2(h, "\\AppData\\Roaming\\npm\\openclaw.cmd")),
        None => {},
    }
    push_str(&mut paths, "C:\\Program Files\\nodejs\\openclaw.cmd");
    assert(string_views(paths@) =~= windows_openclaw_candidates(opt_view(home)));
    paths
}

/// The places where `openclaw` may be installed on Windows, for the user's
/// home directory as `dirs::home_dir` finds it.
pub fn get_windows_openclaw_paths() -> (res: Vec<String>)
    ensures
        exists|home: Option<Seq<char>>| string_views(res@) == windows_openclaw_candidates(home),
{
    let home = home_dir();
    let res = match &home {
        Some(h) => windows_openclaw_paths(Some(h.as_str())),
        None => windows_openclaw_paths(None),
    };
    assert(string_views(res@) == windows_openclaw_candidates(
        match home {
            Some(h) => Some(h@),
            None => None,
        },
    ));
    res
}

/// The home directory and the file that names nvm's default node version.
pub struct HomeLayout {
    pub home: Option<String>,
    pub nvm_default_alias: Option<String>,
}

/// Where the user's home directory is (as `dirs::home_dir` finds it) and,
/// under it, nvm's default alias file.
pub fn home_layout() -> (res: HomeLayout)
    ensures
        match res.home {
            Some(h) => res.nvm_default_alias matches Some(a) && a@ == h@ + "/.nvm/alias/default"@,
            None => res.nvm_default_alias is None,
        },
{
    match home_dir() {
        Some(h) => {
            let alias = concat2(h.as_str(), "/.nvm/alias/default");
            HomeLayout { home: Some(h), nvm_default_alias: Some(alias) }
        },
        None => HomeLayout { home: None, nvm_default_alias: None },
    }
}

} // verus!
