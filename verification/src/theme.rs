//! Themes: palette data, which theme name wins, where theme files are
//! looked for, and which fields a theme file sets. Reading a theme file is
//! the caller's part; its TOML text is parsed here with `toml`.
use vstd::prelude::*;
use crate::paths::{ask_home_dir, ask_is_file, home_answer, is_file_answer, join, join_path};
use crate::text::{
    concat, copy_str, join_strings, join_with, lemma_contains_back, lemma_sort_unique, opt_str,
    opt_view, push_all, sort_unique, sorted_unique, str_lt, strictly_sorted, substring, to_chars,
    trim, trim_bounds, views,
};

verus! {

/// A colour theme shared by the prompt and tmux renderers.
#[derive(Debug, Clone)]
pub struct Theme {
    pub name: String,
    pub base: BasePalette,
    pub semantic: SemanticPalette,
    pub prompt: PromptPalette,
    pub tmux: TmuxPalette,
}

/// Structural colours.
#[derive(Debug, Clone)]
pub struct BasePalette {
    pub bg: Option<String>,
    pub fg: Option<String>,
}

/// Meaning-based colours.
#[derive(Debug, Clone)]
pub struct SemanticPalette {
    pub ok: Option<String>,
    pub warn: Option<String>,
    pub error: Option<String>,
}

/// Prompt colours and symbols.
#[derive(Debug, Clone)]
pub struct PromptPalette {
    pub directory: Option<String>,
    pub repo: Option<String>,
    pub branch: Option<String>,
    pub dirty: Option<String>,
    pub status_ok: Option<String>,
    pub status_error: Option<String>,
    pub duration: Option<String>,
    pub symbol: Option<String>,
    pub success_symbol: Option<String>,
    pub error_symbol: Option<String>,
}

/// Tmux segment colours.
#[derive(Debug, Clone)]
pub struct TmuxPalette {
    pub segment_info_bg: Option<String>,
    pub segment_info_fg: Option<String>,
    pub segment_warn_bg: Option<String>,
    pub segment_warn_fg: Option<String>,
    pub segment_error_bg: Option<String>,
    pub segment_error_fg: Option<String>,
    pub segment_time_bg: Option<String>,
    pub segment_time_fg: Option<String>,
}

impl Default for BasePalette {
    /// No colours.
    fn default() -> (r: Self)
        ensures
            r.bg is None && r.fg is None,
    {
        BasePalette { bg: None, fg: None }
    }
}

impl Default for SemanticPalette {
    /// No colours.
    fn default() -> (r: Self)
        ensures
            r.ok is None && r.warn is None && r.error is None,
    {
        SemanticPalette { ok: None, warn: None, error: None }
    }
}

impl Default for PromptPalette {
    /// No colours and no symbols.
    fn default() -> (r: Self)
        ensures
            r.directory is None && r.repo is None && r.branch is None && r.dirty is None
                && r.status_ok is None && r.status_error is None && r.duration is None
                && r.symbol is None && r.success_symbol is None && r.error_symbol is None,
    {
        PromptPalette {
            directory: None,
            repo: None,
            branch: None,
            dirty: None,
            status_ok: None,
            status_error: None,
            duration: None,
            symbol: None,
            success_symbol: None,
            error_symbol: None,
        }
    }
}

impl Default for TmuxPalette {
    /// No colours.
    fn default() -> (r: Self)
        ensures
            r.segment_info_bg is None && r.segment_info_fg is None && r.segment_warn_bg is None
                && r.segment_warn_fg is None && r.segment_error_bg is None && r.segment_error_fg
                is None && r.segment_time_bg is None && r.segment_time_fg is None,
    {
        TmuxPalette {
            segment_info_bg: None,
            segment_info_fg: None,
            segment_warn_bg: None,
            segment_warn_fg: None,
            segment_error_bg: None,
            segment_error_fg: None,
            segment_time_bg: None,
            segment_time_fg: None,
        }
    }
}

/// `s` trimmed, unless it is blank.
pub open spec fn nonblank(s: Seq<char>) -> Option<Seq<char>> {
    if trim(s).len() > 0 {
        Some(trim(s))
    } else {
        None
    }
}

/// The trimmed value, unless it is blank.
pub fn non_empty(value: &str) -> (r: Option<String>)
    ensures
        match r {
            Some(t) => nonblank(value@) == Some(t@),
            None => nonblank(value@) is None,
        },
{
    let v = to_chars(value);
    let (a, b) = trim_bounds(&v, 0, v.len());
    assert(v@.subrange(0, v@.len() as int) =~= v@);
    if a < b {
        Some(substring(&v, a, b))
    } else {
        None
    }
}

/// The first of the candidates that is not blank, trimmed.
pub open spec fn first_nonblank(o: Option<Seq<char>>) -> Option<Seq<char>> {
    match o {
        Some(s) => nonblank(s),
        None => None,
    }
}

/// The theme name: the explicit choice, then the environment, then the
/// config file, each only when not blank; `nightowl` otherwise.
pub open spec fn chosen_theme_name(
    explicit: Option<Seq<char>>,
    env_theme: Option<Seq<char>>,
    config_theme: Option<Seq<char>>,
) -> Seq<char> {
    match first_nonblank(explicit) {
        Some(n) => n,
        None => match first_nonblank(env_theme) {
            Some(n) => n,
            None => match first_nonblank(config_theme) {
                Some(n) => n,
                None => "nightowl"@,
            },
        },
    }
}

fn nonblank_of(o: Option<&str>) -> (r: Option<String>)
    ensures
        match r {
            Some(t) => first_nonblank(opt_str(o)) == Some(t@),
            None => first_nonblank(opt_str(o)) is None,
        },
{
    match o {
        Some(s) => non_empty(s),
        None => None,
    }
}

/// Picks the theme name by precedence: explicit, environment, config, default.
pub fn resolve_theme_name(
    explicit: Option<&str>,
    env_theme: Option<&str>,
    config_theme: Option<&str>,
) -> (r: String)
    ensures
        r@ == chosen_theme_name(opt_str(explicit), opt_str(env_theme), opt_str(config_theme)),
{
    if let Some(n) = nonblank_of(explicit) {
        return n;
    }
    if let Some(n) = nonblank_of(env_theme) {
        return n;
    }
    if let Some(n) = nonblank_of(config_theme) {
        return n;
    }
    copy_str("nightowl")
}

/// A copy of a list of strings.
pub fn copy_strings(v: &Vec<String>) -> (r: Vec<String>)
    ensures
        views(r@) == views(v@),
{
    let mut r: Vec<String> = Vec::new();
    let mut i: usize = 0;
    while i < v.len()
        invariant
            0 <= i <= v@.len(),
            views(r@) == views(v@.subrange(0, i as int)),
        decreases v@.len() - i,
    {
        r.push(copy_str(&v[i]));
        assert(views(v@.subrange(0, i + 1)) =~= views(v@.subrange(0, i as int)).push(v@[i as int]@));
        assert(views(r@) =~= views(v@.subrange(0, i + 1)));
        i = i + 1;
    }
    assert(v@.subrange(0, v@.len() as int) =~= v@);
    r
}

/// Why a theme could not be found.
#[derive(Debug, Clone)]
pub enum ThemeError {
    /// No search directory holds `<name>.toml`.
    NotFound { name: String, search_dirs: Vec<String> },
}

impl ThemeError {
    /// A one-line description of the error.
    pub fn describe(&self) -> (r: String)
        ensures
            r@ == match self {
                ThemeError::NotFound { name, search_dirs } => "theme '"@ + name@
                    + "' not found in any search directory: "@ + join_with(
                    views(search_dirs@),
                    ", "@,
                ),
            },
    {
        match self {
            ThemeError::NotFound { name, search_dirs } => {
                let mut s = concat("theme '", name);
                push_all(&mut s, "' not found in any search directory: ");
                let dirs = join_strings(search_dirs, ", ");
                push_all(&mut s, &dirs);
                s
            },
        }
    }
}

/// The file name of the theme called `name`.
pub open spec fn theme_file_name(name: Seq<char>) -> Seq<char> {
    name + ".toml"@
}

/// The theme file picked from the answers `found` to "is `<dir>/<file>` a
/// file?" for the search directories in order (`theme_file_answers` ties
/// each answer to its path): the candidate in the first directory, from `i`
/// on, answered yes.
pub open spec fn picked_from(dirs: Seq<Seq<char>>, file: Seq<char>, found: Seq<bool>, i: int) -> Option<Seq<char>>
    decreases found.len() - i,
{
    if i < 0 || i >= found.len() || i >= dirs.len() {
        None
    } else if found[i] {
        Some(join(dirs[i], file))
    } else {
        picked_from(dirs, file, found, i + 1)
    }
}

/// Picks the theme file from the answers to "is `<dir>/<name>.toml` a file?",
/// one per search directory in order (the answers may stop early): the first
/// directory answered yes wins; with none, the theme is not found.
pub fn pick_theme_path(name: &str, search_dirs: &Vec<String>, found: &Vec<bool>) -> (r: Result<String, ThemeError>)
    requires
        found@.len() <= search_dirs@.len(),
    ensures
        match picked_from(views(search_dirs@), theme_file_name(name@), found@, 0) {
            Some(p) => r matches Ok(q) && q@ == p,
            None => r matches Err(ThemeError::NotFound { name: n, search_dirs: dirs }) && n@
                == name@ && views(dirs@) == views(search_dirs@),
        },
{
    let filename = concat(name, ".toml");
    let ghost file = theme_file_name(name@);
    let ghost ds = views(search_dirs@);
    let mut i: usize = 0;
    while i < found.len()
        invariant
            found@.len() <= search_dirs@.len(),
            0 <= i <= found@.len(),
            filename@ == file,
            file == theme_file_name(name@),
            ds == views(search_dirs@),
            picked_from(ds, file, found@, 0) == picked_from(ds, file, found@, i as int),
        decreases found@.len() - i,
    {
        if found[i] {
            assert(ds.len() == search_dirs@.len());
            assert(ds[i as int] == search_dirs@[i as int]@);
            assert(picked_from(ds, file, found@, i as int) == Some(join(ds[i as int], file)));
            return Ok(join_path(&search_dirs[i], &filename));
        }
        i = i + 1;
    }
    Err(ThemeError::NotFound { name: copy_str(name), search_dirs: copy_strings(search_dirs) })
}

/// Each answer `found[i]` is what `Path::is_file` said of
/// `<dirs[i]>/<file>`.
pub open spec fn theme_file_answers(dirs: Seq<Seq<char>>, file: Seq<char>, found: Seq<bool>) -> bool {
    forall|i: int|
        0 <= i < found.len() && i < dirs.len() ==> is_file_answer(join(dirs[i], file), #[trigger] found[i])
}

/// The search asked about the directories in order and stopped only at
/// the first yes, or after the last directory: every directory was asked
/// unless a candidate was found.
pub open spec fn searched_until_found(dir_count: nat, found: Seq<bool>) -> bool {
    &&& found.len() <= dir_count
    &&& found.len() == dir_count || (found.len() > 0 && found.last())
    &&& forall|i: int| 0 <= i < found.len() - 1 ==> !#[trigger] found[i]
}

/// Finds `<name>.toml` in the first search directory that holds it as a
/// file. Whether a candidate is a file is asked of the filesystem, directory
/// by directory, until one is; `pick_theme_path` decides from the answers.
pub fn find_theme_path(name: &str, search_dirs: &Vec<String>) -> (r: Result<String, ThemeError>)
    ensures
        exists|found: Seq<bool>|
            searched_until_found(search_dirs@.len(), found) && theme_file_answers(
                views(search_dirs@),
                theme_file_name(name@),
                found,
            ) && match #[trigger] picked_from(
                views(search_dirs@),
                theme_file_name(name@),
                found,
                0,
            ) {
                Some(p) => r matches Ok(q) && q@ == p,
                None => r matches Err(ThemeError::NotFound { name: n, search_dirs: dirs }) && n@
                    == name@ && views(dirs@) == views(search_dirs@),
            },
        search_dirs@.len() == 0 ==> r is Err,
{
    let filename = concat(name, ".toml");
    let ghost ds = views(search_dirs@);
    let ghost file = theme_file_name(name@);
    let mut found: Vec<bool> = Vec::new();
    let mut i: usize = 0;
    while i < search_dirs.len()
        invariant
            0 <= i <= search_dirs@.len(),
            found@.len() == i,
            filename@ == file,
            file == theme_file_name(name@),
            ds == views(search_dirs@),
            theme_file_answers(ds, file, found@),
            forall|q: int| 0 <= q < found@.len() ==> !#[trigger] found@[q],
        decreases search_dirs@.len() - i,
    {
        let candidate = join_path(&search_dirs[i], &filename);
        let is_file = ask_is_file(&candidate);
        let ghost before = found@;
        found.push(is_file);
        proof {
            assert(ds[i as int] == search_dirs@[i as int]@);
            assert forall|q: int| 0 <= q < found@.len() && q < ds.len() implies is_file_answer(
                join(ds[q], file),
                #[trigger] found@[q],
            ) by {
                if q < before.len() {
                    assert(found@[q] == before[q]);
                }
            }
        }
        i = i + 1;
        if is_file {
            assert(searched_until_found(search_dirs@.len(), found@));
            return pick_theme_path(name, search_dirs, &found);
        }
    }
    let r = pick_theme_path(name, search_dirs, &found);
    assert(searched_until_found(search_dirs@.len(), found@));
    r
}

impl Theme {
    /// Picks the theme name by precedence and finds its file.
    pub fn resolve_path(
        explicit_theme: Option<&str>,
        env_theme: Option<&str>,
        config_theme: Option<&str>,
        search_dirs: &Vec<String>,
    ) -> (r: Result<String, ThemeError>)
        ensures
            exists|found: Seq<bool>|
                searched_until_found(search_dirs@.len(), found) && theme_file_answers(
                    views(search_dirs@),
                    theme_file_name(
                        chosen_theme_name(
                            opt_str(explicit_theme),
                            opt_str(env_theme),
                            opt_str(config_theme),
                        ),
                    ),
                    found,
                ) && match #[trigger] picked_from(
                    views(search_dirs@),
                    theme_file_name(
                        chosen_theme_name(
                            opt_str(explicit_theme),
                            opt_str(env_theme),
                            opt_str(config_theme),
                        ),
                    ),
                    found,
                    0,
                ) {
                    Some(p) => r matches Ok(q) && q@ == p,
                    None => r matches Err(ThemeError::NotFound { name: n, search_dirs: dirs })
                        && n@ == chosen_theme_name(
                        opt_str(explicit_theme),
                        opt_str(env_theme),
                        opt_str(config_theme),
                    ) && views(dirs@) == views(search_dirs@),
                },
    {
        let name = resolve_theme_name(explicit_theme, env_theme, config_theme);
        find_theme_path(&name, search_dirs)
    }
}

/// The message when a theme cannot be loaded: it names the explicit theme,
/// or else the configured one, and lists the search directories.
pub fn theme_failure_message(explicit: Option<&str>, config_theme: &str, search_dirs: &Vec<String>) -> (r: String)
    ensures
        r@ == "failed to resolve theme '"@ + match explicit {
            Some(e) => e@,
            None => config_theme@,
        } + "' using search dirs: "@ + join_with(views(search_dirs@), ", "@),
{
    let shown = match explicit {
        Some(e) => e,
        None => config_theme,
    };
    let mut s = concat("failed to resolve theme '", shown);
    push_all(&mut s, "' using search dirs: ");
    let dirs = join_strings(search_dirs, ", ");
    push_all(&mut s, &dirs);
    s
}

/// `<xdg>/jetctx/themes`.
pub open spec fn xdg_themes_dir(xdg: Seq<char>) -> Seq<char> {
    join(join(xdg, "jetctx"@), "themes"@)
}

/// `<home>/.config/jetctx/themes`.
pub open spec fn home_themes_dir(home: Seq<char>) -> Seq<char> {
    join(join(join(home, ".config"@), "jetctx"@), "themes"@)
}

/// `<manifest>/themes`.
pub open spec fn bundled_themes_dir(manifest: Seq<char>) -> Seq<char> {
    join(manifest, "themes"@)
}

/// The theme search directories for the given `$XDG_CONFIG_HOME`, home
/// directory and `$CARGO_MANIFEST_DIR`: the user-managed directory first
/// (under `$XDG_CONFIG_HOME` when set, else under the home directory's
/// `.config` when there is one), then the bundled themes (when the manifest
/// directory is set).
pub open spec fn search_dirs_for(
    xdg: Option<Seq<char>>,
    home: Option<Seq<char>>,
    manifest: Option<Seq<char>>,
) -> Seq<Seq<char>> {
    let user = match xdg {
        Some(x) => seq![xdg_themes_dir(x)],
        None => match home {
            Some(h) => seq![home_themes_dir(h)],
            None => seq![],
        },
    };
    match manifest {
        Some(m) => user.push(bundled_themes_dir(m)),
        None => user,
    }
}

/// The theme search directories, given the home directory.
pub fn theme_dirs_for(xdg_config_home: Option<String>, home: Option<String>, manifest_dir: Option<String>) -> (r: Vec<String>)
    ensures
        views(r@) == search_dirs_for(
            opt_view(xdg_config_home),
            opt_view(home),
            opt_view(manifest_dir),
        ),
{
    let mut dirs: Vec<String> = Vec::new();
    match xdg_config_home {
        Some(x) => {
            let a = join_path(&x, "jetctx");
            dirs.push(join_path(&a, "themes"));
        },
        None => {
            if let Some(h) = home {
                let a = join_path(&h, ".config");
                let b = join_path(&a, "jetctx");
                dirs.push(join_path(&b, "themes"));
            }
        },
    }
    let ghost user = views(dirs@);
    if let Some(m) = manifest_dir {
        dirs.push(join_path(&m, "themes"));
        assert(views(dirs@) =~= user.push(bundled_themes_dir(m@)));
    }
    assert(views(dirs@) =~= search_dirs_for(
        opt_view(xdg_config_home),
        opt_view(home),
        opt_view(manifest_dir),
    ));
    dirs
}

/// The search directories chosen for `$XDG_CONFIG_HOME` `xdg` and
/// `$CARGO_MANIFEST_DIR` `manifest`: with `xdg` set, the ones under it;
/// otherwise the ones under the home directory that `dirs::home_dir` gave.
pub open spec fn search_dirs_chosen(xdg: Option<Seq<char>>, manifest: Option<Seq<char>>, dirs: Seq<Seq<char>>) -> bool {
    match xdg {
        Some(_) => dirs == search_dirs_for(xdg, None, manifest),
        None => exists|home: Option<Seq<char>>|
            home_answer(home) && dirs == #[trigger] search_dirs_for(xdg, home, manifest),
    }
}

/// The theme search directories, user-managed first; the home directory is
/// asked for only when `$XDG_CONFIG_HOME` is not set.
pub fn theme_search_dirs(xdg_config_home: Option<String>, manifest_dir: Option<String>) -> (r: Vec<String>)
    ensures
        search_dirs_chosen(opt_view(xdg_config_home), opt_view(manifest_dir), views(r@)),
        exists|home: Option<Seq<char>>|
            views(r@) == #[trigger] search_dirs_for(
                opt_view(xdg_config_home),
                home,
                opt_view(manifest_dir),
            ),
        xdg_config_home is Some ==> views(r@) == search_dirs_for(
            opt_view(xdg_config_home),
            None,
            opt_view(manifest_dir),
        ),
{
    let home = match &xdg_config_home {
        Some(_) => None,
        None => ask_home_dir(),
    };
    let ghost h = opt_view(home);
    let ghost x = opt_view(xdg_config_home);
    let ghost m = opt_view(manifest_dir);
    let r = theme_dirs_for(xdg_config_home, home, manifest_dir);
    assert(views(r@) == search_dirs_for(x, h, m));
    r
}

/// The theme fields the renderers read.
pub open spec fn supported_fields() -> Seq<Seq<char>> {
    seq![
        "name"@,
        "base.bg"@,
        "base.fg"@,
        "semantic.ok"@,
        "semantic.warn"@,
        "semantic.error"@,
        "prompt.directory"@,
        "prompt.repo"@,
        "prompt.branch"@,
        "prompt.dirty"@,
        "prompt.status_ok"@,
        "prompt.status_error"@,
        "prompt.duration"@,
        "prompt.symbol"@,
        "prompt.success_symbol"@,
        "prompt.error_symbol"@,
        "tmux.segment_info_bg"@,
        "tmux.segment_info_fg"@,
        "tmux.segment_warn_bg"@,
        "tmux.segment_warn_fg"@,
        "tmux.segment_error_bg"@,
        "tmux.segment_error_fg"@,
        "tmux.segment_time_bg"@,
        "tmux.segment_time_fg"@,
    ]
}

/// The dotted names of the theme fields the renderers read.
pub fn supported_theme_fields() -> (r: Vec<String>)
    ensures
        views(r@) == supported_fields(),
{
    let mut r: Vec<String> = Vec::new();
    r.push(copy_str("name"));
    r.push(copy_str("base.bg"));
    r.push(copy_str("base.fg"));
    r.push(copy_str("semantic.ok"));
    r.push(copy_str("semantic.warn"));
    r.push(copy_str("semantic.error"));
    r.push(copy_str("prompt.directory"));
    r.push(copy_str("prompt.repo"));
    r.push(copy_str("prompt.branch"));
    r.push(copy_str("prompt.dirty"));
    r.push(copy_str("prompt.status_ok"));
    r.push(copy_str("prompt.status_error"));
    r.push(copy_str("prompt.duration"));
    r.push(copy_str("prompt.symbol"));
    r.push(copy_str("prompt.success_symbol"));
    r.push(copy_str("prompt.error_symbol"));
    r.push(copy_str("tmux.segment_info_bg"));
    r.push(copy_str("tmux.segment_info_fg"));
    r.push(copy_str("tmux.segment_warn_bg"));
    r.push(copy_str("tmux.segment_warn_fg"));
    r.push(copy_str("tmux.segment_error_bg"));
    r.push(copy_str("tmux.segment_error_fg"));
    r.push(copy_str("tmux.segment_time_bg"));
    r.push(copy_str("tmux.segment_time_fg"));
    assert(views(r@) =~= supported_fields());
    r
}

/// Which present theme fields are read and which are ignored.
#[derive(Debug, Clone)]
pub struct ThemeSupportReport {
    pub supported_fields_present: Vec<String>,
    pub ignored_fields_present: Vec<String>,
}

/// The fields of `present` that are (`want`) or are not (`!want`) supported,
/// in order.
pub open spec fn fields_where(present: Seq<Seq<char>>, want: bool) -> Seq<Seq<char>>
    decreases present.len(),
{
    if present.len() == 0 {
        seq![]
    } else {
        let rest = fields_where(present.drop_last(), want);
        if supported_fields().contains(present.last()) == want {
            rest.push(present.last())
        } else {
            rest
        }
    }
}

fn is_supported(field: &String, supported: &Vec<String>) -> (r: bool)
    requires
        views(supported@) == supported_fields(),
    ensures
        r == supported_fields().contains(field@),
{
    let mut i: usize = 0;
    while i < supported.len()
        invariant
            0 <= i <= supported@.len(),
            views(supported@) == supported_fields(),
            forall|j: int| 0 <= j < i ==> supported@[j]@ != field@,
        decreases supported@.len() - i,
    {
        assert(views(supported@)[i as int] == supported@[i as int]@);
        if supported[i] == *field {
            assert(supported_fields()[i as int] == field@);
            return true;
        }
        i = i + 1;
    }
    proof {
        if supported_fields().contains(field@) {
            let j = choose|j: int| 0 <= j < supported_fields().len() && supported_fields()[j] == field@;
            assert(views(supported@)[j] == supported@[j]@);
        }
    }
    false
}

/// Splits the fields present in a theme file into supported and ignored,
/// keeping their order.
pub fn theme_support_report(present: &Vec<String>) -> (r: ThemeSupportReport)
    ensures
        views(r.supported_fields_present@) == fields_where(views(present@), true),
        views(r.ignored_fields_present@) == fields_where(views(present@), false),
{
    let supported = supported_theme_fields();
    let mut yes: Vec<String> = Vec::new();
    let mut no: Vec<String> = Vec::new();
    let mut i: usize = 0;
    while i < present.len()
        invariant
            0 <= i <= present@.len(),
            views(supported@) == supported_fields(),
            views(yes@) == fields_where(views(present@.subrange(0, i as int)), true),
            views(no@) == fields_where(views(present@.subrange(0, i as int)), false),
        decreases present@.len() - i,
    {
        let ghost pre = views(present@.subrange(0, i + 1));
        assert(pre.drop_last() =~= views(present@.subrange(0, i as int)));
        assert(pre.last() == present@[i as int]@);
        if is_supported(&present[i], &supported) {
            yes.push(copy_str(&present[i]));
            assert(views(yes@) =~= fields_where(pre, true));
            assert(views(no@) =~= fields_where(pre, false));
        } else {
            no.push(copy_str(&present[i]));
            assert(views(yes@) =~= fields_where(pre, true));
            assert(views(no@) =~= fields_where(pre, false));
        }
        i = i + 1;
    }
    assert(present@.subrange(0, present@.len() as int) =~= present@);
    ThemeSupportReport { supported_fields_present: yes, ignored_fields_present: no }
}

// ---------------------------------------------------------------------------
// The fields present in a theme file
// ---------------------------------------------------------------------------
/// A TOML value as far as the field report reads it: a table of named
/// entries, in the order the table iterates them, or any other value.
#[derive(Debug)]
pub enum TomlNode {
    Table(Vec<(String, TomlNode)>),
    Leaf,
}

/// `key` under the dotted prefix, if any.
pub open spec fn dotted(prefix: Option<Seq<char>>, key: Seq<char>) -> Seq<char> {
    match prefix {
        Some(p) => p + "."@ + key,
        None => key,
    }
}

/// The dotted names of the leaves under the entries `es`, in order: an entry
/// holding a table contributes the names under it, any other entry its own
/// name.
pub open spec fn entry_leaf_keys(prefix: Option<Seq<char>>, es: Seq<(String, TomlNode)>) -> Seq<Seq<char>>
    decreases es,
{
    if es.len() == 0 {
        seq![]
    } else {
        let last = es[es.len() - 1];
        let name = dotted(prefix, last.0@);
        let rest = entry_leaf_keys(prefix, es.subrange(0, es.len() - 1));
        match last.1 {
            TomlNode::Table(children) => rest + entry_leaf_keys(Some(name), children@),
            TomlNode::Leaf => rest.push(name),
        }
    }
}

/// The dotted names of the leaves of a TOML document, in document order
/// (a document that is not a table has none).
pub open spec fn leaf_keys(root: TomlNode) -> Seq<Seq<char>> {
    match root {
        TomlNode::Table(es) => entry_leaf_keys(None, es@),
        TomlNode::Leaf => seq![],
    }
}

fn dotted_name(prefix: Option<&str>, key: &str) -> (r: String)
    ensures
        r@ == dotted(opt_str(prefix), key@),
{
    match prefix {
        Some(p) => {
            let mut s = concat(p, ".");
            push_all(&mut s, key);
            assert(s@ =~= p@ + "."@ + key@);
            s
        },
        None => copy_str(key),
    }
}

/// Appends the dotted names of the leaves under `es` to `out`.
fn collect_entry_keys(prefix: Option<&str>, es: &Vec<(String, TomlNode)>, out: &mut Vec<String>)
    ensures
        views(final(out)@) == views(old(out)@) + entry_leaf_keys(opt_str(prefix), es@),
    decreases es@,
{
    let ghost p = opt_str(prefix);
    let mut i: usize = 0;
    assert(es@.subrange(0, 0) =~= Seq::<(String, TomlNode)>::empty());
    assert(views(old(out)@) + entry_leaf_keys(p, es@.subrange(0, 0)) =~= views(old(out)@));
    while i < es.len()
        invariant
            0 <= i <= es@.len(),
            p == opt_str(prefix),
            views(out@) == views(old(out)@) + entry_leaf_keys(p, es@.subrange(0, i as int)),
        decreases es@.len() - i,
    {
        let ghost pre = es@.subrange(0, i + 1);
        assert(pre.subrange(0, pre.len() - 1) =~= es@.subrange(0, i as int));
        assert(pre[pre.len() - 1] == es@[i as int]);
        let name = dotted_name(prefix, &es[i].0);
        let ghost before = views(out@);
        let ghost rest = entry_leaf_keys(p, es@.subrange(0, i as int));
        assert(before == views(old(out)@) + rest);
        match &es[i].1 {
            TomlNode::Table(children) => {
                assert(decreases_to!(es@ => es@[i as int]));
                collect_entry_keys(Some(name.as_str()), children, out);
                assert(entry_leaf_keys(p, pre) == rest + entry_leaf_keys(Some(name@), children@));
                assert(views(out@) =~= views(old(out)@) + entry_leaf_keys(p, pre));
            },
            TomlNode::Leaf => {
                out.push(name);
                assert(entry_leaf_keys(p, pre) == rest.push(name@));
                assert(views(out@) =~= before.push(name@));
                assert(views(out@) =~= views(old(out)@) + entry_leaf_keys(p, pre));
            },
        }
        i = i + 1;
    }
    assert(es@.subrange(0, es@.len() as int) =~= es@);
}

/// The fields present in a parsed theme file: the dotted names of its
/// leaves, sorted and without repeats.
pub fn present_theme_fields(root: &TomlNode) -> (r: Vec<String>)
    ensures
        views(r@) == sort_unique(leaf_keys(*root)),
{
    let mut keys: Vec<String> = Vec::new();
    match root {
        TomlNode::Table(es) => {
            collect_entry_keys(None, es, &mut keys);
            assert(views(keys@) =~= leaf_keys(*root));
        },
        TomlNode::Leaf => {
            assert(views(keys@) =~= leaf_keys(*root));
        },
    }
    sorted_unique(&keys)
}

/// Which fields of a parsed theme file the renderers read and which they
/// ignore, each list sorted and without repeats.
pub fn analyze_theme_file(root: &TomlNode) -> (r: ThemeSupportReport)
    ensures
        views(r.supported_fields_present@) == fields_where(sort_unique(leaf_keys(*root)), true),
        views(r.ignored_fields_present@) == fields_where(sort_unique(leaf_keys(*root)), false),
{
    let present = present_theme_fields(root);
    theme_support_report(&present)
}

/// `toml::Value`, the tree `toml` parses a document into.
#[verifier::external_type_specification]
#[verifier::external_body]
pub struct ExTomlValue(toml::Value);

/// What `toml::from_str::<toml::Value>` makes of the text `text`: the
/// document's tree (as `toml_contents` reads it), or `None` when the text is
/// not a valid TOML document.
pub uninterp spec fn spec_toml_document(text: Seq<char>) -> Option<TomlNode>;

/// What the `toml::Value` `v` holds, as far as the field report reads it:
/// the entries of a table, in the order its map iterates them (sorted by
/// key), each with what its value holds; or a leaf, for every other value.
pub uninterp spec fn toml_contents(v: toml::Value) -> TomlNode;

/// Calls `toml::from_str::<toml::Value>` on `text`. The value it gives holds
/// what the name `spec_toml_document` says of the text; an error gives
/// `None`.
#[verifier::external_body]
fn parse_toml(text: &str) -> (r: Option<toml::Value>)
    ensures
        match r {
            Some(v) => spec_toml_document(text@) == Some(toml_contents(v)),
            None => spec_toml_document(text@) is None,
        },
{
    toml::from_str::<toml::Value>(text).ok()
}

/// Takes the entries of a `toml::Value::Table` (by `toml::map::Map::iter`,
/// in order, each key and value cloned); any other value has none.
#[verifier::external_body]
fn toml_table_entries(v: &toml::Value) -> (r: Option<Vec<(String, toml::Value)>>)
    ensures
        match toml_contents(*v) {
            TomlNode::Table(es) => r matches Some(t) && t@.len() == es@.len() && forall|i: int|
                0 <= i < t@.len() ==> (#[trigger] t@[i]).0@ == es@[i].0@ && toml_contents(t@[i].1)
                    == es@[i].1,
            TomlNode::Leaf => r is None,
        },
{
    match v {
        toml::Value::Table(t) => Some(t.iter().map(|(k, x)| (k.clone(), x.clone())).collect()),
        _ => None,
    }
}

/// Appends the dotted names of the leaves under the table entries `t` to
/// `out`; `es` is what the entries hold.
fn collect_toml_keys(
    prefix: Option<&str>,
    t: &Vec<(String, toml::Value)>,
    Ghost(es): Ghost<Seq<(String, TomlNode)>>,
    out: &mut Vec<String>,
)
    requires
        t@.len() == es.len(),
        forall|i: int|
            0 <= i < t@.len() ==> (#[trigger] t@[i]).0@ == es[i].0@ && toml_contents(t@[i].1)
                == es[i].1,
    ensures
        views(final(out)@) == views(old(out)@) + entry_leaf_keys(opt_str(prefix), es),
    decreases es,
{
    let ghost p = opt_str(prefix);
    let mut i: usize = 0;
    assert(es.subrange(0, 0) =~= Seq::<(String, TomlNode)>::empty());
    assert(views(old(out)@) + entry_leaf_keys(p, es.subrange(0, 0)) =~= views(old(out)@));
    while i < t.len()
        invariant
            0 <= i <= es.len(),
            t@.len() == es.len(),
            forall|q: int|
                0 <= q < t@.len() ==> (#[trigger] t@[q]).0@ == es[q].0@ && toml_contents(t@[q].1)
                    == es[q].1,
            p == opt_str(prefix),
            views(out@) == views(old(out)@) + entry_leaf_keys(p, es.subrange(0, i as int)),
        decreases es.len() - i,
    {
        let ghost pre = es.subrange(0, i + 1);
        assert(pre.subrange(0, pre.len() - 1) =~= es.subrange(0, i as int));
        assert(pre[pre.len() - 1] == es[i as int]);
        assert(t@[i as int].0@ == es[i as int].0@);
        let name = dotted_name(prefix, &t[i].0);
        let ghost before = views(out@);
        let ghost rest = entry_leaf_keys(p, es.subrange(0, i as int));
        assert(before == views(old(out)@) + rest);
        match toml_table_entries(&t[i].1) {
            Some(sub) => {
                let ghost ces = es[i as int].1->Table_0@;
                assert(decreases_to!(es => es[i as int]));
                assert(decreases_to!(es[i as int] => es[i as int].1));
                assert(decreases_to!(es[i as int].1 => es[i as int].1->Table_0));
                assert(decreases_to!(es[i as int].1->Table_0 => ces));
                collect_toml_keys(Some(name.as_str()), &sub, Ghost(ces), out);
                assert(entry_leaf_keys(p, pre) == rest + entry_leaf_keys(Some(name@), ces));
                assert(views(out@) =~= views(old(out)@) + entry_leaf_keys(p, pre));
            },
            None => {
                out.push(name);
                assert(entry_leaf_keys(p, pre) == rest.push(name@));
                assert(views(out@) =~= before.push(name@));
                assert(views(out@) =~= views(old(out)@) + entry_leaf_keys(p, pre));
            },
        }
        i = i + 1;
    }
    assert(es.subrange(0, es.len() as int) =~= es);
}

/// Which fields of a parsed TOML document are supported and which are
/// ignored, each list sorted and without repeats.
pub fn analyze_toml_value(v: &toml::Value) -> (r: ThemeSupportReport)
    ensures
        views(r.supported_fields_present@) == fields_where(
            sort_unique(leaf_keys(toml_contents(*v))),
            true,
        ),
        views(r.ignored_fields_present@) == fields_where(
            sort_unique(leaf_keys(toml_contents(*v))),
            false,
        ),
{
    let mut keys: Vec<String> = Vec::new();
    match toml_table_entries(v) {
        Some(t) => {
            let ghost es = toml_contents(*v)->Table_0@;
            collect_toml_keys(None, &t, Ghost(es), &mut keys);
            assert(views(keys@) =~= leaf_keys(toml_contents(*v)));
        },
        None => {
            assert(views(keys@) =~= leaf_keys(toml_contents(*v)));
        },
    }
    let present = sorted_unique(&keys);
    theme_support_report(&present)
}

/// Which fields the theme file text `text` sets that the renderers read
/// and which they ignore; `None` when the text is not valid TOML.
pub fn analyze_theme_text(text: &str) -> (r: Option<ThemeSupportReport>)
    ensures
        match spec_toml_document(text@) {
            Some(root) => r matches Some(rep) && views(rep.supported_fields_present@)
                == fields_where(sort_unique(leaf_keys(root)), true) && views(
                rep.ignored_fields_present@,
            ) == fields_where(sort_unique(leaf_keys(root)), false),
            None => r is None,
        },
{
    match parse_toml(text) {
        Some(v) => Some(analyze_toml_value(&v)),
        None => None,
    }
}

// ---------------------------------------------------------------------------
// Laws of theme selection
// ---------------------------------------------------------------------------
/// Theme names follow the precedence CLI, environment, config file,
/// default: a non-blank explicit name always wins, and `nightowl` is used
/// only when all three are missing or blank.
pub proof fn lemma_theme_name_precedence(
    explicit: Option<Seq<char>>,
    env_theme: Option<Seq<char>>,
    config_theme: Option<Seq<char>>,
)
    ensures
        first_nonblank(explicit) matches Some(n) ==> chosen_theme_name(
            explicit,
            env_theme,
            config_theme,
        ) == n,
        first_nonblank(explicit) is None ==> (first_nonblank(env_theme) matches Some(n)
            ==> chosen_theme_name(explicit, env_theme, config_theme) == n),
        first_nonblank(explicit) is None && first_nonblank(env_theme) is None ==> (first_nonblank(
            config_theme,
        ) matches Some(n) ==> chosen_theme_name(explicit, env_theme, config_theme) == n),
        first_nonblank(explicit) is None && first_nonblank(env_theme) is None && first_nonblank(
            config_theme,
        ) is None ==> chosen_theme_name(explicit, env_theme, config_theme) == "nightowl"@,
{
}

proof fn lemma_picked_from_first(dirs: Seq<Seq<char>>, file: Seq<char>, found: Seq<bool>, k: int, i: int)
    requires
        0 <= k <= i < found.len() <= dirs.len(),
        found[i],
        forall|j: int| k <= j < i ==> !#[trigger] found[j],
    ensures
        picked_from(dirs, file, found, k) == Some(join(dirs[i], file)),
    decreases i - k,
{
    if k < i {
        lemma_picked_from_first(dirs, file, found, k + 1, i);
    }
}

/// The theme file comes from the first search directory in which it was
/// found; in particular, when the user-managed directory (searched first)
/// holds it, that file wins over the bundled one.
pub proof fn lemma_first_found_theme_wins(dirs: Seq<Seq<char>>, file: Seq<char>, found: Seq<bool>, i: int)
    requires
        0 <= i < found.len() <= dirs.len(),
        found[i],
        forall|j: int| 0 <= j < i ==> !#[trigger] found[j],
    ensures
        picked_from(dirs, file, found, 0) == Some(join(dirs[i], file)),
{
    lemma_picked_from_first(dirs, file, found, 0, i);
}

/// The user-managed theme directory is searched before the bundled one, so
/// a theme file present in both is taken from the user's directory.
pub proof fn lemma_user_theme_wins_over_bundled(
    xdg: Option<Seq<char>>,
    home: Option<Seq<char>>,
    manifest: Seq<char>,
    file: Seq<char>,
    found: Seq<bool>,
)
    requires
        xdg is Some || home is Some,
        1 <= found.len() <= 2,
        found[0],
    ensures
        ({
            let dirs = search_dirs_for(xdg, home, Some(manifest));
            let user = match xdg {
                Some(x) => xdg_themes_dir(x),
                None => home_themes_dir(home->0),
            };
            &&& dirs == seq![user, bundled_themes_dir(manifest)]
            &&& picked_from(dirs, file, found, 0) == Some(join(user, file))
        }),
{
    let dirs = search_dirs_for(xdg, home, Some(manifest));
    let user = match xdg {
        Some(x) => xdg_themes_dir(x),
        None => home_themes_dir(home->0),
    };
    assert(dirs =~= seq![user, bundled_themes_dir(manifest)]);
}

/// A theme found in no search directory is not found.
pub proof fn lemma_theme_not_found(dirs: Seq<Seq<char>>, file: Seq<char>, found: Seq<bool>, k: int)
    requires
        0 <= k <= found.len(),
        forall|j: int| k <= j < found.len() ==> !#[trigger] found[j],
    ensures
        picked_from(dirs, file, found, k) is None,
    decreases found.len() - k,
{
    if k < found.len() {
        lemma_theme_not_found(dirs, file, found, k + 1);
    }
}

proof fn lemma_fields_where(s: Seq<Seq<char>>, want: bool)
    ensures
        forall|x: Seq<char>| #[trigger]
            fields_where(s, want).contains(x) <==> (s.contains(x) && supported_fields().contains(x)
                == want),
        strictly_sorted(s) ==> strictly_sorted(fields_where(s, want)),
    decreases s.len(),
{
    if s.len() > 0 {
        let t = s.drop_last();
        lemma_fields_where(t, want);
        let rest = fields_where(t, want);
        let r = fields_where(s, want);
        assert forall|x: Seq<char>| #[trigger]
            r.contains(x) <==> (s.contains(x) && supported_fields().contains(x) == want) by {
            lemma_contains_back(s, x);
            if supported_fields().contains(s.last()) == want {
                lemma_contains_back(r, x);
                assert(r.drop_last() =~= rest);
            }
        }
        if strictly_sorted(s) {
            assert(strictly_sorted(t)) by {
                assert forall|i: int, j: int| 0 <= i < j < t.len() implies str_lt(
                    #[trigger] t[i],
                    #[trigger] t[j],
                ) by {
                    assert(t[i] == s[i] && t[j] == s[j]);
                }
            }
            if supported_fields().contains(s.last()) == want {
                assert forall|i: int, j: int| 0 <= i < j < r.len() implies str_lt(
                    #[trigger] r[i],
                    #[trigger] r[j],
                ) by {
                    if j == r.len() - 1 {
                        assert(rest.contains(r[i]));
                        let q = choose|q: int| 0 <= q < t.len() && t[q] == r[i];
                        assert(s[q] == r[i]);
                        assert(str_lt(s[q], s[s.len() - 1]));
                    } else {
                        assert(r[i] == rest[i] && r[j] == rest[j]);
                    }
                }
            }
        }
    }
}

/// Every field present in a theme file is reported exactly once, as read
/// or as ignored, and each list is sorted without repeats.
pub proof fn lemma_theme_report_partitions_fields(root: TomlNode)
    ensures
        ({
            let present = sort_unique(leaf_keys(root));
            &&& strictly_sorted(fields_where(present, true))
            &&& strictly_sorted(fields_where(present, false))
            &&& forall|x: Seq<char>| #[trigger]
                fields_where(present, true).contains(x) <==> (leaf_keys(root).contains(x)
                    && supported_fields().contains(x))
            &&& forall|x: Seq<char>| #[trigger]
                fields_where(present, false).contains(x) <==> (leaf_keys(root).contains(x)
                    && !supported_fields().contains(x))
        }),
{
    let present = sort_unique(leaf_keys(root));
    lemma_sort_unique(leaf_keys(root));
    lemma_fields_where(present, true);
    lemma_fields_where(present, false);
}

/// The user's themes are searched first: with `$XDG_CONFIG_HOME` set the
/// first directory is `<xdg>/jetctx/themes`; otherwise, when the home
/// directory (as `dirs::home_dir` gave it) is `h`, the first directory is
/// `<h>/.config/jetctx/themes`; the bundled `<manifest>/themes`, when the
/// manifest directory is known, comes last; nothing else is searched.
pub proof fn lemma_user_themes_searched_first(
    xdg: Option<Seq<char>>,
    manifest: Option<Seq<char>>,
    dirs: Seq<Seq<char>>,
)
    requires
        search_dirs_chosen(xdg, manifest, dirs),
    ensures
        xdg matches Some(x) ==> dirs.len() >= 1 && dirs[0] == join(join(x, "jetctx"@), "themes"@),
        xdg is None ==> exists|home: Option<Seq<char>>|
            #[trigger] home_answer(home) && match home {
                Some(h) => dirs.len() >= 1 && dirs[0] == join(
                    join(join(h, ".config"@), "jetctx"@),
                    "themes"@,
                ),
                None => dirs.len() == (if manifest is Some { 1int } else { 0int }),
            },
        manifest matches Some(m) ==> dirs.len() >= 1 && dirs.last() == join(m, "themes"@),
        dirs.len() <= 2,
{
    if xdg is None {
        let home = choose|home: Option<Seq<char>>|
            home_answer(home) && dirs == #[trigger] search_dirs_for(xdg, home, manifest);
        assert(home_answer(home));
    }
}

} // verus!
