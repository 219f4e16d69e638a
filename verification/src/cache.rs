//! The shared cache: file locations, entry freshness, building entries, and
//! reading the output of the host probes. Reading and writing the JSON
//! files, and running the probes, are the caller's part.
use vstd::prelude::*;
use crate::cli::UpdateScope;
use crate::config::Config;
use crate::detect::git::GitContext;
use crate::detect::project::{
    detect, detected, detection_run, detects, marker_count, marker_kind, marker_name, selects,
    ProjectInfo, ProjectKind, ProjectMarkerMatch,
};
use crate::paths::{ask_home_dir, home_answer, join, join_path, spec_parent};
use crate::text::{
    concat, copy_str, find, find_from, find_in, hex16, hex_fixed, is_lower_hex_digit,
    lemma_hex_fixed_shape, line_ranges, lines, matches_at, opt_str, opt_view, parse_bounded, parse_uint, split, split_ranges, starts_with, substring, to_chars,
    trim, trim_bounds, Sep,
};

verus! {

/// Where the cache files live.
#[derive(Debug, Clone)]
pub struct CachePaths {
    pub root: String,
    pub host_file: String,
    pub projects_dir: String,
}

/// Why the cache location could not be found.
#[derive(Debug, Clone)]
pub enum CacheError {
    /// Neither `$XDG_CACHE_HOME` nor a home directory is available.
    HomeUnavailable,
}

impl CacheError {
    /// A one-line description of the error.
    pub fn describe(&self) -> (r: String)
        ensures
            r@ == "failed to resolve jetctx cache root: home directory is unavailable"@,
    {
        copy_str("failed to resolve jetctx cache root: home directory is unavailable")
    }
}

/// `<dir>/jetctx`.
pub open spec fn jetctx_under(dir: Seq<char>) -> Seq<char> {
    join(dir, "jetctx"@)
}

/// The cache root chosen from a non-blank `$XDG_CACHE_HOME`: its trimmed
/// value followed by `jetctx`.
pub open spec fn xdg_cache_root(xdg: Option<Seq<char>>) -> Option<Seq<char>> {
    match xdg {
        Some(x) => if trim(x).len() > 0 {
            Some(jetctx_under(trim(x)))
        } else {
            None
        },
        None => None,
    }
}

/// `root` is `<home>/.cache/jetctx` for the home directory `dirs::home_dir`
/// gave.
pub open spec fn home_cache_root(root: Seq<char>) -> bool {
    exists|h: Seq<char>| home_answer(Some(h)) && root == #[trigger] jetctx_under(join(h, ".cache"@))
}

/// The cache root: `$XDG_CACHE_HOME/jetctx` when that variable is set and not
/// blank, otherwise `~/.cache/jetctx`.
pub fn cache_root(xdg_cache_home: Option<String>) -> (r: Result<String, CacheError>)
    ensures
        match xdg_cache_root(opt_view(xdg_cache_home)) {
            Some(p) => r matches Ok(q) && q@ == p,
            None => match r {
                Ok(q) => home_cache_root(q@),
                Err(e) => e is HomeUnavailable && home_answer(None),
            },
        },
{
    if let Some(x) = &xdg_cache_home {
        let v = to_chars(x);
        let (a, b) = trim_bounds(&v, 0, v.len());
        assert(v@.subrange(0, v@.len() as int) =~= v@);
        if a < b {
            let t = substring(&v, a, b);
            return Ok(join_path(&t, "jetctx"));
        }
    }
    match ask_home_dir() {
        Some(h) => {
            let c = join_path(&h, ".cache");
            let r = join_path(&c, "jetctx");
            assert(r@ == jetctx_under(join(h@, ".cache"@)));
            Ok(r)
        },
        None => Err(CacheError::HomeUnavailable),
    }
}

/// The cache files under the root `root`.
pub open spec fn paths_under(root: Seq<char>, p: CachePaths) -> bool {
    &&& p.root@ == root
    &&& p.host_file@ == join(root, "host.json"@)
    &&& p.projects_dir@ == join(root, "projects"@)
}

/// What `Hash` on a string slice with `DefaultHasher::new()` gives.
pub uninterp spec fn spec_default_hash(s: Seq<char>) -> u64;

/// Calls `BuildHasher::hash_one` with the default hasher (`DefaultHasher`,
/// whose keys are fixed, so equal strings hash equally within a build).
#[verifier::external_body]
fn default_hash_of(s: &str) -> (h: u64)
    ensures
        h == spec_default_hash(s@),
{
    std::hash::BuildHasher::hash_one(
        &std::hash::BuildHasherDefault::<std::collections::hash_map::DefaultHasher>::default(),
        s,
    )
}

/// The cache key of a project root: its default hash as sixteen lowercase
/// hexadecimal digits.
pub open spec fn project_key(root: Seq<char>) -> Seq<char> {
    hex_fixed(spec_default_hash(root) as nat, 16)
}

/// The cache key of a project root.
pub fn stable_project_key(path: &str) -> (r: String)
    ensures
        r@ == project_key(path@),
{
    hex16(default_hash_of(path))
}

impl CachePaths {
    /// The cache files under `root`: `host.json` and `projects/`.
    pub fn under(root: String) -> (r: Self)
        ensures
            paths_under(root@, r),
    {
        let host_file = join_path(&root, "host.json");
        let projects_dir = join_path(&root, "projects");
        CachePaths { root, host_file, projects_dir }
    }

    /// Finds the cache files, given the value of `$XDG_CACHE_HOME`.
    pub fn discover(xdg_cache_home: Option<String>) -> (r: Result<Self, CacheError>)
        ensures
            xdg_cache_root(opt_view(xdg_cache_home)) matches Some(p) ==> (r matches Ok(c)
                && paths_under(p, c)),
            xdg_cache_root(opt_view(xdg_cache_home)) is None ==> match r {
                Ok(c) => home_cache_root(c.root@) && paths_under(c.root@, c),
                Err(e) => e is HomeUnavailable,
            },
    {
        match cache_root(xdg_cache_home) {
            Ok(root) => Ok(CachePaths::under(root)),
            Err(e) => Err(e),
        }
    }

    /// The cache file of the project rooted at `root`, whose canonical form
    /// (as `fs::canonicalize` gave it, when it could) is `canonical_root`:
    /// `projects/<key>.json`, keyed by the canonical root when there is one
    /// and by `root` as given otherwise.
    pub fn project_file_for_root(&self, root: &str, canonical_root: Option<&str>) -> (r: String)
        ensures
            r@ == project_file(self.projects_dir@, root@, opt_str(canonical_root)),
    {
        let keyed = match canonical_root {
            Some(c) => c,
            None => root,
        };
        let key = stable_project_key(keyed);
        let name = concat(&key, ".json");
        join_path(&self.projects_dir, &name)
    }
}

/// The root a project's cache file is keyed by: its canonical form when
/// there is one, the root as given otherwise.
pub open spec fn keyed_root(root: Seq<char>, canonical_root: Option<Seq<char>>) -> Seq<char> {
    match canonical_root {
        Some(c) => c,
        None => root,
    }
}

/// The cache file, under `projects_dir`, of the project rooted at `root`.
pub open spec fn project_file(projects_dir: Seq<char>, root: Seq<char>, canonical_root: Option<Seq<char>>) -> Seq<char> {
    join(projects_dir, project_key(keyed_root(root, canonical_root)) + ".json"@)
}

/// One cache file per canonical project root: two spellings of a root with
/// the same canonical form share their cache file, which lies directly in
/// the projects directory under a sixteen-digit key.
pub proof fn lemma_one_file_per_canonical_root(projects_dir: Seq<char>, a: Seq<char>, b: Seq<char>, canonical: Seq<char>)
    ensures
        project_file(projects_dir, a, Some(canonical)) == project_file(projects_dir, b, Some(canonical)),
        project_key(canonical).len() == 16,
        forall|i: int| 0 <= i < 16 ==> is_lower_hex_digit(#[trigger] project_key(canonical)[i]),
        project_file(projects_dir, a, Some(canonical)) == join(
            projects_dir,
            project_key(canonical) + ".json"@,
        ),
{
    lemma_hex_fixed_shape(spec_default_hash(canonical) as nat, 16);
}

/// A cached project summary.
#[derive(Debug, Clone)]
pub struct ProjectCacheEntry {
    pub version: u32,
    pub updated_at_epoch_secs: u64,
    pub cwd: String,
    pub root: String,
    pub project_name: String,
    pub project_kind: String,
    pub markers: Vec<ProjectMarkerCacheEntry>,
    pub git: Option<GitCacheEntry>,
}

/// A cached marker.
#[derive(Debug, Clone)]
pub struct ProjectMarkerCacheEntry {
    pub name: String,
    pub kind: String,
}

/// A cached git summary.
#[derive(Debug, Clone)]
pub struct GitCacheEntry {
    pub branch: Option<String>,
    pub dirty: bool,
}

/// A cached host summary.
#[derive(Debug, Clone)]
pub struct HostCacheEntry {
    pub version: u32,
    pub updated_at_epoch_secs: u64,
    pub theme: String,
    pub hostname: Option<String>,
    pub os: Option<String>,
    pub battery_percent: Option<u8>,
    pub memory_used_bytes: Option<u64>,
    pub memory_total_bytes: Option<u64>,
    pub time_label: Option<String>,
}

/// Reads the system clock: whole seconds since the Unix epoch, or 0 when
/// the clock is before the epoch. The answer depends on the time.
#[verifier::external_body]
fn clock_epoch_secs() -> u64 {
    std::time::SystemTime::now().duration_since(std::time::UNIX_EPOCH).map(|d| d.as_secs()).unwrap_or(0)
}

/// Whole seconds since the Unix epoch (0 when the clock is before it).
pub fn now_epoch_secs() -> u64 {
    clock_epoch_secs()
}

/// An entry written at `updated` is fresh at `now` under a lifetime of
/// `ttl` seconds: `ttl` is not 0 and at most `ttl` seconds have passed
/// (none have when `updated` lies in the future).
pub open spec fn fresh_at(now: u64, updated: u64, ttl: u64) -> bool {
    ttl != 0 && (if now >= updated {
        now - updated
    } else {
        0
    }) <= ttl
}

/// Tests freshness at a given time.
pub fn is_fresh_at(now: u64, updated_at_epoch_secs: u64, ttl_seconds: u64) -> (r: bool)
    ensures
        r == fresh_at(now, updated_at_epoch_secs, ttl_seconds),
{
    if ttl_seconds == 0 {
        return false;
    }
    now.saturating_sub(updated_at_epoch_secs) <= ttl_seconds
}

/// Tests freshness now, by the system clock: the answer is `fresh_at` for
/// the time the clock gave.
pub fn is_fresh(updated_at_epoch_secs: u64, ttl_seconds: u64) -> (r: bool)
    ensures
        exists|now: u64| r == #[trigger] fresh_at(now, updated_at_epoch_secs, ttl_seconds),
        ttl_seconds == 0 ==> !r,
        ttl_seconds == u64::MAX ==> r,
{
    let now = now_epoch_secs();
    let r = is_fresh_at(now, updated_at_epoch_secs, ttl_seconds);
    assert(r == fresh_at(now, updated_at_epoch_secs, ttl_seconds));
    r
}

impl ProjectCacheEntry {
    /// Tests whether the entry is still fresh under `ttl_seconds`.
    pub fn is_fresh(&self, ttl_seconds: u64) -> (r: bool)
        ensures
            exists|now: u64| r == #[trigger] fresh_at(now, self.updated_at_epoch_secs, ttl_seconds),
            ttl_seconds == 0 ==> !r,
            ttl_seconds == u64::MAX ==> r,
    {
        is_fresh(self.updated_at_epoch_secs, ttl_seconds)
    }

    /// The project root as a path.
    pub fn root_path(&self) -> (r: String)
        ensures
            r@ == self.root@,
    {
        copy_str(&self.root)
    }
}

impl HostCacheEntry {
    /// Tests whether the entry is still fresh under `ttl_seconds`.
    pub fn is_fresh(&self, ttl_seconds: u64) -> (r: bool)
        ensures
            exists|now: u64| r == #[trigger] fresh_at(now, self.updated_at_epoch_secs, ttl_seconds),
            ttl_seconds == 0 ==> !r,
            ttl_seconds == u64::MAX ==> r,
    {
        is_fresh(self.updated_at_epoch_secs, ttl_seconds)
    }
}

/// Whether to keep a cached entry or build a new one.
#[derive(Debug, Clone)]
pub enum CacheChoice<T> {
    /// The cached entry is fresh: use it.
    Use(T),
    /// Build, save and use a new entry.
    Refresh,
}

/// The choice for a project entry at time `now`: keep an existing entry
/// while it is fresh under the project lifetime, otherwise refresh.
pub open spec fn project_choice(now: u64, existing: Option<ProjectCacheEntry>, config: Config, r: CacheChoice<ProjectCacheEntry>) -> bool {
    match existing {
        Some(e) => if fresh_at(now, e.updated_at_epoch_secs, config.update.project_ttl_seconds) {
            r == CacheChoice::Use(e)
        } else {
            r is Refresh
        },
        None => r is Refresh,
    }
}

/// The choice for a host entry at time `now`: keep an existing entry while
/// it is fresh under the host lifetime, otherwise refresh.
pub open spec fn host_choice(now: u64, existing: Option<HostCacheEntry>, config: Config, r: CacheChoice<HostCacheEntry>) -> bool {
    match existing {
        Some(e) => if fresh_at(now, e.updated_at_epoch_secs, config.update.host_ttl_seconds) {
            r == CacheChoice::Use(e)
        } else {
            r is Refresh
        },
        None => r is Refresh,
    }
}

/// Keeps or refreshes a project entry, judged at time `now`.
pub fn project_entry_choice_at(now: u64, existing: Option<ProjectCacheEntry>, config: &Config) -> (r: CacheChoice<ProjectCacheEntry>)
    ensures
        project_choice(now, existing, *config, r),
{
    match existing {
        Some(e) => {
            if is_fresh_at(now, e.updated_at_epoch_secs, config.update.project_ttl_seconds) {
                CacheChoice::Use(e)
            } else {
                CacheChoice::Refresh
            }
        },
        None => CacheChoice::Refresh,
    }
}

/// Keeps or refreshes a host entry, judged at time `now`.
pub fn host_entry_choice_at(now: u64, existing: Option<HostCacheEntry>, config: &Config) -> (r: CacheChoice<HostCacheEntry>)
    ensures
        host_choice(now, existing, *config, r),
{
    match existing {
        Some(e) => {
            if is_fresh_at(now, e.updated_at_epoch_secs, config.update.host_ttl_seconds) {
                CacheChoice::Use(e)
            } else {
                CacheChoice::Refresh
            }
        },
        None => CacheChoice::Refresh,
    }
}

/// Keeps an existing project entry while it is fresh under the project
/// lifetime, by the system clock; otherwise asks for a refresh.
pub fn load_or_refresh_project_entry(existing: Option<ProjectCacheEntry>, config: &Config) -> (r: CacheChoice<ProjectCacheEntry>)
    ensures
        exists|now: u64| #[trigger] project_choice(now, existing, *config, r),
        existing is None ==> r is Refresh,
        config.update.project_ttl_seconds == 0 ==> r is Refresh,
        existing is Some && config.update.project_ttl_seconds == u64::MAX ==> r == CacheChoice::Use(
            existing->0,
        ),
{
    let now = now_epoch_secs();
    let r = project_entry_choice_at(now, existing, config);
    assert(project_choice(now, existing, *config, r));
    r
}

/// Keeps an existing host entry while it is fresh under the host lifetime,
/// by the system clock; otherwise asks for a refresh.
pub fn load_or_refresh_host_entry(existing: Option<HostCacheEntry>, config: &Config) -> (r: CacheChoice<HostCacheEntry>)
    ensures
        exists|now: u64| #[trigger] host_choice(now, existing, *config, r),
        existing is None ==> r is Refresh,
        config.update.host_ttl_seconds == 0 ==> r is Refresh,
        existing is Some && config.update.host_ttl_seconds == u64::MAX ==> r == CacheChoice::Use(
            existing->0,
        ),
{
    let now = now_epoch_secs();
    let r = host_entry_choice_at(now, existing, config);
    assert(host_choice(now, existing, *config, r));
    r
}

/// The host entry for `update`: `--force` always refreshes; otherwise a fresh
/// cached entry is kept.
pub fn plan_host_update(force: bool, existing: Option<HostCacheEntry>, config: &Config) -> (r: CacheChoice<HostCacheEntry>)
    ensures
        force ==> r is Refresh,
        !force ==> exists|now: u64| #[trigger] host_choice(now, existing, *config, r),
        existing is None ==> r is Refresh,
        !force && existing is Some && config.update.host_ttl_seconds == u64::MAX ==> r
            == CacheChoice::Use(existing->0),
{
    if force {
        CacheChoice::Refresh
    } else {
        load_or_refresh_host_entry(existing, config)
    }
}

/// What `update` does for each scope.
#[derive(Debug, Clone)]
pub enum UpdatePlan {
    /// Settle the host entry and print it.
    Host { force: bool },
    /// Settle the project entry for the directory `cwd` (the current
    /// directory when absent) and print it.
    Project { cwd: Option<String>, force: bool },
    /// Settle both and print them under `host_cache` and `project_cache`.
    All { cwd: Option<String>, force: bool },
}

/// The plan for an `update` scope: `update host` settles the host entry,
/// `update project` the project entry for its directory, `update all` both.
pub fn plan_update(scope: &UpdateScope) -> (r: UpdatePlan)
    ensures
        match scope {
            UpdateScope::Host(a) => r == UpdatePlan::Host { force: a.force },
            UpdateScope::Project(a) => r matches UpdatePlan::Project { cwd, force } && force
                == a.force && opt_view(cwd) == opt_view(a.cwd),
            UpdateScope::All(a) => r matches UpdatePlan::All { cwd, force } && force == a.force
                && opt_view(cwd) == opt_view(a.cwd),
        },
{
    match scope {
        UpdateScope::Host(a) => UpdatePlan::Host { force: a.force },
        UpdateScope::Project(a) => UpdatePlan::Project {
            cwd: match &a.cwd {
                Some(c) => Some(copy_str(c)),
                None => None,
            },
            force: a.force,
        },
        UpdateScope::All(a) => UpdatePlan::All {
            cwd: match &a.cwd {
                Some(c) => Some(copy_str(c)),
                None => None,
            },
            force: a.force,
        },
    }
}

/// The project entry for `update`: `--force` always rebuilds; otherwise a
/// fresh cached entry is kept.
pub fn plan_project_update(force: bool, existing: Option<ProjectCacheEntry>, config: &Config) -> (r: CacheChoice<ProjectCacheEntry>)
    ensures
        force ==> r is Refresh,
        !force ==> exists|now: u64| #[trigger] project_choice(now, existing, *config, r),
        existing is None ==> r is Refresh,
        !force && existing is Some && config.update.project_ttl_seconds == u64::MAX ==> r
            == CacheChoice::Use(existing->0),
{
    if force {
        CacheChoice::Refresh
    } else {
        load_or_refresh_project_entry(existing, config)
    }
}

/// The lowercase name of a project kind, as stored in the cache.
pub open spec fn kind_name(kind: ProjectKind) -> Seq<char> {
    match kind {
        ProjectKind::Plain => "plain"@,
        ProjectKind::Git => "git"@,
        ProjectKind::Rust => "rust"@,
        ProjectKind::Node => "node"@,
        ProjectKind::Python => "python"@,
        ProjectKind::Go => "go"@,
        ProjectKind::Ruby => "ruby"@,
        ProjectKind::Nix => "nix"@,
        ProjectKind::Terraform => "terraform"@,
    }
}

/// The lowercase name of a project kind.
pub fn kind_label(kind: ProjectKind) -> (r: String)
    ensures
        r@ == kind_name(kind),
{
    match kind {
        ProjectKind::Plain => copy_str("plain"),
        ProjectKind::Git => copy_str("git"),
        ProjectKind::Rust => copy_str("rust"),
        ProjectKind::Node => copy_str("node"),
        ProjectKind::Python => copy_str("python"),
        ProjectKind::Go => copy_str("go"),
        ProjectKind::Ruby => copy_str("ruby"),
        ProjectKind::Nix => copy_str("nix"),
        ProjectKind::Terraform => copy_str("terraform"),
    }
}

/// `m` is the cache form of the marker `p`.
pub open spec fn marker_cached(p: ProjectMarkerMatch, m: ProjectMarkerCacheEntry) -> bool {
    m.name@ == p.name@ && m.kind@ == kind_name(p.kind)
}

/// `e` caches the project `info` found from `cwd`, without git data.
pub open spec fn entry_for(cwd: Seq<char>, info: ProjectInfo, e: ProjectCacheEntry) -> bool {
    &&& e.version == 1
    &&& e.cwd@ == cwd
    &&& e.root@ == info.root@
    &&& e.project_name@ == info.name@
    &&& e.project_kind@ == kind_name(info.kind)
    &&& e.markers@.len() == info.markers@.len()
    &&& forall|i: int|
        0 <= i < e.markers@.len() ==> marker_cached(info.markers@[i], #[trigger] e.markers@[i])
    &&& e.git is None
}

/// The project asks for git data: it has a `.git` marker or is a git project.
pub open spec fn wants_git(info: ProjectInfo) -> bool {
    info.spec_has_git_marker() || info.kind == ProjectKind::Git
}

/// The next step of building a project cache entry.
#[derive(Debug, Clone)]
pub enum ProjectBuild {
    /// No project contains the directory.
    NoProject,
    /// The entry is complete.
    Ready(ProjectCacheEntry),
    /// Detect git at `repo_root` (see `detect::git::detect`) and pass the
    /// result to `ProjectCacheEntry::with_git`.
    NeedGit { entry: ProjectCacheEntry, repo_root: String },
}

/// What a start of building the project cache entry for `cwd` at `now`
/// gives: no project only without a parent directory; otherwise the entry
/// of the detected project, stamped `now`, ready when the project wants no
/// git data and waiting for git detection at the project root when it does.
pub open spec fn project_build_started(cwd: Seq<char>, now: u64, r: ProjectBuild) -> bool {
    &&& match r {
        ProjectBuild::Ready(e) => e.updated_at_epoch_secs == now,
        ProjectBuild::NeedGit { entry, repo_root } => entry.updated_at_epoch_secs == now,
        ProjectBuild::NoProject => true,
    }
    &&& match r {
        ProjectBuild::NoProject => spec_parent(cwd) is None,
        ProjectBuild::Ready(e) => exists|info: ProjectInfo|
            #[trigger] detects(cwd, info) && detected(cwd, None, true, info) && entry_for(
                cwd,
                info,
                e,
            ) && !wants_git(info),
        ProjectBuild::NeedGit { entry, repo_root } => exists|info: ProjectInfo|
            #[trigger] detects(cwd, info) && detected(cwd, None, true, info) && entry_for(
                cwd,
                info,
                entry,
            ) && wants_git(info) && repo_root@ == info.root@,
    }
}

/// Starts building the cache entry of the project around `cwd`, stamped with
/// the time `now`.
pub fn build_project_cache_entry(cwd: &str, config: &Config, now: u64) -> (r: ProjectBuild)
    ensures
        project_build_started(cwd@, now, r),
        match r {
            ProjectBuild::Ready(e) => e.updated_at_epoch_secs == now,
            ProjectBuild::NeedGit { entry, repo_root } => entry.updated_at_epoch_secs == now,
            ProjectBuild::NoProject => true,
        },
        match r {
            ProjectBuild::NoProject => spec_parent(cwd@) is None,
            ProjectBuild::Ready(e) => exists|info: ProjectInfo|
                #[trigger] detects(cwd@, info) && detected(cwd@, None, true, info) && entry_for(
                    cwd@,
                    info,
                    e,
                ) && !wants_git(info),
            ProjectBuild::NeedGit { entry, repo_root } => exists|info: ProjectInfo|
                #[trigger] detects(cwd@, info) && detected(cwd@, None, true, info) && entry_for(
                    cwd@,
                    info,
                    entry,
                ) && wants_git(info) && repo_root@ == info.root@,
        },
{
    let found = detect(cwd);
    let info = match found {
        Some(i) => i,
        None => return ProjectBuild::NoProject,
    };
    assert(detects(cwd@, info)) by {
        let (d, dirs, marks) = choose|
            d: bool,
            dirs: Seq<Seq<char>>,
            marks: Seq<Seq<bool>>,
        |
            #[trigger] detection_run(cwd@, None, true, d, dirs, marks, found);
        assert(detection_run(cwd@, None, true, d, dirs, marks, Some(info)));
    }
    let mut markers: Vec<ProjectMarkerCacheEntry> = Vec::new();
    let mut i: usize = 0;
    while i < info.markers.len()
        invariant
            0 <= i <= info.markers@.len(),
            markers@.len() == i,
            forall|j: int|
                0 <= j < i ==> marker_cached(info.markers@[j], #[trigger] markers@[j]),
        decreases info.markers@.len() - i,
    {
        markers.push(
            ProjectMarkerCacheEntry {
                name: copy_str(&info.markers[i].name),
                kind: kind_label(info.markers[i].kind),
            },
        );
        i = i + 1;
    }
    let want_git = info.has_git_marker() || info.kind == ProjectKind::Git;
    let entry = ProjectCacheEntry {
        version: 1,
        updated_at_epoch_secs: now,
        cwd: copy_str(cwd),
        root: copy_str(&info.root),
        project_name: copy_str(&info.name),
        project_kind: kind_label(info.kind),
        markers,
        git: None,
    };
    assert(entry_for(cwd@, info, entry));
    assert(want_git == wants_git(info));
    if want_git {
        ProjectBuild::NeedGit { entry, repo_root: info.root }
    } else {
        ProjectBuild::Ready(entry)
    }
}

/// The cache form of a git summary: its branch and dirty flag.
pub open spec fn git_cached(g: GitContext, c: GitCacheEntry) -> bool {
    &&& c.dirty == g.dirty
    &&& match (g.branch, c.branch) {
        (Some(a), Some(b)) => a@ == b@,
        (None, None) => true,
        _ => false,
    }
}

impl ProjectCacheEntry {
    /// The entry with the git summary added.
    pub fn with_git(self, git: Option<GitContext>) -> (r: Self)
        ensures
            r.version == self.version,
            r.updated_at_epoch_secs == self.updated_at_epoch_secs,
            r.cwd == self.cwd,
            r.root == self.root,
            r.project_name == self.project_name,
            r.project_kind == self.project_kind,
            r.markers == self.markers,
            match git {
                Some(g) => r.git matches Some(c) && git_cached(g, c),
                None => r.git is None,
            },
    {
        let git_entry = match git {
            Some(g) => {
                let branch = match &g.branch {
                    Some(b) => Some(copy_str(b)),
                    None => None,
                };
                Some(GitCacheEntry { branch, dirty: g.dirty })
            },
            None => None,
        };
        ProjectCacheEntry { git: git_entry, ..self }
    }
}

// ---------------------------------------------------------------------------
// Host probes
// ---------------------------------------------------------------------------
/// What a command printed, trimmed, when it succeeded and printed anything.
pub open spec fn command_text(success: bool, stdout: Seq<char>) -> Option<Seq<char>> {
    if success && trim(stdout).len() > 0 {
        Some(trim(stdout))
    } else {
        None
    }
}

/// What a command printed, trimmed, when it succeeded and printed anything.
pub fn command_stdout(success: bool, stdout: &str) -> (r: Option<String>)
    ensures
        opt_view(r) == command_text(success, stdout@),
{
    if !success {
        return None;
    }
    let v = to_chars(stdout);
    let (a, b) = trim_bounds(&v, 0, v.len());
    assert(v@.subrange(0, v@.len() as int) =~= v@);
    if a == b {
        None
    } else {
        Some(substring(&v, a, b))
    }
}

/// The hostname from `$HOSTNAME`, trimmed, when it is not blank.
pub fn hostname_from_env(value: Option<String>) -> (r: Option<String>)
    ensures
        match value {
            Some(v) => opt_view(r) == (if trim(v@).len() > 0 {
                Some(trim(v@))
            } else {
                None::<Seq<char>>
            }),
            None => r is None,
        },
{
    match value {
        Some(v) => command_stdout(true, &v),
        None => None,
    }
}

/// `s` contains the character `c`.
pub open spec fn has_char(s: Seq<char>, c: char) -> bool {
    exists|i: int| 0 <= i < s.len() && s[i] == c
}

/// The first word that contains `%`.
pub open spec fn first_percent_word(ws: Seq<Seq<char>>) -> Option<Seq<char>>
    decreases ws.len(),
{
    if ws.len() == 0 {
        None
    } else if has_char(ws[0], '%') {
        Some(ws[0])
    } else {
        first_percent_word(ws.drop_first())
    }
}

/// `s` without trailing `%` and `;` characters.
pub open spec fn trim_percent_end(s: Seq<char>) -> Seq<char>
    decreases s.len(),
{
    if s.len() > 0 && (s.last() == '%' || s.last() == ';') {
        trim_percent_end(s.drop_last())
    } else {
        s
    }
}

/// The battery percentage in the output of `pmset -g batt`: the first
/// whitespace-separated word holding `%`, without its trailing `%`/`;`,
/// read as a `u8`.
pub open spec fn battery_percent(output: Seq<char>) -> Option<nat> {
    match first_percent_word(split(output, Sep::Whitespace)) {
        Some(w) => parse_bounded(trim_percent_end(w), 255),
        None => None,
    }
}

/// Reads the battery percentage from `pmset -g batt` output.
pub fn parse_battery_percent(output: &str) -> (r: Option<u8>)
    ensures
        match r {
            Some(p) => battery_percent(output@) == Some(p as nat),
            None => battery_percent(output@) is None,
        },
{
    let v = to_chars(output);
    assert(v@.subrange(0, v@.len() as int) =~= v@);
    let words = split_ranges(&v, 0, v.len(), &Sep::Whitespace);
    let ghost ws = split(v@, Sep::Whitespace);
    assert(ws.subrange(0, ws.len() as int) =~= ws);
    let mut i: usize = 0;
    while i < words.len()
        invariant
            0 <= i <= words@.len(),
            words@.len() == ws.len(),
            ws == split(v@, Sep::Whitespace),
            v@ == output@,
            forall|q: int|
                0 <= q < words@.len() ==> (#[trigger] words@[q]).0 <= words@[q].1 <= v@.len()
                    && v@.subrange(words@[q].0 as int, words@[q].1 as int) == ws[q],
            first_percent_word(ws) == first_percent_word(ws.subrange(i as int, ws.len() as int)),
        decreases words@.len() - i,
    {
        let (a, b) = words[i];
        let ghost w = v@.subrange(a as int, b as int);
        assert(ws.subrange(i as int, ws.len() as int).drop_first() =~= ws.subrange(
            i + 1,
            ws.len() as int,
        ));
        let mut k = a;
        let mut found = false;
        while k < b
            invariant
                a <= k <= b <= v@.len(),
                w == v@.subrange(a as int, b as int),
                !found ==> forall|t: int| 0 <= t < k - a ==> w[t] != '%',
                found ==> has_char(w, '%'),
            decreases b - k,
        {
            if v[k] == '%' {
                assert(w[k - a] == '%');
                found = true;
            }
            k = k + 1;
        }
        if found {
            let mut e = b;
            while e > a && (v[e - 1] == '%' || v[e - 1] == ';')
                invariant
                    a <= e <= b <= v@.len(),
                    trim_percent_end(w) == trim_percent_end(v@.subrange(a as int, e as int)),
                decreases e - a,
            {
                assert(v@.subrange(a as int, e as int).drop_last() =~= v@.subrange(
                    a as int,
                    e - 1,
                ));
                e = e - 1;
            }
            assert(w =~= v@.subrange(a as int, b as int));
            return match parse_uint(&v, a, e, 255) {
                Some(p) => Some(p as u8),
                None => None,
            };
        }
        i = i + 1;
    }
    None
}

/// The total memory size printed by `sysctl -n hw.memsize`.
pub open spec fn memory_total(output: Seq<char>) -> Option<nat> {
    parse_bounded(trim(output), u64::MAX as nat)
}

/// Reads the total memory size from `sysctl -n hw.memsize` output.
pub fn parse_memory_total(output: &str) -> (r: Option<u64>)
    ensures
        match r {
            Some(t) => memory_total(output@) == Some(t as nat),
            None => memory_total(output@) is None,
        },
{
    let v = to_chars(output);
    let (a, b) = trim_bounds(&v, 0, v.len());
    assert(v@.subrange(0, v@.len() as int) =~= v@);
    parse_uint(&v, a, b, u64::MAX)
}

/// The page size in the first line of `vm_stat` output, such as
/// `Mach Virtual Memory Statistics: (page size of 16384 bytes)`: the text
/// between the first `page size of ` and the next ` bytes`, trimmed.
pub open spec fn vm_stat_page_size(line: Seq<char>) -> Option<nat> {
    match find(line, "page size of "@) {
        Some(i) => {
            let start = i + "page size of "@.len();
            match find_from(line, " bytes"@, start) {
                Some(end) => parse_bounded(trim(line.subrange(start, end)), u64::MAX as nat),
                None => None,
            }
        },
        None => None,
    }
}

/// Reads the page size from the first line of `vm_stat` output.
pub fn parse_vm_stat_page_size(line: &str) -> (r: Option<u64>)
    ensures
        match r {
            Some(p) => vm_stat_page_size(line@) == Some(p as nat),
            None => vm_stat_page_size(line@) is None,
        },
{
    let v = to_chars(line);
    let lead = to_chars("page size of ");
    let tail = to_chars(" bytes");
    let n = v.len();
    let i = match find_in(&v, 0, &lead) {
        Some(i) => i,
        None => return None,
    };
    assert(i + lead@.len() <= n);
    let start = i + lead.len();
    let end = match find_in(&v, start, &tail) {
        Some(e) => e,
        None => return None,
    };
    let (a, b) = trim_bounds(&v, start, end);
    parse_uint(&v, a, b, u64::MAX)
}

/// `s` without trailing dots.
pub open spec fn trim_dots_end(s: Seq<char>) -> Seq<char>
    decreases s.len(),
{
    if s.len() > 0 && s.last() == '.' {
        trim_dots_end(s.drop_last())
    } else {
        s
    }
}

/// The counter on a `vm_stat` line such as `Pages free:  1234.`: the line
/// must start with `label`, then (after whitespace) a `:`; the rest,
/// trimmed and without trailing dots, is the number.
pub open spec fn vm_stat_counter(line: Seq<char>, label: Seq<char>) -> Option<nat> {
    if starts_with(line, label) {
        let v = trim(line.subrange(label.len() as int, line.len() as int));
        if starts_with(v, ":"@) {
            parse_bounded(
                trim_dots_end(trim(v.subrange(1, v.len() as int))),
                u64::MAX as nat,
            )
        } else {
            None
        }
    } else {
        None
    }
}

fn vm_stat_counter_in(v: &Vec<char>, lo: usize, hi: usize, label: &Vec<char>) -> (r: Option<u64>)
    requires
        lo <= hi <= v@.len(),
    ensures
        match r {
            Some(n) => vm_stat_counter(v@.subrange(lo as int, hi as int), label@) == Some(n as nat),
            None => vm_stat_counter(v@.subrange(lo as int, hi as int), label@) is None,
        },
{
    let ghost line = v@.subrange(lo as int, hi as int);
    if hi - lo < label.len() || !matches_at(v, lo, label) {
        proof {
            if starts_with(line, label@) {
                assert(v@.subrange(lo as int, v@.len() as int).subrange(0, label@.len() as int)
                    =~= line.subrange(0, label@.len() as int));
            }
        }
        return None;
    }
    assert(v@.subrange(lo as int, v@.len() as int).subrange(0, label@.len() as int)
        =~= line.subrange(0, label@.len() as int));
    let (a, b) = trim_bounds(v, lo + label.len(), hi);
    assert(v@.subrange(lo + label@.len(), hi as int) =~= line.subrange(
        label@.len() as int,
        line.len() as int,
    ));
    let ghost t = v@.subrange(a as int, b as int);
    if a == b || v[a] != ':' {
        assert(!starts_with(t, ":"@)) by {
            reveal_strlit(":");
            if t.len() >= 1 {
                assert(t.subrange(0, 1)[0] == t[0]);
            }
        }
        return None;
    }
    assert(starts_with(t, ":"@)) by {
        reveal_strlit(":");
        assert(t.subrange(0, 1) =~= ":"@);
    }
    let (c, d) = trim_bounds(v, a + 1, b);
    assert(v@.subrange(a + 1, b as int) =~= t.subrange(1, t.len() as int));
    let mut e = d;
    while e > c && v[e - 1] == '.'
        invariant
            c <= e <= d <= v@.len(),
            trim_dots_end(v@.subrange(c as int, d as int)) == trim_dots_end(
                v@.subrange(c as int, e as int),
            ),
        decreases e - c,
    {
        assert(v@.subrange(c as int, e as int).drop_last() =~= v@.subrange(c as int, e - 1));
        e = e - 1;
    }
    parse_uint(v, c, e, u64::MAX)
}

/// Reads the counter labelled `label` from one `vm_stat` line.
pub fn parse_vm_stat_counter(line: &str, label: &str) -> (r: Option<u64>)
    ensures
        match r {
            Some(n) => vm_stat_counter(line@, label@) == Some(n as nat),
            None => vm_stat_counter(line@, label@) is None,
        },
{
    let v = to_chars(line);
    let l = to_chars(label);
    assert(v@.subrange(0, v@.len() as int) =~= v@);
    vm_stat_counter_in(&v, 0, v.len(), &l)
}

/// The free and speculative page counts after reading `ls` in order: each
/// line sets the count it carries, later lines winning.
pub open spec fn vm_stat_pages_after(ls: Seq<Seq<char>>) -> (nat, nat)
    decreases ls.len(),
{
    if ls.len() == 0 {
        (0, 0)
    } else {
        let (free, speculative) = vm_stat_pages_after(ls.drop_last());
        match vm_stat_counter(ls.last(), "Pages free"@) {
            Some(v) => (v, speculative),
            None => match vm_stat_counter(ls.last(), "Pages speculative"@) {
                Some(v) => (free, v),
                None => (free, speculative),
            },
        }
    }
}

/// What `vm_stat` reports: the page size and the free and speculative page
/// counts.
#[derive(Debug, Clone, Copy)]
pub struct VmStatPages {
    pub page_size: u64,
    pub free: u64,
    pub speculative: u64,
}

/// The page size from the first line and the page counts from the rest.
pub open spec fn vm_stat(output: Seq<char>) -> Option<(nat, nat, nat)> {
    let ls = lines(output);
    if ls.len() == 0 {
        None
    } else {
        match vm_stat_page_size(ls[0]) {
            Some(p) => {
                let (f, s) = vm_stat_pages_after(ls.subrange(1, ls.len() as int));
                Some((p, f, s))
            },
            None => None,
        }
    }
}

proof fn lemma_vm_stat_pages_bounded(ls: Seq<Seq<char>>)
    ensures
        vm_stat_pages_after(ls).0 <= u64::MAX,
        vm_stat_pages_after(ls).1 <= u64::MAX,
    decreases ls.len(),
{
    if ls.len() > 0 {
        lemma_vm_stat_pages_bounded(ls.drop_last());
    }
}

/// Reads the page size and page counts from `vm_stat` output.
pub fn vm_stat_pages(output: &str) -> (r: Option<VmStatPages>)
    ensures
        match r {
            Some(p) => vm_stat(output@) == Some(
                (p.page_size as nat, p.free as nat, p.speculative as nat),
            ),
            None => vm_stat(output@) is None,
        },
{
    let v = to_chars(output);
    let ranges = line_ranges(&v);
    let ghost ls = lines(v@);
    if ranges.len() == 0 {
        return None;
    }
    let (a0, b0) = ranges[0];
    let first = substring(&v, a0, b0);
    let page_size = match parse_vm_stat_page_size(&first) {
        Some(p) => p,
        None => return None,
    };
    let free_label = to_chars("Pages free");
    let spec_label = to_chars("Pages speculative");
    let mut free: u64 = 0;
    let mut speculative: u64 = 0;
    let n = ranges.len();
    let mut i: usize = 1;
    assert(ls.subrange(1, 1) =~= Seq::<Seq<char>>::empty());
    while i < n
        invariant
            n == ranges@.len(),
            n == ls.len(),
            ls == lines(v@),
            v@ == output@,
            free_label@ == "Pages free"@,
            spec_label@ == "Pages speculative"@,
            forall|q: int|
                0 <= q < n ==> (#[trigger] ranges@[q]).0 <= ranges@[q].1 <= v@.len()
                    && v@.subrange(ranges@[q].0 as int, ranges@[q].1 as int) == ls[q],
            1 <= i <= n,
            (free as nat, speculative as nat) == vm_stat_pages_after(ls.subrange(1, i as int)),
        decreases n - i,
    {
        let (a, b) = ranges[i];
        assert(ls.subrange(1, i + 1).drop_last() =~= ls.subrange(1, i as int));
        assert(ls.subrange(1, i + 1).last() == ls[i as int]);
        match vm_stat_counter_in(&v, a, b, &free_label) {
            Some(value) => {
                free = value;
            },
            None => match vm_stat_counter_in(&v, a, b, &spec_label) {
                Some(value) => {
                    speculative = value;
                },
                None => {},
            },
        }
        i = i + 1;
    }
    Some(VmStatPages { page_size, free, speculative })
}

/// `a * b`, or `u64::MAX` when that overflows.
pub open spec fn saturating_mul(a: nat, b: nat) -> nat {
    if a * b > u64::MAX {
        u64::MAX as nat
    } else {
        a * b
    }
}

/// Used memory: the total less the free and speculative pages times the page
/// size (the page sum wraps as in a release build; the product and the
/// difference saturate).
pub open spec fn used_memory(total: u64, pages: VmStatPages) -> nat {
    let sum = ((pages.free as nat + pages.speculative as nat) % 0x1_0000_0000_0000_0000) as nat;
    let free_bytes = saturating_mul(sum, pages.page_size as nat);
    if total >= free_bytes {
        (total - free_bytes) as nat
    } else {
        0
    }
}

/// Used memory from the total and the `vm_stat` page counts.
pub fn used_memory_bytes(total: u64, pages: &VmStatPages) -> (r: u64)
    ensures
        r as nat == used_memory(total, *pages),
{
    let sum = pages.free.wrapping_add(pages.speculative);
    let free_bytes = match sum.checked_mul(pages.page_size) {
        Some(b) => b,
        None => u64::MAX,
    };
    total.saturating_sub(free_bytes)
}

/// What the host probes found.
#[derive(Debug, Clone)]
pub struct HostProbe {
    pub hostname: Option<String>,
    pub os: Option<String>,
    pub battery_percent: Option<u8>,
    pub memory_used_bytes: Option<u64>,
    pub memory_total_bytes: Option<u64>,
    pub time_label: Option<String>,
}

/// A host cache entry (version 1, stamped with the time `now`) for the
/// configured theme and the probe results.
pub fn build_host_cache_entry(config: &Config, probe: HostProbe, now: u64) -> (r: HostCacheEntry)
    ensures
        r.version == 1,
        r.updated_at_epoch_secs == now,
        r.theme@ == config.theme@,
        r.hostname == probe.hostname,
        r.os == probe.os,
        r.battery_percent == probe.battery_percent,
        r.memory_used_bytes == probe.memory_used_bytes,
        r.memory_total_bytes == probe.memory_total_bytes,
        r.time_label == probe.time_label,
{
    HostCacheEntry {
        version: 1,
        updated_at_epoch_secs: now,
        theme: copy_str(&config.theme),
        hostname: probe.hostname,
        os: probe.os,
        battery_percent: probe.battery_percent,
        memory_used_bytes: probe.memory_used_bytes,
        memory_total_bytes: probe.memory_total_bytes,
        time_label: probe.time_label,
    }
}

// ---------------------------------------------------------------------------
// Laws of freshness and of the cache choice
// ---------------------------------------------------------------------------
/// Under a lifetime of zero seconds no entry is ever fresh.
pub proof fn lemma_zero_ttl_never_fresh(now: u64, updated: u64)
    ensures
        !fresh_at(now, updated, 0),
{
}

/// Freshness respects the lifetime: an entry written `now - updated` seconds
/// ago is fresh exactly when the lifetime is not zero and covers that age.
pub proof fn lemma_fresh_by_age(now: u64, updated: u64, ttl: u64)
    requires
        updated <= now,
    ensures
        fresh_at(now, updated, ttl) <==> (ttl > 0 && now - updated <= ttl),
{
}

/// An entry written at the current time is fresh exactly when the lifetime
/// is not zero.
pub proof fn lemma_fresh_when_written(now: u64, ttl: u64)
    ensures
        fresh_at(now, now, ttl) <==> ttl > 0,
{
}

/// An entry fresh under a lifetime stays fresh under any longer lifetime.
pub proof fn lemma_fresh_under_longer_ttl(now: u64, updated: u64, ttl: u64, longer: u64)
    requires
        fresh_at(now, updated, ttl),
        ttl <= longer,
    ensures
        fresh_at(now, updated, longer),
{
}

/// An entry fresh at some time was fresh at every earlier time.
pub proof fn lemma_fresh_at_earlier_time(earlier: u64, now: u64, updated: u64, ttl: u64)
    requires
        fresh_at(now, updated, ttl),
        earlier <= now,
    ensures
        fresh_at(earlier, updated, ttl),
{
}

/// A kept project entry is the cached entry itself, and it is kept exactly
/// when it is fresh; a missing entry is always rebuilt.
pub proof fn lemma_project_choice_keeps_fresh_entry(
    now: u64,
    existing: Option<ProjectCacheEntry>,
    config: Config,
    r: CacheChoice<ProjectCacheEntry>,
)
    requires
        project_choice(now, existing, config, r),
    ensures
        r is Use <==> (existing matches Some(e) && fresh_at(
            now,
            e.updated_at_epoch_secs,
            config.update.project_ttl_seconds,
        )),
        r matches CacheChoice::Use(e) ==> existing == Some(e),
{
}

/// Project roots whose keys agree share one cache file; in particular a
/// root always maps to the same file.
pub proof fn lemma_project_file_by_key(
    projects_dir: Seq<char>,
    a: Seq<char>,
    ca: Option<Seq<char>>,
    b: Seq<char>,
    cb: Option<Seq<char>>,
)
    requires
        project_key(keyed_root(a, ca)) == project_key(keyed_root(b, cb)),
    ensures
        project_file(projects_dir, a, ca) == project_file(projects_dir, b, cb),
{
}

/// Git data is asked for exactly where the project has git: a build that
/// is ready at once carries no `.git` marker and is not a git project, so an
/// entry whose markers include `.git` (whatever the project's kind) waits
/// for git detection, at the entry's own root; and a git project always
/// does.
pub proof fn lemma_git_marker_needs_git(cwd: Seq<char>, now: u64, r: ProjectBuild)
    requires
        project_build_started(cwd, now, r),
    ensures
        r matches ProjectBuild::Ready(e) ==> e.project_kind@ != "git"@ && forall|i: int|
            0 <= i < e.markers@.len() ==> (#[trigger] e.markers@[i]).name@ != ".git"@,
        r matches ProjectBuild::NeedGit { entry, repo_root } ==> repo_root@ == entry.root@,
        r matches ProjectBuild::NeedGit { entry, repo_root } ==> entry.git is None,
{
    reveal_strlit(".git");
    reveal_strlit("Cargo.toml");
    reveal_strlit("package.json");
    reveal_strlit("pyproject.toml");
    reveal_strlit("go.mod");
    reveal_strlit("Gemfile");
    reveal_strlit("flake.nix");
    reveal_strlit(".terraform");
    reveal_strlit("git");
    reveal_strlit("plain");
    reveal_strlit("rust");
    reveal_strlit("node");
    reveal_strlit("python");
    reveal_strlit("go");
    reveal_strlit("ruby");
    reveal_strlit("nix");
    reveal_strlit("terraform");
    if let ProjectBuild::Ready(e) = r {
        let info = choose|info: ProjectInfo|
            #[trigger] detects(cwd, info) && detected(cwd, None, true, info) && entry_for(
                cwd,
                info,
                e,
            ) && !wants_git(info);
        assert(info.kind != ProjectKind::Git);
        assert(kind_name(info.kind).len() != 3 || kind_name(info.kind)[0] != 'g');
        assert(kind_name(info.kind) != "git"@);
        let idx = choose|idx: Seq<int>| #[trigger] selects(info.markers@, idx);
        assert forall|i: int| 0 <= i < e.markers@.len() implies (#[trigger] e.markers@[i]).name@
            != ".git"@ by {
            assert(marker_cached(info.markers@[i], e.markers@[i]));
            assert(0 <= idx[i] < marker_count());
            assert(info.markers@[i].name@ == marker_name(idx[i]));
            assert(info.markers@[i].kind == marker_kind(idx[i]));
            if idx[i] == 0 {
                assert(info.markers@[i].kind == ProjectKind::Git);
                assert(info.spec_has_git_marker());
                assert(false);
            } else {
                assert(marker_name(idx[i]).len() != 4);
                assert(e.markers@[i].name@.len() != ".git"@.len());
            }
        }
    }
}

} // verus!
