//! Project root detection: walk upward from a working directory looking for
//! a small set of marker files.
use vstd::prelude::*;
use crate::paths::{
    ancestor, ask_exists, ask_is_dir, exists_answer, is_dir_answer, join, join_path, path_eq,
    path_file_name, path_parent, spec_file_name, spec_parent, spec_path_eq,
};
use crate::text::{copy_str, opt_view, to_chars, trim, trim_bounds};

verus! {

/// What kind of project a directory holds, judged by its markers.
#[derive(Debug, Clone, Copy, PartialEq, Eq, Structural)]
pub enum ProjectKind {
    Plain,
    Git,
    Rust,
    Node,
    Python,
    Go,
    Ruby,
    Nix,
    Terraform,
}

/// A marker file found in a project root.
#[derive(Debug, Clone)]
pub struct ProjectMarkerMatch {
    pub name: String,
    pub kind: ProjectKind,
}

/// The project that contains a working directory.
#[derive(Debug, Clone)]
pub struct ProjectInfo {
    pub cwd: String,
    pub root: String,
    pub name: String,
    pub kind: ProjectKind,
    pub markers: Vec<ProjectMarkerMatch>,
}

/// How far to walk and whether to fall back to a plain project.
#[derive(Debug, Clone)]
pub struct DetectOptions {
    pub stop_at: Option<String>,
    pub include_plain_fallback: bool,
}

impl Default for DetectOptions {
    /// No boundary, with the plain fallback.
    fn default() -> (r: Self)
        ensures
            r.stop_at is None,
            r.include_plain_fallback,
    {
        DetectOptions { stop_at: None, include_plain_fallback: true }
    }
}

/// A marker file name and the kind of project it signals.
struct ProjectMarker {
    name: String,
    kind: ProjectKind,
}

impl ProjectMarker {
    fn new(name: &str, kind: ProjectKind) -> (r: Self)
        ensures
            r.name@ == name@,
            r.kind == kind,
    {
        ProjectMarker { name: copy_str(name), kind }
    }
}

/// The number of known markers.
pub open spec fn marker_count() -> int {
    8
}

/// The name of the `i`-th marker, in the order they are checked.
pub open spec fn marker_name(i: int) -> Seq<char> {
    if i == 0 {
        ".git"@
    } else if i == 1 {
        "Cargo.toml"@
    } else if i == 2 {
        "package.json"@
    } else if i == 3 {
        "pyproject.toml"@
    } else if i == 4 {
        "go.mod"@
    } else if i == 5 {
        "Gemfile"@
    } else if i == 6 {
        "flake.nix"@
    } else {
        ".terraform"@
    }
}

/// The kind signalled by the `i`-th marker.
pub open spec fn marker_kind(i: int) -> ProjectKind {
    if i == 0 {
        ProjectKind::Git
    } else if i == 1 {
        ProjectKind::Rust
    } else if i == 2 {
        ProjectKind::Node
    } else if i == 3 {
        ProjectKind::Python
    } else if i == 4 {
        ProjectKind::Go
    } else if i == 5 {
        ProjectKind::Ruby
    } else if i == 6 {
        ProjectKind::Nix
    } else {
        ProjectKind::Terraform
    }
}

fn project_markers() -> (r: Vec<ProjectMarker>)
    ensures
        r@.len() == marker_count(),
        forall|i: int|
            0 <= i < marker_count() ==> (#[trigger] r@[i]).name@ == marker_name(i) && r@[i].kind
                == marker_kind(i),
{
    let mut r = Vec::new();
    r.push(ProjectMarker::new(".git", ProjectKind::Git));
    r.push(ProjectMarker::new("Cargo.toml", ProjectKind::Rust));
    r.push(ProjectMarker::new("package.json", ProjectKind::Node));
    r.push(ProjectMarker::new("pyproject.toml", ProjectKind::Python));
    r.push(ProjectMarker::new("go.mod", ProjectKind::Go));
    r.push(ProjectMarker::new("Gemfile", ProjectKind::Ruby));
    r.push(ProjectMarker::new("flake.nix", ProjectKind::Nix));
    r.push(ProjectMarker::new(".terraform", ProjectKind::Terraform));
    r
}

/// `ms` lists known markers, each at most once, in the order they are checked.
pub open spec fn is_marker_selection(ms: Seq<ProjectMarkerMatch>) -> bool {
    exists|idx: Seq<int>| #[trigger] selects(ms, idx)
}

/// `idx` gives, for each entry of `ms`, the marker it is.
pub open spec fn selects(ms: Seq<ProjectMarkerMatch>, idx: Seq<int>) -> bool {
    &&& idx.len() == ms.len()
    &&& forall|j: int|
        0 <= j < idx.len() ==> 0 <= #[trigger] idx[j] < marker_count() && ms[j].name@
            == marker_name(idx[j]) && ms[j].kind == marker_kind(idx[j])
    &&& forall|a: int, b: int| 0 <= a < b < idx.len() ==> idx[a] < idx[b]
}

/// The indices `i < n` whose answer `found[i]` is yes, in order.
pub open spec fn found_indices(found: Seq<bool>, n: int) -> Seq<int>
    decreases n,
{
    if n <= 0 {
        seq![]
    } else if found[n - 1] {
        found_indices(found, n - 1).push(n - 1)
    } else {
        found_indices(found, n - 1)
    }
}

proof fn lemma_found_indices_below(found: Seq<bool>, n: int)
    requires
        0 <= n,
    ensures
        forall|j: int|
            0 <= j < found_indices(found, n).len() ==> 0 <= #[trigger] found_indices(found, n)[j]
                < n,
        forall|a: int, b: int|
            0 <= a < b < found_indices(found, n).len() ==> found_indices(found, n)[a]
                < found_indices(found, n)[b],
    decreases n,
{
    if n > 0 {
        lemma_found_indices_below(found, n - 1);
        let prev = found_indices(found, n - 1);
        let cur = found_indices(found, n);
        assert forall|j: int| 0 <= j < prev.len() implies cur[j] == prev[j] by {}
        if found[n - 1] {
            assert(cur == prev.push(n - 1));
            assert(cur[prev.len() as int] == n - 1);
        } else {
            assert(cur == prev);
        }
    }
}

/// The markers whose files were found, given one answer per known marker
/// ("does `<dir>/<marker>` exist?"), in the order they are checked.
pub fn markers_for(found: &Vec<bool>) -> (r: Vec<ProjectMarkerMatch>)
    requires
        found@.len() == marker_count(),
    ensures
        selects(r@, found_indices(found@, marker_count())),
{
    let markers = project_markers();
    let mut r: Vec<ProjectMarkerMatch> = Vec::new();
    let mut i: usize = 0;
    while i < markers.len()
        invariant
            markers@.len() == marker_count(),
            found@.len() == marker_count(),
            forall|q: int|
                0 <= q < marker_count() ==> (#[trigger] markers@[q]).name@ == marker_name(q)
                    && markers@[q].kind == marker_kind(q),
            0 <= i <= markers@.len(),
            selects(r@, found_indices(found@, i as int)),
        decreases markers@.len() - i,
    {
        proof {
            lemma_found_indices_below(found@, i as int);
            lemma_found_indices_below(found@, i + 1);
        }
        if found[i] {
            r.push(ProjectMarkerMatch { name: copy_str(&markers[i].name), kind: markers[i].kind });
        }
        i = i + 1;
    }
    r
}

/// Each answer `found[i]` is what `Path::exists` said of
/// `<dir>/<marker i>`.
pub open spec fn marker_answers(dir: Seq<char>, found: Seq<bool>) -> bool {
    forall|i: int|
        0 <= i < marker_count() && i < found.len() ==> exists_answer(
            join(dir, marker_name(i)),
            #[trigger] found[i],
        )
}

/// The markers present in `dir`, in the order they are checked: the
/// existence of `<dir>/<marker>` is asked of the filesystem for each known
/// marker, and `markers_for` decides from the answers.
pub fn collect_marker_matches(dir: &str) -> (r: Vec<ProjectMarkerMatch>)
    ensures
        exists|found: Seq<bool>|
            found.len() == marker_count() && marker_answers(dir@, found) && #[trigger] selects(
                r@,
                found_indices(found, marker_count()),
            ),
        is_marker_selection(r@),
{
    let markers = project_markers();
    let mut found: Vec<bool> = Vec::new();
    let mut i: usize = 0;
    while i < markers.len()
        invariant
            markers@.len() == marker_count(),
            forall|q: int|
                0 <= q < marker_count() ==> (#[trigger] markers@[q]).name@ == marker_name(q),
            0 <= i <= markers@.len(),
            found@.len() == i,
            marker_answers(dir@, found@),
        decreases markers@.len() - i,
    {
        let candidate = join_path(dir, &markers[i].name);
        let yes = ask_exists(&candidate);
        let ghost before = found@;
        found.push(yes);
        proof {
            assert forall|q: int| 0 <= q < marker_count() && q < found@.len() implies exists_answer(
                join(dir@, marker_name(q)),
                #[trigger] found@[q],
            ) by {
                if q < before.len() {
                    assert(found@[q] == before[q]);
                    assert(exists_answer(join(dir@, marker_name(q)), before[q]));
                } else {
                    assert(markers@[q].name@ == marker_name(q));
                }
            }
        }
        i = i + 1;
    }
    let r = markers_for(&found);
    assert(selects(r@, found_indices(found@, marker_count())));
    r
}

/// The kind of the first marker that is not `.git`, if any.
pub open spec fn first_non_git(ms: Seq<ProjectMarkerMatch>) -> Option<ProjectKind>
    decreases ms.len(),
{
    if ms.len() == 0 {
        None
    } else if ms[0].kind != ProjectKind::Git {
        Some(ms[0].kind)
    } else {
        first_non_git(ms.drop_first())
    }
}

/// Language markers win over `.git`; `.git` alone makes a git project;
/// no markers make a plain one.
pub open spec fn classify(ms: Seq<ProjectMarkerMatch>) -> ProjectKind {
    match first_non_git(ms) {
        Some(k) => k,
        None => if exists|i: int| 0 <= i < ms.len() && #[trigger] ms[i].kind == ProjectKind::Git {
            ProjectKind::Git
        } else {
            ProjectKind::Plain
        },
    }
}

/// The project kind that a list of markers signals.
pub fn classify_kind(matches: &Vec<ProjectMarkerMatch>) -> (r: ProjectKind)
    ensures
        r == classify(matches@),
{
    let mut i: usize = 0;
    assert(matches@.subrange(0, matches@.len() as int) =~= matches@);
    while i < matches.len()
        invariant
            0 <= i <= matches@.len(),
            first_non_git(matches@) == first_non_git(
                matches@.subrange(i as int, matches@.len() as int),
            ),
            forall|j: int| 0 <= j < i ==> (#[trigger] matches@[j]).kind == ProjectKind::Git,
        decreases matches@.len() - i,
    {
        assert(matches@.subrange(i as int, matches@.len() as int).drop_first() =~= matches@.subrange(
            i + 1,
            matches@.len() as int,
        ));
        if matches[i].kind != ProjectKind::Git {
            return matches[i].kind;
        }
        i = i + 1;
    }
    if matches.len() > 0 {
        assert(matches@[0].kind == ProjectKind::Git);
        ProjectKind::Git
    } else {
        ProjectKind::Plain
    }
}

/// A project's display name: the last path component, unless it is missing
/// or blank, in which case the whole path.
pub open spec fn project_name(root: Seq<char>) -> Seq<char> {
    match spec_file_name(root) {
        Some(n) => if trim(n).len() > 0 {
            n
        } else {
            root
        },
        None => root,
    }
}

/// The display name of the project rooted at `root`.
pub fn project_name_for_root(root: &str) -> (r: String)
    ensures
        r@ == project_name(root@),
{
    match path_file_name(root) {
        Some(n) => {
            let v = to_chars(&n);
            let (a, b) = trim_bounds(&v, 0, v.len());
            assert(v@.subrange(0, v@.len() as int) =~= v@);
            if a < b {
                n
            } else {
                copy_str(root)
            }
        },
        None => copy_str(root),
    }
}

/// The directory a walk starts from, given whether `cwd` is a directory:
/// `cwd` itself when it is, otherwise its parent (none without one).
pub open spec fn start_dir(cwd: Seq<char>, is_dir: bool) -> Option<Seq<char>> {
    if is_dir {
        Some(cwd)
    } else {
        spec_parent(cwd)
    }
}

/// The start directory of a walk, given whether `cwd` is a directory.
pub fn start_dir_for(cwd: &str, is_dir: bool) -> (r: Option<String>)
    ensures
        opt_view(r) == start_dir(cwd@, is_dir),
{
    if is_dir {
        Some(copy_str(cwd))
    } else {
        path_parent(cwd)
    }
}

/// The directory a walk starts from: `cwd` itself when it is a directory
/// (asked of the filesystem), otherwise its parent.
pub fn normalize_start_dir(cwd: &str) -> (r: Option<String>)
    ensures
        exists|is_dir: bool|
            opt_view(r) == #[trigger] start_dir(cwd@, is_dir) && is_dir_answer(cwd@, is_dir),
        r matches Some(s) ==> s@ == cwd@ || spec_parent(cwd@) == Some(s@),
        r is None ==> spec_parent(cwd@) is None,
{
    let is_dir = ask_is_dir(cwd);
    let r = start_dir_for(cwd, is_dir);
    assert(opt_view(r) == start_dir(cwd@, is_dir));
    r
}

/// `current` is the boundary the walk must not pass.
pub open spec fn stops_at(current: Seq<char>, stop_at: Option<Seq<char>>) -> bool {
    match stop_at {
        Some(b) => spec_path_eq(current, b),
        None => false,
    }
}

/// Tests whether the walk stops at `current`.
pub fn should_stop(current: &str, stop_at: &Option<String>) -> (r: bool)
    ensures
        r == stops_at(current@, opt_view(*stop_at)),
{
    match stop_at {
        Some(boundary) => path_eq(current, boundary),
        None => false,
    }
}

/// The walk from `start` passed its first `k` directories without reaching
/// the boundary.
pub open spec fn walked_within(start: Seq<char>, k: nat, stop_at: Option<Seq<char>>) -> bool {
    forall|j: nat|
        j < k ==> (#[trigger] ancestor(start, j) matches Some(a) && !stops_at(a, stop_at))
}

/// What `detect_with_options` promises of a project it reports.
pub open spec fn detected(cwd: Seq<char>, options_stop: Option<Seq<char>>, plain_ok: bool, info: ProjectInfo) -> bool {
    &&& (info.cwd@ == cwd || spec_parent(cwd) == Some(info.cwd@))
    &&& exists|k: nat|
        ancestor(info.cwd@, k) == Some(info.root@) && #[trigger] walked_within(
            info.cwd@,
            k,
            options_stop,
        )
    &&& info.name@ == project_name(info.root@)
    &&& is_marker_selection(info.markers@)
    &&& info.kind == classify(info.markers@)
    &&& (info.markers@.len() == 0 ==> info.root@ == info.cwd@ && plain_ok)
}

/// The walk ends at `a`: it is the boundary, or it has no parent, or its
/// parent is itself.
pub open spec fn walk_ends_at(a: Seq<char>, stop_at: Option<Seq<char>>) -> bool {
    ||| stops_at(a, stop_at)
    ||| spec_parent(a) is None
    ||| (spec_parent(a) matches Some(p) && spec_path_eq(p, a))
}

/// A walk upward from `start` that found no marker went on until it ended:
/// some ancestor, reached without passing the boundary, is where it ends.
pub open spec fn walked_to_end(start: Seq<char>, stop_at: Option<Seq<char>>) -> bool {
    exists|k: nat|
        #[trigger] walked_within(start, k, stop_at) && (ancestor(start, k) matches Some(a)
            && walk_ends_at(a, stop_at))
}

/// The markers found in one directory, from its answers.
pub open spec fn markers_found(marks: Seq<bool>) -> Seq<int> {
    found_indices(marks, marker_count())
}

/// Step `j` of a walk: directory `j` had no marker and is not the
/// boundary, and the walk went on to its parent, which differs from it.
pub open spec fn walk_step(dirs: Seq<Seq<char>>, marks: Seq<Seq<bool>>, stop_at: Option<Seq<char>>, j: int) -> bool {
    &&& markers_found(marks[j]).len() == 0
    &&& !stops_at(dirs[j], stop_at)
    &&& spec_parent(dirs[j]) == Some(dirs[j + 1])
    &&& !spec_path_eq(dirs[j + 1], dirs[j])
}

/// `dirs` are the directories a walk from `start` looked at, in order, and
/// `marks` the answers `Path::exists` gave for `<dir>/<marker>`, for each of
/// them (`marker_answers`):
/// each directory before the last had no marker, was not the boundary, and
/// led to its parent; the walk stopped at the last one because it had a
/// marker or because the walk ends there.
pub open spec fn project_walk(start: Seq<char>, stop_at: Option<Seq<char>>, dirs: Seq<Seq<char>>, marks: Seq<Seq<bool>>) -> bool {
    &&& dirs.len() == marks.len()
    &&& dirs.len() >= 1
    &&& dirs[0] == start
    &&& forall|j: int| 0 <= j < marks.len() ==> (#[trigger] marks[j]).len() == marker_count()
    &&& forall|j: int| 0 <= j < marks.len() ==> marker_answers(#[trigger] dirs[j], marks[j])
    &&& forall|j: int| 0 <= j < dirs.len() - 1 ==> #[trigger] walk_step(dirs, marks, stop_at, j)
    &&& markers_found(marks.last()).len() > 0 || walk_ends_at(dirs.last(), stop_at)
}

/// What a walk reports: the last directory, with exactly the markers found
/// there, when it had any; otherwise a plain project at the start when the
/// fallback is on, and nothing when it is off.
pub open spec fn walk_outcome(start: Seq<char>, dirs: Seq<Seq<char>>, marks: Seq<Seq<bool>>, plain_ok: bool, r: Option<ProjectInfo>) -> bool {
    let idx = markers_found(marks.last());
    if idx.len() > 0 {
        &&& r matches Some(info)
        &&& info.cwd@ == start
        &&& info.root@ == dirs.last()
        &&& selects(info.markers@, idx)
        &&& info.kind == classify(info.markers@)
        &&& info.name@ == project_name(dirs.last())
    } else if plain_ok {
        &&& r matches Some(info)
        &&& info.cwd@ == start
        &&& info.root@ == start
        &&& info.markers@.len() == 0
        &&& info.kind == ProjectKind::Plain
        &&& info.name@ == project_name(start)
    } else {
        r is None
    }
}

/// One run of detection from `cwd`, given whether `cwd` is a directory and
/// the directories and marker answers of the walk: no start directory gives
/// nothing; otherwise the walk decides.
pub open spec fn detection_run(
    cwd: Seq<char>,
    stop_at: Option<Seq<char>>,
    plain_ok: bool,
    is_dir: bool,
    dirs: Seq<Seq<char>>,
    marks: Seq<Seq<bool>>,
    r: Option<ProjectInfo>,
) -> bool {
    is_dir_answer(cwd, is_dir) && match start_dir(cwd, is_dir) {
        None => r is None,
        Some(s) => project_walk(s, stop_at, dirs, marks) && walk_outcome(s, dirs, marks, plain_ok, r),
    }
}

/// `info` is what detection from `cwd` with the default options reports for
/// some answers of the filesystem.
pub open spec fn detects(cwd: Seq<char>, info: ProjectInfo) -> bool {
    exists|is_dir: bool, dirs: Seq<Seq<char>>, marks: Seq<Seq<bool>>|
        #[trigger] detection_run(cwd, None, true, is_dir, dirs, marks, Some(info))
}

/// Walks upward from `cwd` (or its parent, when `cwd` is not a directory) to
/// the first directory holding a marker, stopping at the filesystem root or
/// at `options.stop_at`; without a marker, gives a plain project rooted at
/// the start directory when `options.include_plain_fallback` holds. The
/// filesystem answers whether `cwd` is a directory and which marker files
/// exist; whatever it answers, the result is the one `detection_run`
/// describes for those answers.
pub fn detect_with_options(cwd: &str, options: &DetectOptions) -> (r: Option<ProjectInfo>)
    ensures
        exists|is_dir: bool, dirs: Seq<Seq<char>>, marks: Seq<Seq<bool>>|
            #[trigger] detection_run(
                cwd@,
                opt_view(options.stop_at),
                options.include_plain_fallback,
                is_dir,
                dirs,
                marks,
                r,
            ),
        r matches Some(info) ==> detected(
            cwd@,
            opt_view(options.stop_at),
            options.include_plain_fallback,
            info,
        ),
        r matches Some(info) ==> (info.markers@.len() == 0 ==> walked_to_end(
            info.cwd@,
            opt_view(options.stop_at),
        )),
        r is None ==> spec_parent(cwd@) is None || (!options.include_plain_fallback && exists|
            s: Seq<char>,
        |
            (s == cwd@ || spec_parent(cwd@) == Some(s)) && #[trigger] walked_to_end(
                s,
                opt_view(options.stop_at),
            )),
        r is None ==> !options.include_plain_fallback || spec_parent(cwd@) is None,
{
    let start_opt = normalize_start_dir(cwd);
    let ghost is_dir = choose|d: bool|
        opt_view(start_opt) == #[trigger] start_dir(cwd@, d) && is_dir_answer(cwd@, d);
    let ghost stop = opt_view(options.stop_at);
    let ghost plain = options.include_plain_fallback;
    let start = match start_opt {
        Some(s) => s,
        None => {
            assert(detection_run(cwd@, stop, plain, is_dir, seq![], seq![], None));
            return None;
        },
    };
    let mut current = copy_str(&start);
    let ghost mut k: nat = 0;
    let ghost mut dirs: Seq<Seq<char>> = seq![];
    let ghost mut marks: Seq<Seq<bool>> = seq![];
    let ghost mut last_marks: Seq<bool> = seq![];
    loop
        invariant
            start@ == cwd@ || spec_parent(cwd@) == Some(start@),
            start_dir(cwd@, is_dir) == Some(start@),
            ancestor(start@, k) == Some(current@),
            walked_within(start@, k, stop),
            stop == opt_view(options.stop_at),
            dirs.len() == marks.len(),
            dirs.push(current@)[0] == start@,
            forall|j: int| 0 <= j < marks.len() ==> (#[trigger] marks[j]).len() == marker_count(),
            forall|j: int| 0 <= j < marks.len() ==> marker_answers(#[trigger] dirs[j], marks[j]),
            forall|j: int|
                0 <= j < dirs.len() ==> #[trigger] walk_step(dirs.push(current@), marks, stop, j),
            is_dir_answer(cwd@, is_dir),
        ensures
            ancestor(start@, k) == Some(current@),
            walked_within(start@, k, stop),
            walk_ends_at(current@, stop),
            project_walk(start@, stop, dirs.push(current@), marks.push(last_marks)),
            markers_found(last_marks).len() == 0,
        decreases current@.len(),
    {
        let matches = collect_marker_matches(&current);
        let ghost m = choose|f: Seq<bool>|
            f.len() == marker_count() && marker_answers(current@, f) && #[trigger] selects(
                matches@,
                found_indices(f, marker_count()),
            );
        let ghost dirs2 = dirs.push(current@);
        let ghost marks2 = marks.push(m);
        proof {
            assert forall|j: int| 0 <= j < dirs2.len() - 1 implies #[trigger] walk_step(
                dirs2,
                marks2,
                stop,
                j,
            ) by {
                assert(walk_step(dirs2, marks, stop, j));
                assert(marks2[j] == marks[j]);
            }
            assert forall|j: int| 0 <= j < marks2.len() implies (#[trigger] marks2[j]).len()
                == marker_count() by {
                if j < marks.len() {
                    assert(marks2[j] == marks[j]);
                }
            }
            assert forall|j: int| 0 <= j < marks2.len() implies marker_answers(
                #[trigger] dirs2[j],
                marks2[j],
            ) by {
                if j < marks.len() {
                    assert(marks2[j] == marks[j] && dirs2[j] == dirs[j]);
                }
            }
        }
        if matches.len() > 0 {
            let kind = classify_kind(&matches);
            let name = project_name_for_root(&current);
            let info = ProjectInfo { cwd: start, root: current, name, kind, markers: matches };
            assert(walked_within(info.cwd@, k, stop));
            assert(project_walk(info.cwd@, stop, dirs2, marks2));
            assert(walk_outcome(info.cwd@, dirs2, marks2, plain, Some(info)));
            let r = Some(info);
            assert(detection_run(
                cwd@,
                opt_view(options.stop_at),
                options.include_plain_fallback,
                is_dir,
                dirs2,
                marks2,
                r,
            ));
            return r;
        }
        proof {
            last_marks = m;
        }
        if should_stop(&current, &options.stop_at) {
            break;
        }
        match path_parent(&current) {
            None => {
                break;
            },
            Some(parent) => {
                if path_eq(&parent, &current) {
                    break;
                }
                proof {
                    assert forall|j: nat| j < k + 1 implies (#[trigger] ancestor(
                        start@,
                        j,
                    ) matches Some(a) && !stops_at(a, stop)) by {
                        if j < k {
                            assert(walked_within(start@, k, stop));
                        }
                    }
                    assert(ancestor(start@, k + 1) == spec_parent(current@));
                    k = k + 1;
                    let ghost dirs3 = dirs2.push(parent@);
                    assert forall|j: int| 0 <= j < dirs2.len() implies #[trigger] walk_step(
                        dirs3,
                        marks2,
                        stop,
                        j,
                    ) by {
                        if j < dirs.len() {
                            assert(walk_step(dirs2, marks2, stop, j));
                            assert(dirs3[j] == dirs2[j] && dirs3[j + 1] == dirs2[j + 1]);
                        } else {
                            assert(dirs3[j] == current@ && dirs3[j + 1] == parent@);
                            assert(marks2[j] == m);
                        }
                    }
                    dirs = dirs2;
                    marks = marks2;
                }
                current = parent;
            },
        }
    }
    assert(walked_to_end(start@, stop));
    let ghost dirs_f = dirs.push(current@);
    let ghost marks_f = marks.push(last_marks);
    if options.include_plain_fallback {
        let name = project_name_for_root(&start);
        let info = ProjectInfo {
            cwd: copy_str(&start),
            root: start,
            name,
            kind: ProjectKind::Plain,
            markers: Vec::new(),
        };
        proof {
            assert(ancestor(info.cwd@, 0) == Some(info.root@));
            assert(walked_within(info.cwd@, 0, stop));
            assert(selects(info.markers@, seq![]));
            assert(first_non_git(info.markers@) is None);
            assert(walk_outcome(info.cwd@, dirs_f, marks_f, plain, Some(info)));
            assert(detection_run(cwd@, stop, plain, is_dir, dirs_f, marks_f, Some(info)));
        }
        Some(info)
    } else {
        assert(detection_run(cwd@, stop, plain, is_dir, dirs_f, marks_f, None));
        None
    }
}

/// Detects the project around `cwd` with the default options.
pub fn detect(cwd: &str) -> (r: Option<ProjectInfo>)
    ensures
        exists|is_dir: bool, dirs: Seq<Seq<char>>, marks: Seq<Seq<bool>>|
            #[trigger] detection_run(cwd@, None, true, is_dir, dirs, marks, r),
        r matches Some(info) ==> detected(cwd@, None, true, info),
        r matches Some(info) ==> (info.markers@.len() == 0 ==> walked_to_end(info.cwd@, None)),
        r is None ==> spec_parent(cwd@) is None,
{
    let options = DetectOptions::default();
    detect_with_options(cwd, &options)
}

impl ProjectInfo {
    /// One of the project's markers is `.git`.
    pub open spec fn spec_has_git_marker(&self) -> bool {
        exists|i: int| 0 <= i < self.markers@.len() && #[trigger] self.markers@[i].kind == ProjectKind::Git
    }

    /// Tests whether one of the project's markers is `.git`.
    pub fn has_git_marker(&self) -> (r: bool)
        ensures
            r == self.spec_has_git_marker(),
    {
        let mut i: usize = 0;
        while i < self.markers.len()
            invariant
                0 <= i <= self.markers@.len(),
                forall|j: int| 0 <= j < i ==> (#[trigger] self.markers@[j]).kind != ProjectKind::Git,
            decreases self.markers@.len() - i,
        {
            if self.markers[i].kind == ProjectKind::Git {
                return true;
            }
            i = i + 1;
        }
        false
    }
}

// ---------------------------------------------------------------------------
// Laws of classification
// ---------------------------------------------------------------------------
proof fn lemma_first_non_git_at(ms: Seq<ProjectMarkerMatch>, i: int)
    requires
        0 <= i < ms.len(),
        ms[i].kind != ProjectKind::Git,
        forall|j: int| 0 <= j < i ==> (#[trigger] ms[j]).kind == ProjectKind::Git,
    ensures
        first_non_git(ms) == Some(ms[i].kind),
    decreases i,
{
    if i > 0 {
        assert forall|j: int| 0 <= j < i - 1 implies (#[trigger] ms.drop_first()[j]).kind
            == ProjectKind::Git by {
            assert(ms.drop_first()[j] == ms[j + 1]);
        }
        lemma_first_non_git_at(ms.drop_first(), i - 1);
    }
}

proof fn lemma_all_git_no_language(ms: Seq<ProjectMarkerMatch>)
    requires
        forall|j: int| 0 <= j < ms.len() ==> (#[trigger] ms[j]).kind == ProjectKind::Git,
    ensures
        first_non_git(ms) is None,
    decreases ms.len(),
{
    if ms.len() > 0 {
        assert forall|j: int| 0 <= j < ms.len() - 1 implies (#[trigger] ms.drop_first()[j]).kind
            == ProjectKind::Git by {
            assert(ms.drop_first()[j] == ms[j + 1]);
        }
        lemma_all_git_no_language(ms.drop_first());
    }
}

/// A language marker wins over `.git`: the kind is that of the first marker
/// that is not `.git`, wherever `.git` stands.
pub proof fn lemma_language_marker_wins(ms: Seq<ProjectMarkerMatch>, i: int)
    requires
        0 <= i < ms.len(),
        ms[i].kind != ProjectKind::Git,
        forall|j: int| 0 <= j < i ==> (#[trigger] ms[j]).kind == ProjectKind::Git,
    ensures
        classify(ms) == ms[i].kind,
        classify(ms) != ProjectKind::Git,
{
    lemma_first_non_git_at(ms, i);
}

/// Markers that are all `.git` make a git project; no markers make a plain
/// one.
pub proof fn lemma_git_only_project(ms: Seq<ProjectMarkerMatch>)
    requires
        forall|j: int| 0 <= j < ms.len() ==> (#[trigger] ms[j]).kind == ProjectKind::Git,
    ensures
        ms.len() > 0 ==> classify(ms) == ProjectKind::Git,
        ms.len() == 0 ==> classify(ms) == ProjectKind::Plain,
{
    lemma_all_git_no_language(ms);
    if ms.len() > 0 {
        assert(ms[0].kind == ProjectKind::Git);
    }
}

/// Detection never walks past a configured boundary: every directory
/// between the start and the reported root (the root excluded) differs from
/// the boundary, so the root is at most the boundary itself.
pub proof fn lemma_root_within_boundary(cwd: Seq<char>, boundary: Seq<char>, plain_ok: bool, info: ProjectInfo)
    requires
        detected(cwd, Some(boundary), plain_ok, info),
    ensures
        exists|k: nat|
            #![trigger ancestor(info.cwd@, k)]
            ancestor(info.cwd@, k) == Some(info.root@) && forall|j: nat|
                j < k ==> (#[trigger] ancestor(info.cwd@, j) matches Some(a) && !spec_path_eq(
                    a,
                    boundary,
                )),
{
    let k = choose|k: nat|
        ancestor(info.cwd@, k) == Some(info.root@) && #[trigger] walked_within(
            info.cwd@,
            k,
            Some(boundary),
        );
    assert(ancestor(info.cwd@, k) == Some(info.root@));
}

/// Without the plain fallback, a project is reported only where a marker
/// was found.
pub proof fn lemma_no_fallback_needs_markers(cwd: Seq<char>, stop_at: Option<Seq<char>>, info: ProjectInfo)
    requires
        detected(cwd, stop_at, false, info),
    ensures
        info.markers@.len() > 0,
        info.kind != ProjectKind::Plain,
{
    if info.markers@.len() > 0 {
        let ms = info.markers@;
        if forall|j: int| 0 <= j < ms.len() ==> (#[trigger] ms[j]).kind == ProjectKind::Git {
            lemma_git_only_project(ms);
        } else {
            let i = choose|i: int| 0 <= i < ms.len() && (#[trigger] ms[i]).kind != ProjectKind::Git;
            lemma_first_non_plain(ms, i);
        }
    }
}

proof fn lemma_first_non_plain(ms: Seq<ProjectMarkerMatch>, i: int)
    requires
        0 <= i < ms.len(),
        ms[i].kind != ProjectKind::Git,
        is_marker_selection(ms),
    ensures
        classify(ms) != ProjectKind::Plain,
{
    let idx = choose|idx: Seq<int>| #[trigger] selects(ms, idx);
    assert(forall|j: int| 0 <= j < ms.len() ==> (#[trigger] ms[j]).kind != ProjectKind::Plain) by {
        assert forall|j: int| 0 <= j < ms.len() implies (#[trigger] ms[j]).kind
            != ProjectKind::Plain by {
            assert(0 <= idx[j] < marker_count());
        }
    }
    lemma_first_non_git_some(ms, i);
}

proof fn lemma_first_non_git_some(ms: Seq<ProjectMarkerMatch>, i: int)
    requires
        0 <= i < ms.len(),
        ms[i].kind != ProjectKind::Git,
        forall|j: int| 0 <= j < ms.len() ==> (#[trigger] ms[j]).kind != ProjectKind::Plain,
    ensures
        first_non_git(ms) matches Some(k) && k != ProjectKind::Plain,
    decreases ms.len(),
{
    if ms[0].kind == ProjectKind::Git {
        assert(i > 0);
        assert forall|j: int| 0 <= j < ms.drop_first().len() implies (
        #[trigger] ms.drop_first()[j]).kind != ProjectKind::Plain by {
            assert(ms.drop_first()[j] == ms[j + 1]);
        }
        lemma_first_non_git_some(ms.drop_first(), i - 1);
    }
}

} // verus!
