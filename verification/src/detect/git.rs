//! Minimal git summary for prompt and tmux rendering.
//!
//! The repository root is found by walking upward; the rest of the summary
//! comes from a few files under the git directory and from one
//! `git status --porcelain --branch` run. Reading those files and running git
//! are left to the caller: `detect` says what to read, `detect_after_gitfile`
//! and `detect_finish` turn what was read into the summary.
use vstd::prelude::*;
use vstd::utf8::encode_utf8;
use crate::detect::project::walk_ends_at;
use crate::paths::{
    ancestor, is_absolute, is_ancestor, join, join_path, path_is_absolute, path_parent,
    spec_parent, spec_path_eq, ask_exists, ask_is_dir,
    ask_is_file, exists_answer, is_dir_answer, is_file_answer,
};
use crate::text::{
    all_digits, dec, is_digit, is_ws, lemma_dec_parses, lemma_find_char_at, lemma_split_at_one_sep,
    lemma_split_without_sep, lemma_trim_unchanged, parse_nat, trim_end, trim_start,
    concat, copy_str, find_char, find_in, line_ranges, lines, matches_at, opt_view, parse_bounded,
    parse_uint, rfind_char, rfind_in, split, split_ranges, starts_with, substring, to_chars, trim,
    trim_bounds, views, Sep,
};

verus! {

/// What the detector learned about the repository around a directory.
#[derive(Debug, Clone)]
pub struct GitContext {
    pub repo_root: String,
    pub git_dir: String,
    pub branch: Option<String>,
    pub head_oid_short: Option<String>,
    pub dirty: bool,
    pub staged: usize,
    pub modified: usize,
    pub untracked: usize,
    pub conflicted: usize,
    pub ahead: usize,
    pub behind: usize,
    pub detached: bool,
    pub head_mtime: Option<u64>,
    pub index_mtime: Option<u64>,
}

/// Why a repository could not be summarised.
#[derive(Debug, Clone)]
pub enum GitError {
    /// The `.git` file could not be read.
    ReadGitfile { path: String, reason: String },
    /// The `.git` file does not start with `gitdir:`.
    UnsupportedGitfile { path: String },
    /// `.git` is neither a directory nor a file.
    MissingGitMarker { repo_root: String },
    /// `HEAD` could not be read.
    ReadHead { git_dir: String, reason: String },
    /// `git status` could not be run in the repository root.
    RunStatus { repo_root: String },
}

impl GitError {
    /// A one-line description of the error.
    pub fn describe(&self) -> (r: String)
        ensures
            r@ == match self {
                GitError::ReadGitfile { path, reason } => "failed reading gitfile: "@ + path@
                    + ": "@ + reason@,
                GitError::UnsupportedGitfile { path } => "unsupported gitfile format: "@ + path@,
                GitError::MissingGitMarker { repo_root } => "missing .git marker under "@
                    + repo_root@,
                GitError::ReadHead { git_dir, reason } => "failed reading HEAD in "@ + git_dir@
                    + ": "@ + reason@,
                GitError::RunStatus { repo_root } => "failed to execute git status in "@
                    + repo_root@,
            },
    {
        match self {
            GitError::ReadGitfile { path, reason } => {
                let mut s = concat("failed reading gitfile: ", path);
                crate::text::push_all(&mut s, ": ");
                crate::text::push_all(&mut s, reason);
                assert(s@ =~= "failed reading gitfile: "@ + path@ + ": "@ + reason@);
                s
            },
            GitError::UnsupportedGitfile { path } => concat("unsupported gitfile format: ", path),
            GitError::MissingGitMarker { repo_root } => concat("missing .git marker under ", repo_root),
            GitError::ReadHead { git_dir, reason } => {
                let mut s = concat("failed reading HEAD in ", git_dir);
                crate::text::push_all(&mut s, ": ");
                crate::text::push_all(&mut s, reason);
                assert(s@ =~= "failed reading HEAD in "@ + git_dir@ + ": "@ + reason@);
                s
            },
            GitError::RunStatus { repo_root } => concat("failed to execute git status in ", repo_root),
        }
    }
}

/// Where the search for a repository starts, given whether `start` is a
/// directory: `start` itself when it is, otherwise its parent (or `start`
/// when it has none).
pub open spec fn repo_start(start: Seq<char>, is_dir: bool) -> Seq<char> {
    if is_dir {
        start
    } else {
        match spec_parent(start) {
            Some(p) => p,
            None => start,
        }
    }
}

/// Step `j` of a search: directory `j` had no `.git` entry and the search
/// went on to its parent, which differs from it.
pub open spec fn repo_step(dirs: Seq<Seq<char>>, found: Seq<bool>, j: int) -> bool {
    &&& !found[j]
    &&& spec_parent(dirs[j]) == Some(dirs[j + 1])
    &&& !spec_path_eq(dirs[j + 1], dirs[j])
}

/// `dirs` are the directories a search from `s` looked at, in order, and
/// `found` the answers `Path::exists` gave for `<dir>/.git`: each directory before
/// the last had none and led to its parent; the search stopped at the last
/// one because it had one or because the walk ends there.
pub open spec fn repo_walk(s: Seq<char>, dirs: Seq<Seq<char>>, found: Seq<bool>) -> bool {
    &&& dirs.len() == found.len()
    &&& dirs.len() >= 1
    &&& dirs[0] == s
    &&& forall|j: int| 0 <= j < dirs.len() - 1 ==> #[trigger] repo_step(dirs, found, j)
    &&& found.last() || walk_ends_at(dirs.last(), None)
    &&& git_answers(dirs, found)
}

/// Each answer `found[j]` is what `Path::exists` said of `<dirs[j]>/.git`.
pub open spec fn git_answers(dirs: Seq<Seq<char>>, found: Seq<bool>) -> bool {
    forall|j: int|
        0 <= j < dirs.len() && j < found.len() ==> exists_answer(
            join(#[trigger] dirs[j], ".git"@),
            found[j],
        )
}

/// The first directory, from `i` on, whose answer is yes.
pub open spec fn first_found(dirs: Seq<Seq<char>>, found: Seq<bool>, i: int) -> Option<Seq<char>>
    decreases found.len() - i,
{
    if i < 0 || i >= found.len() || i >= dirs.len() {
        None
    } else if found[i] {
        Some(dirs[i])
    } else {
        first_found(dirs, found, i + 1)
    }
}

proof fn lemma_first_found_skips(dirs: Seq<Seq<char>>, found: Seq<bool>, k: int, n: int)
    requires
        0 <= k <= n,
        forall|j: int| k <= j < n ==> !#[trigger] found[j],
    ensures
        first_found(dirs, found, k) == first_found(dirs, found, n),
    decreases n - k,
{
    if k < n {
        lemma_first_found_skips(dirs, found, k + 1, n);
    }
}

/// The start directory of a repository search, given whether `start` is a
/// directory.
pub fn repo_start_dir(start: &str, is_dir: bool) -> (r: String)
    ensures
        r@ == repo_start(start@, is_dir),
{
    if is_dir {
        copy_str(start)
    } else {
        match path_parent(start) {
            Some(p) => p,
            None => copy_str(start),
        }
    }
}

/// Picks the repository root from the directories searched and the answers
/// to "does `<dir>/.git` exist?": the first directory answered yes, if any.
pub fn pick_repo_root(dirs: &Vec<String>, found: &Vec<bool>) -> (r: Option<String>)
    requires
        found@.len() <= dirs@.len(),
    ensures
        opt_view(r) == first_found(views(dirs@), found@, 0),
{
    let ghost ds = views(dirs@);
    let mut i: usize = 0;
    while i < found.len()
        invariant
            found@.len() <= dirs@.len(),
            0 <= i <= found@.len(),
            ds == views(dirs@),
            first_found(ds, found@, 0) == first_found(ds, found@, i as int),
        decreases found@.len() - i,
    {
        if found[i] {
            assert(ds.len() == dirs@.len());
            assert(ds[i as int] == dirs@[i as int]@);
            return Some(copy_str(&dirs[i]));
        }
        i = i + 1;
    }
    None
}

/// Finds the repository root by walking upward from `start` (or from its
/// parent, when `start` is not a directory) to the first directory holding
/// a `.git` entry. Only `.git` markers are recognised. Whether `start` is a
/// directory and whether each `<dir>/.git` exists is asked of the
/// filesystem; `pick_repo_root` decides from the answers, so the root is the
/// nearest directory answered yes, and there is none only when the walk
/// reached its end without one.
pub fn find_repo_root(start: &str) -> (r: Result<Option<String>, GitError>)
    ensures
        r is Ok,
        exists|is_dir: bool, dirs: Seq<Seq<char>>, found: Seq<bool>|
            #[trigger] repo_walk(repo_start(start@, is_dir), dirs, found) && is_dir_answer(
                start@,
                is_dir,
            ) && (r matches Ok(o) && opt_view(o) == first_found(dirs, found, 0)),
        r matches Ok(Some(root)) ==> is_ancestor(root@, start@),
        r matches Ok(None) ==> exists|k: nat|
            #[trigger] ancestor(start@, k) matches Some(a) && walk_ends_at(a, None),
{
    let is_dir = ask_is_dir(start);
    let s = repo_start_dir(start, is_dir);
    let ghost k0: nat = if is_dir || spec_parent(start@) is None {
        0
    } else {
        1
    };
    proof {
        assert(ancestor(start@, 0) == Some(start@));
        assert(ancestor(start@, 1) == spec_parent(start@));
    }
    let mut current = copy_str(&s);
    let ghost mut k: nat = k0;
    let mut dirs: Vec<String> = Vec::new();
    let mut found: Vec<bool> = Vec::new();
    loop
        invariant_except_break
            views(dirs@).push(current@)[0] == s@,
            forall|j: int|
                0 <= j < dirs@.len() ==> #[trigger] repo_step(
                    views(dirs@).push(current@),
                    found@,
                    j,
                ),
        invariant
            ancestor(start@, k) == Some(current@),
            s@ == repo_start(start@, is_dir),
            dirs@.len() == found@.len(),
            git_answers(views(dirs@), found@),
        ensures
            ancestor(start@, k) == Some(current@),
            repo_walk(s@, views(dirs@), found@),
            views(dirs@).last() == current@,
            found@.last() || walk_ends_at(current@, None),
        decreases current@.len(),
    {
        let marker = join_path(&current, ".git");
        let yes = ask_exists(&marker);
        let ghost before = views(dirs@);
        let ghost fbefore = found@;
        dirs.push(copy_str(&current));
        found.push(yes);
        let ghost ds = views(dirs@);
        proof {
            assert forall|j: int| 0 <= j < ds.len() && j < found@.len() implies exists_answer(
                join(#[trigger] ds[j], ".git"@),
                found@[j],
            ) by {
                if j < before.len() {
                    assert(ds[j] == before[j]);
                    assert(found@[j] == fbefore[j]);
                }
            }
            assert(ds =~= before.push(current@));
            assert forall|j: int| 0 <= j < ds.len() - 1 implies #[trigger] repo_step(
                ds,
                found@,
                j,
            ) by {
                assert(repo_step(before.push(current@), fbefore, j));
                assert(found@[j] == fbefore[j]);
            }
            assert(ds[0] == s@);
        }
        if yes {
            break;
        }
        match path_parent(&current) {
            None => {
                assert(walk_ends_at(current@, None));
                break;
            },
            Some(parent) => {
                if crate::paths::path_eq(&parent, &current) {
                    assert(walk_ends_at(current@, None));
                    break;
                }
                proof {
                    assert(ancestor(start@, k + 1) == spec_parent(current@));
                    k = k + 1;
                    let next = ds.push(parent@);
                    assert forall|j: int| 0 <= j < ds.len() implies #[trigger] repo_step(
                        next,
                        found@,
                        j,
                    ) by {
                        if j < ds.len() - 1 {
                            assert(repo_step(ds, found@, j));
                            assert(next[j] == ds[j] && next[j + 1] == ds[j + 1]);
                        } else {
                            assert(next[j] == current@ && next[j + 1] == parent@);
                        }
                    }
                }
                current = parent;
            },
        }
    }
    let ghost ds = views(dirs@);
    proof {
        assert forall|j: int| 0 <= j < found@.len() - 1 implies !#[trigger] found@[j] by {
            assert(repo_step(ds, found@, j));
        }
        lemma_first_found_skips(ds, found@, 0, found@.len() - 1);
    }
    let r = pick_repo_root(&dirs, &found);
    proof {
        let n = found@.len() - 1;
        if found@[n] {
            assert(first_found(ds, found@, n) == Some(current@));
            assert(is_ancestor(current@, start@));
        } else {
            assert(first_found(ds, found@, n + 1) is None);
            assert(first_found(ds, found@, n) is None);
        }
    }
    Ok(r)
}

/// The git directory named by the contents of a `.git` file: the trimmed
/// text after `gitdir:`, taken relative to the repository root unless it is
/// absolute.
pub open spec fn gitfile_target(repo_root: Seq<char>, contents: Seq<char>) -> Option<Seq<char>> {
    let line = trim(contents);
    if starts_with(line, "gitdir:"@) {
        let value = trim(line.subrange("gitdir:"@.len() as int, line.len() as int));
        Some(
            if is_absolute(value) {
                value
            } else {
                join(repo_root, value)
            },
        )
    } else {
        None
    }
}

/// The git directory named by a `.git` file's contents, if they have the
/// `gitdir:` form.
pub fn gitfile_git_dir(repo_root: &str, contents: &str) -> (r: Option<String>)
    ensures
        r.is_some() == gitfile_target(repo_root@, contents@).is_some(),
        r matches Some(d) ==> gitfile_target(repo_root@, contents@) == Some(d@),
{
    let v = to_chars(contents);
    let (a, b) = trim_bounds(&v, 0, v.len());
    assert(v@.subrange(0, v@.len() as int) =~= v@);
    let prefix = to_chars("gitdir:");
    let ghost line = v@.subrange(a as int, b as int);
    if b - a >= prefix.len() && matches_at(&v, a, &prefix) {
        assert(v@.subrange(a as int, v@.len() as int).subrange(0, prefix@.len() as int)
            =~= line.subrange(0, prefix@.len() as int));
        let (c, d) = trim_bounds(&v, a + prefix.len(), b);
        assert(v@.subrange(a + prefix@.len(), b as int) =~= line.subrange(
            prefix@.len() as int,
            line.len() as int,
        ));
        let value = substring(&v, c, d);
        if path_is_absolute(&value) {
            Some(value)
        } else {
            Some(join_path(repo_root, &value))
        }
    } else {
        proof {
            if starts_with(line, prefix@) {
                assert(v@.subrange(a as int, v@.len() as int).subrange(0, prefix@.len() as int)
                    =~= line.subrange(0, prefix@.len() as int));
            }
        }
        None
    }
}

/// The branch named by a symbolic reference: `refs/heads/` is dropped, the
/// rest trimmed; an empty name is no branch.
pub open spec fn branch_name(reference: Seq<char>) -> Option<Seq<char>> {
    let b = trim(
        if starts_with(reference, "refs/heads/"@) {
            reference.subrange("refs/heads/"@.len() as int, reference.len() as int)
        } else {
            reference
        },
    );
    if b.len() == 0 {
        None
    } else {
        Some(b)
    }
}

/// The branch named by `reference`, with hierarchical names kept whole.
pub fn branch_name_from_reference(reference: &str) -> (r: Option<String>)
    ensures
        opt_view(r) == branch_name(reference@),
{
    let v = to_chars(reference);
    let prefix = to_chars("refs/heads/");
    let start = if matches_at(&v, 0, &prefix) {
        prefix.len()
    } else {
        0
    };
    assert(v@.subrange(0, v@.len() as int) =~= v@);
    let (a, b) = trim_bounds(&v, start, v.len());
    if a == b {
        None
    } else {
        Some(substring(&v, a, b))
    }
}

/// The branch that a `HEAD` file names: a `ref:` line names a branch; a bare
/// object id (a detached head) names none.
pub open spec fn head_branch(contents: Seq<char>) -> Option<Seq<char>> {
    let head = trim(contents);
    if starts_with(head, "ref:"@) {
        branch_name(trim(head.subrange("ref:"@.len() as int, head.len() as int)))
    } else {
        None
    }
}

/// The branch that the contents of `HEAD` name.
pub fn branch_from_head(contents: &str) -> (r: Option<String>)
    ensures
        opt_view(r) == head_branch(contents@),
{
    let v = to_chars(contents);
    let (a, b) = trim_bounds(&v, 0, v.len());
    assert(v@.subrange(0, v@.len() as int) =~= v@);
    let ghost head = v@.subrange(a as int, b as int);
    let prefix = to_chars("ref:");
    if b - a >= prefix.len() && matches_at(&v, a, &prefix) {
        assert(v@.subrange(a as int, v@.len() as int).subrange(0, prefix@.len() as int)
            =~= head.subrange(0, prefix@.len() as int));
        let (c, d) = trim_bounds(&v, a + prefix.len(), b);
        assert(v@.subrange(a + prefix@.len(), b as int) =~= head.subrange(
            prefix@.len() as int,
            head.len() as int,
        ));
        let reference = substring(&v, c, d);
        branch_name_from_reference(&reference)
    } else {
        proof {
            if starts_with(head, prefix@) {
                assert(v@.subrange(a as int, v@.len() as int).subrange(0, prefix@.len() as int)
                    =~= head.subrange(0, prefix@.len() as int));
            }
        }
        None
    }
}

/// The outcome of running a command: whether it succeeded, and its standard
/// output decoded as UTF-8 (invalid sequences replaced).
#[derive(Debug, Clone)]
pub struct CommandOutput {
    pub success: bool,
    pub stdout: String,
}

/// The short object id printed by `git rev-parse --short HEAD`, when the
/// command ran, succeeded and printed something.
pub open spec fn head_oid(output: Option<CommandOutput>) -> Option<Seq<char>> {
    match output {
        Some(o) => if o.success && trim(o.stdout@).len() > 0 {
            Some(trim(o.stdout@))
        } else {
            None
        },
        None => None,
    }
}

/// The short head object id from the output of `git rev-parse --short HEAD`.
pub fn head_oid_from_output(output: &Option<CommandOutput>) -> (r: Option<String>)
    ensures
        opt_view(r) == head_oid(*output),
{
    match output {
        Some(o) => {
            if !o.success {
                return None;
            }
            let v = to_chars(&o.stdout);
            let (a, b) = trim_bounds(&v, 0, v.len());
            assert(v@.subrange(0, v@.len() as int) =~= v@);
            if a == b {
                None
            } else {
                Some(substring(&v, a, b))
            }
        },
        None => None,
    }
}

/// Counters from one run of `git status --porcelain --branch`.
#[derive(Debug, Clone, Copy)]
pub struct GitStatusCounters {
    pub dirty: bool,
    pub staged: usize,
    pub modified: usize,
    pub untracked: usize,
    pub conflicted: usize,
    pub ahead: usize,
    pub behind: usize,
}

impl Default for GitStatusCounters {
    /// Everything clean and zero.
    fn default() -> (r: Self)
        ensures
            r == (GitStatusCounters {
                dirty: false,
                staged: 0,
                modified: 0,
                untracked: 0,
                conflicted: 0,
                ahead: 0,
                behind: 0,
            }),
    {
        GitStatusCounters {
            dirty: false,
            staged: 0,
            modified: 0,
            untracked: 0,
            conflicted: 0,
            ahead: 0,
            behind: 0,
        }
    }
}

/// `XY` is one of the unmerged status pairs of `git status --porcelain`.
pub open spec fn conflict_pair(x: char, y: char) -> bool {
    ||| (x == 'D' && y == 'D')
    ||| (x == 'A' && y == 'U')
    ||| (x == 'U' && y == 'D')
    ||| (x == 'U' && y == 'A')
    ||| (x == 'D' && y == 'U')
    ||| (x == 'A' && y == 'A')
    ||| (x == 'U' && y == 'U')
}

/// Tests whether `XY` is an unmerged (conflict) status pair.
pub fn is_conflict_pair(x: char, y: char) -> (r: bool)
    ensures
        r == conflict_pair(x, y),
{
    (x == 'D' && y == 'D') || (x == 'A' && y == 'U') || (x == 'U' && y == 'D') || (x == 'U' && y
        == 'A') || (x == 'D' && y == 'U') || (x == 'A' && y == 'A') || (x == 'U' && y == 'U')
}

/// The ahead/behind pair after reading one comma-separated part of a branch
/// header's bracket: `ahead N` and `behind N` set their count when `N`
/// parses; anything else leaves both.
pub open spec fn part_counts(part: Seq<char>, ahead: nat, behind: nat) -> (nat, nat) {
    let p = trim(part);
    if starts_with(p, "ahead "@) {
        match parse_bounded(
            trim(p.subrange("ahead "@.len() as int, p.len() as int)),
            usize::MAX as nat,
        ) {
            Some(n) => (n, behind),
            None => (ahead, behind),
        }
    } else if starts_with(p, "behind "@) {
        match parse_bounded(
            trim(p.subrange("behind "@.len() as int, p.len() as int)),
            usize::MAX as nat,
        ) {
            Some(n) => (ahead, n),
            None => (ahead, behind),
        }
    } else {
        (ahead, behind)
    }
}

/// The ahead/behind pair after reading the parts in order.
pub open spec fn parts_counts(parts: Seq<Seq<char>>, ahead: nat, behind: nat) -> (nat, nat)
    decreases parts.len(),
{
    if parts.len() == 0 {
        (ahead, behind)
    } else {
        let (a, b) = parts_counts(parts.drop_last(), ahead, behind);
        part_counts(parts.last(), a, b)
    }
}

/// The ahead/behind pair after reading a branch header such as
/// `## feature...origin/feature [ahead 2, behind 1]`: the text between the
/// first `[` and the last `]` is split at commas.
pub open spec fn header_counts(line: Seq<char>, ahead: nat, behind: nat) -> (nat, nat) {
    match (find_char(line, '['), rfind_char(line, ']')) {
        (Some(start), Some(end)) => if end > start {
            parts_counts(split(line.subrange(start + 1, end), Sep::Char(',')), ahead, behind)
        } else {
            (ahead, behind)
        },
        _ => (ahead, behind),
    }
}

proof fn lemma_parts_counts_bounded(parts: Seq<Seq<char>>, ahead: nat, behind: nat)
    requires
        ahead <= usize::MAX,
        behind <= usize::MAX,
    ensures
        parts_counts(parts, ahead, behind).0 <= usize::MAX,
        parts_counts(parts, ahead, behind).1 <= usize::MAX,
    decreases parts.len(),
{
    if parts.len() > 0 {
        lemma_parts_counts_bounded(parts.drop_last(), ahead, behind);
    }
}

/// Reads the ahead/behind counts from a branch header line into `counters`.
pub fn parse_branch_header(line: &str, counters: &mut GitStatusCounters)
    ensures
        (final(counters).ahead as nat, final(counters).behind as nat) == header_counts(
            line@,
            old(counters).ahead as nat,
            old(counters).behind as nat,
        ),
        final(counters).dirty == old(counters).dirty,
        final(counters).staged == old(counters).staged,
        final(counters).modified == old(counters).modified,
        final(counters).untracked == old(counters).untracked,
        final(counters).conflicted == old(counters).conflicted,
{
    let v = to_chars(line);
    assert(v@.subrange(0, v@.len() as int) =~= v@);
    let open_br = to_chars("[");
    assert(open_br@ =~= seq!['[']) by {
        reveal_strlit("[");
    }
    let start = match find_in(&v, 0, &open_br) {
        Some(s) => s,
        None => return ,
    };
    let end = match rfind_in(&v, v.len(), ']') {
        Some(e) => e,
        None => return ,
    };
    if end <= start {
        return ;
    }
    let parts = split_ranges(&v, start + 1, end, &Sep::Char(','));
    let ghost pieces = split(v@.subrange(start + 1, end as int), Sep::Char(','));
    let ahead_p = to_chars("ahead ");
    let behind_p = to_chars("behind ");
    let mut j: usize = 0;
    while j < parts.len()
        invariant
            0 <= j <= parts@.len(),
            parts@.len() == pieces.len(),
            forall|q: int|
                0 <= q < parts@.len() ==> (#[trigger] parts@[q]).0 <= parts@[q].1 <= v@.len()
                    && v@.subrange(parts@[q].0 as int, parts@[q].1 as int) == pieces[q],
            ahead_p@ == "ahead "@,
            behind_p@ == "behind "@,
            (counters.ahead as nat, counters.behind as nat) == parts_counts(
                pieces.subrange(0, j as int),
                old(counters).ahead as nat,
                old(counters).behind as nat,
            ),
            counters.dirty == old(counters).dirty,
            counters.staged == old(counters).staged,
            counters.modified == old(counters).modified,
            counters.untracked == old(counters).untracked,
            counters.conflicted == old(counters).conflicted,
        decreases parts@.len() - j,
    {
        let (pa, pb) = parts[j];
        let (a, b) = trim_bounds(&v, pa, pb);
        let ghost p = v@.subrange(a as int, b as int);
        assert(pieces.subrange(0, j + 1).drop_last() =~= pieces.subrange(0, j as int));
        assert(pieces.subrange(0, j + 1).last() == pieces[j as int]);
        if b - a >= ahead_p.len() && matches_at(&v, a, &ahead_p) {
            assert(v@.subrange(a as int, v@.len() as int).subrange(0, ahead_p@.len() as int)
                =~= p.subrange(0, ahead_p@.len() as int));
            let (c, d) = trim_bounds(&v, a + ahead_p.len(), b);
            assert(v@.subrange(a + ahead_p@.len(), b as int) =~= p.subrange(
                ahead_p@.len() as int,
                p.len() as int,
            ));
            match parse_uint(&v, c, d, usize::MAX as u64) {
                Some(n) => {
                    counters.ahead = n as usize;
                },
                None => {},
            }
        } else {
            proof {
                if starts_with(p, ahead_p@) {
                    assert(v@.subrange(a as int, v@.len() as int).subrange(
                        0,
                        ahead_p@.len() as int,
                    ) =~= p.subrange(0, ahead_p@.len() as int));
                }
            }
            if b - a >= behind_p.len() && matches_at(&v, a, &behind_p) {
                assert(v@.subrange(a as int, v@.len() as int).subrange(0, behind_p@.len() as int)
                    =~= p.subrange(0, behind_p@.len() as int));
                let (c, d) = trim_bounds(&v, a + behind_p.len(), b);
                assert(v@.subrange(a + behind_p@.len(), b as int) =~= p.subrange(
                    behind_p@.len() as int,
                    p.len() as int,
                ));
                match parse_uint(&v, c, d, usize::MAX as u64) {
                    Some(n) => {
                        counters.behind = n as usize;
                    },
                    None => {},
                }
            } else {
                proof {
                    if starts_with(p, behind_p@) {
                        assert(v@.subrange(a as int, v@.len() as int).subrange(
                            0,
                            behind_p@.len() as int,
                        ) =~= p.subrange(0, behind_p@.len() as int));
                    }
                }
            }
        }
        j = j + 1;
    }
    assert(pieces.subrange(0, pieces.len() as int) =~= pieces);
}

/// The counters after reading one line of `git status --porcelain --branch`:
/// a `## ` line is the branch header; a line shorter than two bytes is
/// skipped; otherwise its first two bytes are the status pair `XY`, where
/// `??` is untracked, an unmerged pair a conflict, and any other non-blank
/// `X` (index) or `Y` (worktree) a staged or modified entry.
pub open spec fn status_step(c: GitStatusCounters, line: Seq<char>) -> GitStatusCounters {
    if starts_with(line, "## "@) {
        let (a, b) = header_counts(line, c.ahead as nat, c.behind as nat);
        GitStatusCounters { ahead: a as usize, behind: b as usize, ..c }
    } else {
        let bytes = encode_utf8(line);
        if bytes.len() < 2 {
            c
        } else if starts_with(line, "??"@) {
            GitStatusCounters { untracked: (c.untracked + 1) as usize, dirty: true, ..c }
        } else if conflict_pair(bytes[0] as char, bytes[1] as char) {
            GitStatusCounters { conflicted: (c.conflicted + 1) as usize, dirty: true, ..c }
        } else {
            let x = bytes[0] as char;
            let y = bytes[1] as char;
            GitStatusCounters {
                staged: if x != ' ' {
                    (c.staged + 1) as usize
                } else {
                    c.staged
                },
                modified: if y != ' ' {
                    (c.modified + 1) as usize
                } else {
                    c.modified
                },
                dirty: c.dirty || x != ' ' || y != ' ',
                ..c
            }
        }
    }
}

/// The all-zero counters.
pub open spec fn zero_counters() -> GitStatusCounters {
    GitStatusCounters {
        dirty: false,
        staged: 0,
        modified: 0,
        untracked: 0,
        conflicted: 0,
        ahead: 0,
        behind: 0,
    }
}

/// The counters after reading all of `ls`, in order.
pub open spec fn status_counters(ls: Seq<Seq<char>>) -> GitStatusCounters
    decreases ls.len(),
{
    if ls.len() == 0 {
        zero_counters()
    } else {
        status_step(status_counters(ls.drop_last()), ls.last())
    }
}

/// Counts the entries in the output of `git status --porcelain --branch`.
pub fn parse_status_output(stdout: &str) -> (r: GitStatusCounters)
    ensures
        r == status_counters(lines(stdout@)),
        counted_by_kind(lines(stdout@), r),
{
    let v = to_chars(stdout);
    let ranges = line_ranges(&v);
    let ghost ls = lines(v@);
    let header = to_chars("## ");
    let untracked_p = to_chars("??");
    let mut c = GitStatusCounters::default();
    let n = ranges.len();
    let mut i: usize = 0;
    while i < n
        invariant
            n == ranges@.len(),
            n == ls.len(),
            ls == lines(v@),
            v@ == stdout@,
            header@ == "## "@,
            untracked_p@ == "??"@,
            forall|q: int|
                0 <= q < n ==> (#[trigger] ranges@[q]).0 <= ranges@[q].1 <= v@.len()
                    && v@.subrange(ranges@[q].0 as int, ranges@[q].1 as int) == ls[q],
            0 <= i <= n,
            c == status_counters(ls.subrange(0, i as int)),
            c.staged <= i,
            c.modified <= i,
            c.untracked <= i,
            c.conflicted <= i,
        decreases n - i,
    {
        let (a, b) = ranges[i];
        let ghost line = v@.subrange(a as int, b as int);
        assert(ls.subrange(0, i + 1).drop_last() =~= ls.subrange(0, i as int));
        assert(ls.subrange(0, i + 1).last() == line);
        let is_header = b - a >= header.len() && matches_at(&v, a, &header);
        proof {
            reveal_strlit("## ");
            if b - a >= 3 {
                assert(v@.subrange(a as int, v@.len() as int).subrange(0, 3) =~= line.subrange(
                    0,
                    3,
                ));
            }
        }
        let text = substring(&v, a, b);
        if is_header {
            parse_branch_header(&text, &mut c);
        } else {
            let bytes = text.as_str().as_bytes();
            if bytes.len() >= 2 {
                let x = bytes[0] as char;
                let y = bytes[1] as char;
                let is_untracked = b - a >= untracked_p.len() && matches_at(&v, a, &untracked_p);
                proof {
                    reveal_strlit("??");
                    if b - a >= 2 {
                        assert(v@.subrange(a as int, v@.len() as int).subrange(0, 2)
                            =~= line.subrange(0, 2));
                    }
                }
                if is_untracked {
                    c.untracked = c.untracked + 1;
                    c.dirty = true;
                } else if is_conflict_pair(x, y) {
                    c.conflicted = c.conflicted + 1;
                    c.dirty = true;
                } else {
                    if x != ' ' {
                        c.staged = c.staged + 1;
                        c.dirty = true;
                    }
                    if y != ' ' {
                        c.modified = c.modified + 1;
                        c.dirty = true;
                    }
                }
            }
        }
        i = i + 1;
    }
    assert(ls.subrange(0, n as int) =~= ls);
    proof {
        lemma_status_counting(ls);
    }
    c
}

/// What one run of `git status --porcelain --branch` contributes to a
/// summary: its counters when it ran and succeeded, zero counters otherwise
/// (a run that could not start is taken as clean).
pub open spec fn status_of(output: Option<CommandOutput>) -> GitStatusCounters {
    match output {
        Some(o) => if o.success {
            status_counters(lines(o.stdout@))
        } else {
            zero_counters()
        },
        None => zero_counters(),
    }
}

/// The counters from one run of `git status --porcelain --branch` in
/// `repo_root`: `None` means the command could not be run, which is an
/// error; a run that failed counts nothing; a successful run is counted
/// line by line.
pub fn collect_status_counters(repo_root: &str, output: &Option<CommandOutput>) -> (r: Result<GitStatusCounters, GitError>)
    ensures
        match output {
            None => r matches Err(GitError::RunStatus { repo_root: p }) && p@ == repo_root@,
            Some(o) => r matches Ok(c) && c == status_of(*output) && (c.dirty <==> (c.staged
                + c.modified + c.untracked + c.conflicted > 0)) && if o.success {
                counted_by_kind(lines(o.stdout@), c)
            } else {
                c == zero_counters()
            },
        },
{
    match output {
        Some(o) => {
            if o.success {
                Ok(parse_status_output(&o.stdout))
            } else {
                Ok(GitStatusCounters::default())
            }
        },
        None => Err(GitError::RunStatus { repo_root: copy_str(repo_root) }),
    }
}

/// What was read and run for a repository once its git directory is known.
#[derive(Debug)]
pub struct GitObservations {
    /// The contents of `HEAD`, or why it could not be read.
    pub head: Result<String, String>,
    /// Modification time of `HEAD`, in seconds since the Unix epoch.
    pub head_mtime: Option<u64>,
    /// Modification time of `index`, in seconds since the Unix epoch.
    pub index_mtime: Option<u64>,
    /// `git rev-parse --short HEAD` in the repository root; `None` when git
    /// could not be run.
    pub head_oid: Option<CommandOutput>,
    /// `git status --porcelain --branch` in the repository root; `None` when
    /// git could not be run.
    pub status: Option<CommandOutput>,
}

/// The next step of a detection.
#[derive(Debug)]
pub enum GitProbe {
    /// Detection is over.
    Done(Result<Option<GitContext>, GitError>),
    /// `.git` under `repo_root` is a file: read `gitfile` and call
    /// `detect_after_gitfile`.
    ReadGitFile { repo_root: String, gitfile: String },
    /// The git directory is known: read `HEAD` and the two mtimes under
    /// `git_dir`, run git in `repo_root`, and call `detect_finish`.
    Inspect { repo_root: String, git_dir: String },
}

/// The step after the repository root `root` is found, given whether
/// `<root>/.git` is a directory and whether it is a file: a directory is the
/// git directory; a file names it (read it next); neither is an error.
pub open spec fn probe_after_root(root: Seq<char>, is_dir: bool, is_file: bool, r: GitProbe) -> bool {
    if is_dir {
        r matches GitProbe::Inspect { repo_root, git_dir } && repo_root@ == root && git_dir@
            == join(root, ".git"@)
    } else if is_file {
        r matches GitProbe::ReadGitFile { repo_root, gitfile } && repo_root@ == root && gitfile@
            == join(root, ".git"@)
    } else {
        r matches GitProbe::Done(Err(GitError::MissingGitMarker { repo_root })) && repo_root@
            == root
    }
}

/// The next step once the repository root is known, given whether its
/// `.git` entry is a directory and whether it is a file.
pub fn detect_from(repo_root: String, is_dir: bool, is_file: bool) -> (r: GitProbe)
    ensures
        probe_after_root(repo_root@, is_dir, is_file, r),
{
    let dot_git = join_path(&repo_root, ".git");
    if is_dir {
        GitProbe::Inspect { repo_root, git_dir: dot_git }
    } else if is_file {
        GitProbe::ReadGitFile { repo_root, gitfile: dot_git }
    } else {
        GitProbe::Done(Err(GitError::MissingGitMarker { repo_root }))
    }
}

/// The first step of a detection, given the directories searched for
/// `.git` and the answers (`Path::is_dir`, then `Path::is_file`, asked of
/// `<root>/.git`): outside any repository (no `.git` found up to the end of the
/// walk) detection is over; otherwise `probe_after_root` decides at the
/// nearest directory holding `.git`.
pub open spec fn detect_start(dirs: Seq<Seq<char>>, found: Seq<bool>, r: GitProbe) -> bool {
    match first_found(dirs, found, 0) {
        None => r matches GitProbe::Done(Ok(None)),
        Some(root) => exists|is_dir: bool, is_file: bool|
            #[trigger] probe_after_root(root, is_dir, is_file, r) && is_dir_answer(
                join(root, ".git"@),
                is_dir,
            ) && (is_dir || is_file_answer(join(root, ".git"@), is_file)),
    }
}

/// The first step of a detection from `cwd`: the search for `.git` went
/// from `cwd` (or its parent, when `cwd` is not a directory) upward, and the
/// step is the one `detect_start` gives for its answers.
pub open spec fn detect_started(cwd: Seq<char>, r: GitProbe) -> bool {
    exists|start_is_dir: bool, dirs: Seq<Seq<char>>, found: Seq<bool>|
        #[trigger] repo_walk(repo_start(cwd, start_is_dir), dirs, found) && is_dir_answer(
            cwd,
            start_is_dir,
        ) && detect_start(dirs, found, r)
}

/// Starts detecting the git repository that contains `cwd`: finds the
/// repository root, then asks the filesystem whether its `.git` entry is a
/// directory or a file, and `detect_from` decides. Outside any repository
/// the result is `Done(Ok(None))`.
pub fn detect(cwd: &str) -> (r: GitProbe)
    ensures
        detect_started(cwd@, r),
        match r {
            GitProbe::Done(Ok(Some(_))) => false,
            GitProbe::Done(Ok(None)) => exists|k: nat|
                #[trigger] ancestor(cwd@, k) matches Some(a) && walk_ends_at(a, None),
            GitProbe::Done(Err(e)) => e matches GitError::MissingGitMarker { repo_root }
                && is_ancestor(repo_root@, cwd@),
            GitProbe::ReadGitFile { repo_root, gitfile } => is_ancestor(repo_root@, cwd@)
                && gitfile@ == join(repo_root@, ".git"@),
            GitProbe::Inspect { repo_root, git_dir } => is_ancestor(repo_root@, cwd@) && git_dir@
                == join(repo_root@, ".git"@),
        },
{
    let found_root = find_repo_root(cwd);
    let ghost (sd, dirs, found) = choose|sd: bool, dirs: Seq<Seq<char>>, found: Seq<bool>|
        #[trigger] repo_walk(repo_start(cwd@, sd), dirs, found) && is_dir_answer(cwd@, sd) && (
        found_root matches Ok(o) && opt_view(o) == first_found(dirs, found, 0));
    let root = match found_root {
        Ok(Some(r)) => r,
        _ => {
            let r = GitProbe::Done(Ok(None));
            assert(detect_start(dirs, found, r));
            return r;
        },
    };
    let dot_git = join_path(&root, ".git");
    let is_dir = ask_is_dir(&dot_git);
    let is_file = if is_dir {
        false
    } else {
        ask_is_file(&dot_git)
    };
    let r = detect_from(root, is_dir, is_file);
    assert(probe_after_root(first_found(dirs, found, 0)->0, is_dir, is_file, r));
    assert(detect_start(dirs, found, r));
    r
}

/// The step after reading the `.git` file `gitfile` of `repo_root`: an
/// unreadable file is an error; a `gitdir:` line names the git directory;
/// anything else is an unsupported gitfile.
pub open spec fn gitfile_read(repo_root: String, gitfile: String, contents: Result<String, String>, r: GitProbe) -> bool {
    match contents {
        Err(reason) => r == GitProbe::Done(Err(GitError::ReadGitfile { path: gitfile, reason })),
        Ok(c) => match gitfile_target(repo_root@, c@) {
            Some(d) => r matches GitProbe::Inspect { repo_root: root2, git_dir } && root2
                == repo_root && git_dir@ == d,
            None => r == GitProbe::Done(Err(GitError::UnsupportedGitfile { path: gitfile })),
        },
    }
}

/// Continues a detection once the `.git` file has been read: its `gitdir:`
/// line names the git directory.
pub fn detect_after_gitfile(repo_root: String, gitfile: String, contents: Result<String, String>) -> (r: GitProbe)
    ensures
        gitfile_read(repo_root, gitfile, contents, r),
{
    match contents {
        Err(reason) => GitProbe::Done(Err(GitError::ReadGitfile { path: gitfile, reason })),
        Ok(c) => match gitfile_git_dir(&repo_root, &c) {
            Some(d) => GitProbe::Inspect { repo_root, git_dir: d },
            None => GitProbe::Done(Err(GitError::UnsupportedGitfile { path: gitfile })),
        },
    }
}

/// The summary built from what was read: the branch from `HEAD` (none when
/// detached), the short head id, the status counters and the mtimes.
pub open spec fn git_summary(repo_root: String, git_dir: String, obs: GitObservations, ctx: GitContext) -> bool {
    &&& obs.head matches Ok(head)
    &&& ctx.repo_root == repo_root
    &&& ctx.git_dir == git_dir
    &&& opt_view(ctx.branch) == head_branch(head@)
    &&& ctx.detached == (head_branch(head@) is None)
    &&& opt_view(ctx.head_oid_short) == head_oid(obs.head_oid)
    &&& ctx.dirty == status_of(obs.status).dirty
    &&& ctx.staged == status_of(obs.status).staged
    &&& ctx.modified == status_of(obs.status).modified
    &&& ctx.untracked == status_of(obs.status).untracked
    &&& ctx.conflicted == status_of(obs.status).conflicted
    &&& ctx.ahead == status_of(obs.status).ahead
    &&& ctx.behind == status_of(obs.status).behind
    &&& ctx.head_mtime == obs.head_mtime
    &&& ctx.index_mtime == obs.index_mtime
}

/// The last step of a detection: it fails when `HEAD` could not be read,
/// and otherwise summarises what was read; dirty means some entry was
/// counted, and a successful `status` run is counted line by line.
pub open spec fn detection_finished(repo_root: String, git_dir: String, obs: GitObservations, r: Result<Option<GitContext>, GitError>) -> bool {
    &&& match obs.head {
        Err(reason) => r == Err::<Option<GitContext>, GitError>(GitError::ReadHead { git_dir, reason }),
        Ok(_) => r matches Ok(Some(ctx)) && git_summary(repo_root, git_dir, obs, ctx),
    }
    &&& r matches Ok(Some(ctx)) ==> (ctx.dirty <==> (ctx.staged + ctx.modified + ctx.untracked
        + ctx.conflicted > 0))
    &&& r is Ok ==> match obs.status {
        Some(o) => o.success ==> counted_by_kind(lines(o.stdout@), status_of(obs.status)),
        None => true,
    }
}

/// Finishes a detection: fails when `HEAD` could not be read, and otherwise
/// summarises what was read.
pub fn detect_finish(repo_root: String, git_dir: String, obs: GitObservations) -> (r: Result<Option<GitContext>, GitError>)
    ensures
        detection_finished(repo_root, git_dir, obs, r),
{
    let GitObservations { head, head_mtime, index_mtime, head_oid, status } = obs;
    let contents = match head {
        Err(reason) => return Err(GitError::ReadHead { git_dir, reason }),
        Ok(c) => c,
    };
    let branch = branch_from_head(&contents);
    let detached = branch.is_none();
    let head_oid_short = head_oid_from_output(&head_oid);
    let counters = match collect_status_counters(&repo_root, &status) {
        Ok(c) => c,
        Err(_) => GitStatusCounters::default(),
    };
    Ok(
        Some(
            GitContext {
                repo_root,
                git_dir,
                branch,
                head_oid_short,
                dirty: counters.dirty,
                staged: counters.staged,
                modified: counters.modified,
                untracked: counters.untracked,
                conflicted: counters.conflicted,
                ahead: counters.ahead,
                behind: counters.behind,
                detached,
                head_mtime,
                index_mtime,
            },
        ),
    )
}

// ---------------------------------------------------------------------------
// Laws of branch names
// ---------------------------------------------------------------------------
/// Branch names are kept whole, slashes included: the reference
/// `refs/heads/<name>` names the branch `<name>` for every non-empty name
/// without surrounding whitespace.
pub proof fn lemma_branch_name_kept_whole(name: Seq<char>)
    requires
        name.len() > 0,
        trim(name) == name,
    ensures
        branch_name("refs/heads/"@ + name) == Some(name),
{
    reveal_strlit("refs/heads/");
    let reference = "refs/heads/"@ + name;
    assert(reference.subrange(0, "refs/heads/"@.len() as int) =~= "refs/heads/"@);
    assert(reference.subrange("refs/heads/"@.len() as int, reference.len() as int) =~= name);
}

/// The repository is dirty exactly when some entry was counted: staged,
/// modified, untracked or conflicted. The branch header changes only the
/// ahead/behind counts.
proof fn lemma_dirty_iff_entries_counted(ls: Seq<Seq<char>>)
    requires
        ls.len() <= usize::MAX,
    ensures
        ({
            let c = status_counters(ls);
            &&& c.dirty <==> (c.staged + c.modified + c.untracked + c.conflicted > 0)
            &&& c.staged <= ls.len() && c.modified <= ls.len()
            &&& c.untracked <= ls.len() && c.conflicted <= ls.len()
        }),
    decreases ls.len(),
{
    if ls.len() > 0 {
        lemma_dirty_iff_entries_counted(ls.drop_last());
    }
}

/// The number of lines of `ls` that satisfy `p`.
pub open spec fn count_lines(ls: Seq<Seq<char>>, p: spec_fn(Seq<char>) -> bool) -> nat
    decreases ls.len(),
{
    if ls.len() == 0 {
        0
    } else {
        count_lines(ls.drop_last(), p) + if p(ls.last()) {
            1nat
        } else {
            0nat
        }
    }
}

/// An entry line of status output (not the branch header, at least two
/// bytes long).
pub open spec fn is_entry_line(l: Seq<char>) -> bool {
    !starts_with(l, "## "@) && encode_utf8(l).len() >= 2
}

/// An untracked entry: `??`.
pub open spec fn is_untracked_line(l: Seq<char>) -> bool {
    is_entry_line(l) && starts_with(l, "??"@)
}

/// A conflicted entry: an unmerged status pair.
pub open spec fn is_conflict_line(l: Seq<char>) -> bool {
    is_entry_line(l) && !starts_with(l, "??"@) && conflict_pair(
        encode_utf8(l)[0] as char,
        encode_utf8(l)[1] as char,
    )
}

/// A tracked, unconflicted entry whose index (`X`) or worktree (`Y`) column
/// is not blank.
pub open spec fn is_changed_line(l: Seq<char>, column: int) -> bool {
    is_entry_line(l) && !starts_with(l, "??"@) && !conflict_pair(
        encode_utf8(l)[0] as char,
        encode_utf8(l)[1] as char,
    ) && encode_utf8(l)[column] as char != ' '
}

/// How the counters read the lines `ls` of `git status --porcelain
/// --branch`: untracked entries are the `??` lines, conflicts the unmerged
/// pairs, staged and modified entries the other lines with a non-blank index
/// or worktree column; dirty means some entry was counted; without a branch
/// header nothing is ahead or behind.
pub open spec fn counted_by_kind(ls: Seq<Seq<char>>, c: GitStatusCounters) -> bool {
    &&& c.untracked == count_lines(ls, |l: Seq<char>| is_untracked_line(l))
    &&& c.conflicted == count_lines(ls, |l: Seq<char>| is_conflict_line(l))
    &&& c.staged == count_lines(ls, |l: Seq<char>| is_changed_line(l, 0))
    &&& c.modified == count_lines(ls, |l: Seq<char>| is_changed_line(l, 1))
    &&& c.dirty <==> (c.staged + c.modified + c.untracked + c.conflicted > 0)
    &&& (forall|i: int| 0 <= i < ls.len() ==> !starts_with(#[trigger] ls[i], "## "@)) ==> c.ahead
        == 0 && c.behind == 0
}

/// The counters of any number of lines that fits in memory are counted by
/// kind.
proof fn lemma_status_counting(ls: Seq<Seq<char>>)
    requires
        ls.len() <= usize::MAX,
    ensures
        counted_by_kind(ls, status_counters(ls)),
    decreases ls.len(),
{
    lemma_dirty_iff_entries_counted(ls);
    if ls.len() > 0 {
        let t = ls.drop_last();
        lemma_status_counting(t);
        lemma_dirty_iff_entries_counted(t);
        if forall|i: int| 0 <= i < ls.len() ==> !starts_with(#[trigger] ls[i], "## "@) {
            assert forall|i: int| 0 <= i < t.len() implies !starts_with(#[trigger] t[i], "## "@) by {
                assert(t[i] == ls[i]);
            }
            assert(!starts_with(ls[ls.len() - 1], "## "@));
        }
    }
}

/// The summary of a repository: the branch is the one `HEAD` names, and
/// it is absent exactly when the head is detached; when git could not run
/// `status` or it failed, nothing is counted and the repository is clean.
/// (That dirty means some entry was counted is an `ensures` of
/// `detect_finish`.)
pub proof fn lemma_git_summary(repo_root: String, git_dir: String, obs: GitObservations, ctx: GitContext)
    requires
        git_summary(repo_root, git_dir, obs, ctx),
    ensures
        ctx.detached <==> ctx.branch is None,
        opt_view(ctx.branch) == head_branch(obs.head->Ok_0@),
        !(obs.status matches Some(o) && o.success) ==> !ctx.dirty && ctx.ahead == 0 && ctx.behind
            == 0 && ctx.staged == 0 && ctx.modified == 0 && ctx.untracked == 0 && ctx.conflicted
            == 0,
{
}

/// One whole detection from `cwd`, as the caller drives it: `p1` is the
/// first step; when it asks for the `.git` file to be read, `p2` is the
/// step after reading it; whichever step asks for an inspection is finished
/// with the observations `obs`; `r` is the outcome. Each step is the one its
/// function's contract gives.
pub open spec fn git_detection_run(
    cwd: Seq<char>,
    p1: GitProbe,
    p2: GitProbe,
    obs: GitObservations,
    r: Result<Option<GitContext>, GitError>,
) -> bool {
    &&& detect_started(cwd, p1)
    &&& match p1 {
        GitProbe::Done(x) => r == x,
        GitProbe::Inspect { repo_root, git_dir } => detection_finished(repo_root, git_dir, obs, r),
        GitProbe::ReadGitFile { repo_root, gitfile } => (exists|c: Result<String, String>|
            #[trigger] gitfile_read(repo_root, gitfile, c, p2)) && match p2 {
            GitProbe::Done(x) => r == x,
            GitProbe::Inspect { repo_root: root2, git_dir } => detection_finished(
                root2,
                git_dir,
                obs,
                r,
            ),
            GitProbe::ReadGitFile { .. } => false,
        },
    }
}

/// The git directory of the repository rooted at `root`, as the detection
/// found it: `<root>/.git` when that is a directory, or the directory named
/// by the `gitdir:` line of `<root>/.git` when that is a file.
pub open spec fn resolved_git_dir(root: Seq<char>, git_dir: Seq<char>) -> bool {
    ||| git_dir == join(root, ".git"@) && is_dir_answer(join(root, ".git"@), true)
    ||| is_dir_answer(join(root, ".git"@), false) && is_file_answer(join(root, ".git"@), true)
        && exists|contents: Seq<char>| #[trigger] gitfile_target(root, contents) == Some(git_dir)
}

/// A whole git detection: outside any repository (no `.git` found from the
/// start directory up to the end of the walk) the outcome is `Ok(None)`;
/// otherwise the repository root is the nearest directory holding `.git`,
/// and a summary names that root and the git directory resolved from its
/// `.git`, takes the branch from `HEAD` (detached exactly when there is
/// none), and is dirty exactly when some entry was counted.
pub proof fn lemma_git_detection(
    cwd: Seq<char>,
    p1: GitProbe,
    p2: GitProbe,
    obs: GitObservations,
    r: Result<Option<GitContext>, GitError>,
)
    requires
        git_detection_run(cwd, p1, p2, obs, r),
    ensures
        exists|start_is_dir: bool, dirs: Seq<Seq<char>>, found: Seq<bool>|
            #[trigger] repo_walk(repo_start(cwd, start_is_dir), dirs, found) && is_dir_answer(
                cwd,
                start_is_dir,
            ) && match first_found(dirs, found, 0) {
                None => r == Ok::<Option<GitContext>, GitError>(None),
                Some(root) => r != Ok::<Option<GitContext>, GitError>(None) && (r matches Ok(
                    Some(c),
                ) ==> {
                    &&& c.repo_root@ == root
                    &&& resolved_git_dir(root, c.git_dir@)
                    &&& obs.head matches Ok(h) && opt_view(c.branch) == head_branch(h@)
                    &&& c.detached <==> c.branch is None
                    &&& c.dirty <==> (c.staged + c.modified + c.untracked + c.conflicted > 0)
                }),
            },
{
    let (sd, dirs, found) = choose|sd: bool, dirs: Seq<Seq<char>>, found: Seq<bool>|
        #[trigger] repo_walk(repo_start(cwd, sd), dirs, found) && is_dir_answer(cwd, sd)
            && detect_start(dirs, found, p1);
    match first_found(dirs, found, 0) {
        None => {},
        Some(root) => {
            let (is_dir, is_file) = choose|is_dir: bool, is_file: bool|
                #[trigger] probe_after_root(root, is_dir, is_file, p1) && is_dir_answer(
                    join(root, ".git"@),
                    is_dir,
                ) && (is_dir || is_file_answer(join(root, ".git"@), is_file));
            if let GitProbe::ReadGitFile { repo_root, gitfile } = p1 {
                let c = choose|c: Result<String, String>| #[trigger] gitfile_read(
                    repo_root,
                    gitfile,
                    c,
                    p2,
                );
                if let Ok(text) = c {
                    if let GitProbe::Inspect { repo_root: root2, git_dir } = p2 {
                        assert(gitfile_target(root, text@) == Some(git_dir@));
                    }
                }
            }
        },
    }
    assert(repo_walk(repo_start(cwd, sd), dirs, found));
}

/// The counts read from a header `## <branch> [<body>]` whose branch text
/// has no `[`: those of the comma-separated parts of `body`.
proof fn lemma_header_body(branch: Seq<char>, body: Seq<char>, ahead: nat, behind: nat)
    requires
        forall|i: int| 0 <= i < branch.len() ==> #[trigger] branch[i] != '[',
    ensures
        header_counts("## "@ + branch + " ["@ + body + "]"@, ahead, behind) == parts_counts(
            split(body, Sep::Char(',')),
            ahead,
            behind,
        ),
{
    reveal_strlit("## ");
    reveal_strlit(" [");
    reveal_strlit("]");
    let line = "## "@ + branch + " ["@ + body + "]"@;
    let k: int = branch.len() as int + 4;
    assert(line[k] == '[');
    assert forall|j: int| 0 <= j < k implies #[trigger] line[j] != '[' by {
        if 3 <= j < 3 + branch.len() {
            assert(line[j] == branch[j - 3]);
        }
    }
    lemma_find_char_at(line, '[', k);
    assert(line.last() == ']');
    assert(rfind_char(line, ']') == Some(line.len() - 1));
    assert(line.subrange(k + 1, line.len() - 1) =~= body);
}

/// Digits are neither whitespace nor brackets nor commas.
proof fn lemma_digits_plain(d: Seq<char>)
    requires
        all_digits(d),
    ensures
        forall|i: int|
            0 <= i < d.len() ==> !is_ws(#[trigger] d[i]) && d[i] != ',' && d[i] != '[' && d[i]
                != ']',
{
    assert forall|i: int| 0 <= i < d.len() implies !is_ws(#[trigger] d[i]) && d[i] != ','
        && d[i] != '[' && d[i] != ']' by {
        assert(is_digit(d[i]));
    }
}

/// The part `<word> <n>` of a header, with `word` `ahead` or `behind`:
/// it is its own trim and carries the number `n`.
proof fn lemma_count_part(word: Seq<char>, n: nat)
    requires
        word == "ahead "@ || word == "behind "@,
        n <= usize::MAX,
    ensures
        trim(word + dec(n)) == word + dec(n),
        (word + dec(n)).subrange(word.len() as int, (word + dec(n)).len() as int) == dec(n),
        trim(dec(n)) == dec(n),
        parse_bounded(dec(n), usize::MAX as nat) == Some(n),
        starts_with(word + dec(n), word),
        word == "behind "@ ==> !starts_with(word + dec(n), "ahead "@),
        forall|i: int| 0 <= i < (word + dec(n)).len() ==> #[trigger] (word + dec(n))[i] != ',',
{
    reveal_strlit("ahead ");
    reveal_strlit("behind ");
    lemma_dec_parses(n, usize::MAX as nat);
    lemma_digits_plain(dec(n));
    let p = word + dec(n);
    lemma_trim_unchanged(p);
    lemma_trim_unchanged(dec(n));
    assert(p.subrange(word.len() as int, p.len() as int) =~= dec(n));
    assert(p.subrange(0, word.len() as int) =~= word);
    if word == "behind "@ {
        assert(p[0] == 'b');
    }
    assert forall|i: int| 0 <= i < p.len() implies #[trigger] p[i] != ',' by {
        if i >= word.len() {
            assert(p[i] == dec(n)[i - word.len()]);
        }
    }
}

/// A branch that is only behind its upstream (`## <branch>...<upstream>
/// [behind N]`, the branch text free of `[`) has its behind count set to
/// `N`, whatever was read before, and its ahead count left as it was; read
/// from a fresh start, the status is `N` behind and nothing ahead.
pub proof fn lemma_header_behind_only(branch: Seq<char>, n: nat, ahead: nat, behind: nat)
    requires
        forall|i: int| 0 <= i < branch.len() ==> #[trigger] branch[i] != '[',
        n <= usize::MAX,
    ensures
        header_counts("## "@ + branch + " [behind "@ + dec(n) + "]"@, ahead, behind) == (ahead, n),
        status_counters(seq!["## "@ + branch + " [behind "@ + dec(n) + "]"@]).behind == n,
        status_counters(seq!["## "@ + branch + " [behind "@ + dec(n) + "]"@]).ahead == 0,
{
    reveal_strlit(" [behind ");
    reveal_strlit(" [");
    reveal_strlit("behind ");
    reveal_strlit("## ");
    let body = "behind "@ + dec(n);
    let line = "## "@ + branch + " [behind "@ + dec(n) + "]"@;
    assert(line =~= "## "@ + branch + " ["@ + body + "]"@);
    lemma_count_part("behind "@, n);
    lemma_header_body(branch, body, ahead, behind);
    lemma_header_body(branch, body, 0, 0);
    lemma_split_without_sep(body, Sep::Char(','));
    assert(seq![body].drop_last() =~= Seq::<Seq<char>>::empty());
    assert(seq![body].last() == body);
    assert(parts_counts(Seq::<Seq<char>>::empty(), ahead, behind) == (ahead, behind));
    assert(parts_counts(seq![body], ahead, behind) == part_counts(body, ahead, behind));
    assert(parts_counts(Seq::<Seq<char>>::empty(), 0, 0) == (0nat, 0nat));
    assert(parts_counts(seq![body], 0, 0) == part_counts(body, 0, 0));
    assert(starts_with(line, "## "@)) by {
        assert(line.subrange(0, 3) =~= "## "@);
    }
    assert(seq![line].drop_last() =~= Seq::<Seq<char>>::empty());
    assert(seq![line].last() == line);
    assert(status_counters(Seq::<Seq<char>>::empty()) == zero_counters());
    assert(status_counters(seq![line]) == status_step(zero_counters(), line));
}

/// A branch that is only ahead of its upstream (`[ahead N]`) has its ahead
/// count set to `N` and its behind count left as it was.
pub proof fn lemma_header_ahead_only(branch: Seq<char>, n: nat, ahead: nat, behind: nat)
    requires
        forall|i: int| 0 <= i < branch.len() ==> #[trigger] branch[i] != '[',
        n <= usize::MAX,
    ensures
        header_counts("## "@ + branch + " [ahead "@ + dec(n) + "]"@, ahead, behind) == (n, behind),
{
    reveal_strlit(" [ahead ");
    reveal_strlit(" [");
    reveal_strlit("ahead ");
    let body = "ahead "@ + dec(n);
    assert("## "@ + branch + " [ahead "@ + dec(n) + "]"@ =~= "## "@ + branch + " ["@ + body
        + "]"@);
    lemma_count_part("ahead "@, n);
    lemma_header_body(branch, body, ahead, behind);
    lemma_split_without_sep(body, Sep::Char(','));
    assert(seq![body].drop_last() =~= Seq::<Seq<char>>::empty());
    assert(seq![body].last() == body);
    assert(parts_counts(Seq::<Seq<char>>::empty(), ahead, behind) == (ahead, behind));
    assert(parts_counts(seq![body], ahead, behind) == part_counts(body, ahead, behind));
}

/// A branch both ahead and behind (`[ahead A, behind B]`) gets both
/// counts, each from its own part.
pub proof fn lemma_header_ahead_and_behind(branch: Seq<char>, a: nat, b: nat, ahead: nat, behind: nat)
    requires
        forall|i: int| 0 <= i < branch.len() ==> #[trigger] branch[i] != '[',
        a <= usize::MAX,
        b <= usize::MAX,
    ensures
        header_counts(
            "## "@ + branch + " [ahead "@ + dec(a) + ", behind "@ + dec(b) + "]"@,
            ahead,
            behind,
        ) == (a, b),
{
    reveal_strlit(" [ahead ");
    reveal_strlit(", behind ");
    reveal_strlit(" [");
    reveal_strlit("ahead ");
    reveal_strlit("behind ");
    let p1 = "ahead "@ + dec(a);
    let p2 = "behind "@ + dec(b);
    let q2 = seq![' '] + p2;
    let body = p1 + seq![','] + q2;
    assert("## "@ + branch + " [ahead "@ + dec(a) + ", behind "@ + dec(b) + "]"@ =~= "## "@
        + branch + " ["@ + body + "]"@);
    lemma_count_part("ahead "@, a);
    lemma_count_part("behind "@, b);
    assert forall|i: int| 0 <= i < q2.len() implies #[trigger] q2[i] != ',' by {
        if i > 0 {
            assert(q2[i] == p2[i - 1]);
        }
    }
    lemma_split_at_one_sep(p1, q2, ',');
    lemma_header_body(branch, body, ahead, behind);
    assert(is_ws(q2[0]));
    assert(q2.drop_first() =~= p2);
    assert(trim_start(q2) == trim_start(p2));
    assert(trim(q2) == trim(p2));
    let parts = seq![p1, q2];
    assert(parts.drop_last() =~= seq![p1]);
    assert(seq![p1].drop_last() =~= Seq::<Seq<char>>::empty());
    assert(seq![p1].last() == p1);
    assert(parts_counts(Seq::<Seq<char>>::empty(), ahead, behind) == (ahead, behind));
    assert(parts_counts(seq![p1], ahead, behind) == part_counts(p1, ahead, behind));
    assert(part_counts(p1, ahead, behind) == (a, behind));
    assert(parts_counts(parts, ahead, behind) == part_counts(q2, a, behind));
}

} // verus!
