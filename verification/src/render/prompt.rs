//! The zsh prompt: one line of context (directory, git branch, command
//! duration) and a second line with the prompt symbol.
//!
//! Example text output (without colours):
//!   /home/me/repo △ feature * ◄ 842ms
//!   ◎
use vstd::prelude::*;
use crate::cache::{git_cached, GitCacheEntry, ProjectCacheEntry};
use crate::cli::PromptArgs;
use crate::config::Config;
use crate::detect::git::GitContext;
use crate::detect::project::{detect, detected, detection_run, detects, ProjectInfo};
use crate::paths::{join, join_path, spec_parent};
use crate::text::{
    concat, copy_str, dec, join_strings, join_with, opt_str, opt_view, push_all, push_decimal,
    to_chars, views,
};
use crate::theme::{nonblank, Theme};

verus! {

/// The prompt's content before colours are applied.
#[derive(Debug, Clone)]
pub struct PromptRenderModel {
    pub exit_code: i32,
    pub cwd: String,
    pub git_branch: Option<String>,
    pub git_dirty: bool,
    pub duration_ms: Option<u64>,
    pub show_duration: bool,
    pub duration_min_ms: u64,
    pub symbol: String,
    pub segments: Vec<String>,
    pub rendered: String,
}

/// What is known about the project around the working directory.
#[derive(Debug, Clone)]
pub struct ProjectContext {
    pub git: Option<GitContext>,
}

impl Default for ProjectContext {
    /// Nothing known.
    fn default() -> (r: Self)
        ensures
            r.git is None,
    {
        ProjectContext { git: None }
    }
}

/// The directory text: the working directory, or `.` when it is unknown.
pub open spec fn cwd_text(cwd: Option<Seq<char>>) -> Seq<char> {
    match cwd {
        Some(c) => c,
        None => "."@,
    }
}

/// The directory shown in the prompt.
pub fn render_cwd(cwd: Option<&str>, config: &Config) -> (r: String)
    ensures
        r@ == cwd_text(
            match cwd {
                Some(c) => Some(c@),
                None => None,
            },
        ),
{
    match cwd {
        Some(c) => copy_str(c),
        None => copy_str("."),
    }
}

/// The duration is shown: durations are enabled, one was given, and it is at
/// least the configured minimum.
pub open spec fn duration_visible(args: PromptArgs, config: Config) -> bool {
    config.prompt.show_duration && match args.duration_ms {
        Some(ms) => ms >= config.prompt.duration_min_ms,
        None => false,
    }
}

/// Tests whether the duration is shown.
pub fn should_show_duration(args: &PromptArgs, config: &Config) -> (r: bool)
    ensures
        r == duration_visible(*args, *config),
{
    if !config.prompt.show_duration {
        return false;
    }
    match args.duration_ms {
        Some(ms) => ms >= config.prompt.duration_min_ms,
        None => false,
    }
}

/// The duration segment text: `◄ <ms>ms`.
pub open spec fn duration_text(ms: u64) -> Seq<char> {
    "◄ "@ + dec(ms as nat) + "ms"@
}

fn render_duration(ms: u64) -> (r: String)
    ensures
        r@ == duration_text(ms),
{
    let mut s = copy_str("◄ ");
    push_decimal(&mut s, ms);
    push_all(&mut s, "ms");
    s
}

/// The git segment text: `△ <branch>`, with ` *` when dirty; none without a
/// branch.
pub open spec fn git_segment(project: ProjectContext) -> Option<Seq<char>> {
    match project.git {
        Some(g) => match g.branch {
            Some(b) => Some(
                "△ "@ + b@ + (if g.dirty {
                    " *"@
                } else {
                    seq![]
                }),
            ),
            None => None,
        },
        None => None,
    }
}

/// The git segment.
pub fn render_git_segment(project: &ProjectContext, config: &Config) -> (r: Option<String>)
    ensures
        opt_view(r) == git_segment(*project),
{
    let git = match &project.git {
        Some(g) => g,
        None => return None,
    };
    match &git.branch {
        Some(branch) => {
            let mut s = concat("△ ", branch);
            if git.dirty {
                push_all(&mut s, " *");
            }
            assert(s@ =~= git_segment(*project)->0);
            Some(s)
        },
        None => None,
    }
}

/// The success symbol: the theme's, or `◎`.
pub open spec fn success_symbol_of(theme: Theme) -> Seq<char> {
    match theme.prompt.success_symbol {
        Some(s) => s@,
        None => "◎"@,
    }
}

/// The error symbol: the theme's, or `○`.
pub open spec fn error_symbol_of(theme: Theme) -> Seq<char> {
    match theme.prompt.error_symbol {
        Some(s) => s@,
        None => "○"@,
    }
}

/// The symbol after a command with this exit code.
pub open spec fn symbol_of(theme: Theme, exit_code: i32) -> Seq<char> {
    if exit_code == 0 {
        success_symbol_of(theme)
    } else {
        error_symbol_of(theme)
    }
}

/// The prompt symbol after a successful command.
pub fn success_symbol(theme: &Theme) -> (r: String)
    ensures
        r@ == success_symbol_of(*theme),
{
    match &theme.prompt.success_symbol {
        Some(s) => copy_str(s),
        None => copy_str("◎"),
    }
}

/// The prompt symbol after a failed command.
pub fn error_symbol(theme: &Theme) -> (r: String)
    ensures
        r@ == error_symbol_of(*theme),
{
    match &theme.prompt.error_symbol {
        Some(s) => copy_str(s),
        None => copy_str("○"),
    }
}

/// The model's segments: the directory, the git segment when enabled and
/// known, and the duration when visible.
pub open spec fn model_segments(args: PromptArgs, config: Config, project: ProjectContext) -> Seq<Seq<char>> {
    let s0 = seq![cwd_text(opt_view(args.cwd))];
    let s1 = if config.prompt.show_git {
        match git_segment(project) {
            Some(g) => s0.push(g),
            None => s0,
        }
    } else {
        s0
    };
    if duration_visible(args, config) {
        s1.push(duration_text(args.duration_ms->0))
    } else {
        s1
    }
}

/// The model's text: the segments separated by spaces, a newline, the symbol.
pub open spec fn model_text(args: PromptArgs, config: Config, theme: Theme, project: ProjectContext) -> Seq<char> {
    join_with(model_segments(args, config, project), " "@) + "\n"@ + symbol_of(
        theme,
        args.exit_code,
    )
}

/// The branch of a git context, as a view.
pub open spec fn context_branch(project: ProjectContext) -> Option<Seq<char>> {
    match project.git {
        Some(g) => opt_view(g.branch),
        None => None,
    }
}

/// The dirty flag of a git context (false without one).
pub open spec fn context_dirty(project: ProjectContext) -> bool {
    match project.git {
        Some(g) => g.dirty,
        None => false,
    }
}

/// Builds the prompt model for a command's outcome.
pub fn render_model(args: &PromptArgs, config: &Config, theme: &Theme, project: &ProjectContext) -> (r: PromptRenderModel)
    ensures
        r.exit_code == args.exit_code,
        r.cwd@ == cwd_text(opt_view(args.cwd)),
        opt_view(r.git_branch) == context_branch(*project),
        r.git_dirty == context_dirty(*project),
        r.duration_ms == args.duration_ms,
        r.show_duration == duration_visible(*args, *config),
        r.duration_min_ms == config.prompt.duration_min_ms,
        r.symbol@ == symbol_of(*theme, args.exit_code),
        views(r.segments@) == model_segments(*args, *config, *project),
        r.rendered@ == model_text(*args, *config, *theme, *project),
{
    let cwd_ref = match &args.cwd {
        Some(c) => Some(c.as_str()),
        None => None,
    };
    let cwd = render_cwd(cwd_ref, config);
    let duration_visible = should_show_duration(args, config);
    let symbol = if args.exit_code == 0 {
        success_symbol(theme)
    } else {
        error_symbol(theme)
    };
    let mut segments: Vec<String> = Vec::new();
    segments.push(copy_str(&cwd));
    let ghost s0 = views(segments@);
    if config.prompt.show_git {
        if let Some(git_segment) = render_git_segment(project, config) {
            segments.push(git_segment);
            assert(views(segments@) =~= s0.push(segments@.last()@));
        }
    }
    let ghost s1 = views(segments@);
    if duration_visible {
        if let Some(duration_ms) = args.duration_ms {
            segments.push(render_duration(duration_ms));
            assert(views(segments@) =~= s1.push(segments@.last()@));
        }
    }
    assert(views(segments@) =~= model_segments(*args, *config, *project));
    let mut rendered = join_strings(&segments, " ");
    rendered.push('\n');
    push_all(&mut rendered, &symbol);
    assert(rendered@ =~= model_text(*args, *config, *theme, *project)) by {
        reveal_strlit("\n");
    }
    let git_branch = match &project.git {
        Some(g) => match &g.branch {
            Some(b) => Some(copy_str(b)),
            None => None,
        },
        None => None,
    };
    let git_dirty = match &project.git {
        Some(g) => g.dirty,
        None => false,
    };
    PromptRenderModel {
        exit_code: args.exit_code,
        cwd,
        git_branch,
        git_dirty,
        duration_ms: args.duration_ms,
        show_duration: duration_visible,
        duration_min_ms: config.prompt.duration_min_ms,
        symbol,
        segments,
        rendered,
    }
}

// ---------------------------------------------------------------------------
// Colours and escaping
// ---------------------------------------------------------------------------
/// The zsh prompt text for one character: `%` doubles; `\`, `$` and a
/// backquote become a parameter expansion that yields the character itself,
/// so `prompt_subst` cannot run anything.
pub open spec fn escape_char(c: char) -> Seq<char> {
    if c == '%' {
        "%%"@
    } else if c == '\\' {
        "${:-\\\\}"@
    } else if c == '$' {
        "${:-\\$}"@
    } else if c == '`' {
        "${:-\\`}"@
    } else {
        seq![c]
    }
}

/// The zsh prompt text for `s`.
pub open spec fn escape(s: Seq<char>) -> Seq<char>
    decreases s.len(),
{
    if s.len() == 0 {
        seq![]
    } else {
        escape(s.drop_last()) + escape_char(s.last())
    }
}

/// Escapes `text` for a zsh prompt with `prompt_subst` set.
pub fn escape_prompt_text(text: &str) -> (r: String)
    ensures
        r@ == escape(text@),
{
    let v = to_chars(text);
    let mut escaped = String::new();
    let mut i: usize = 0;
    while i < v.len()
        invariant
            0 <= i <= v@.len(),
            v@ == text@,
            escaped@ == escape(v@.subrange(0, i as int)),
        decreases v@.len() - i,
    {
        let ch = v[i];
        assert(v@.subrange(0, i + 1).drop_last() =~= v@.subrange(0, i as int));
        assert(v@.subrange(0, i + 1).last() == ch);
        if ch == '%' {
            push_all(&mut escaped, "%%");
        } else if ch == '\\' {
            push_all(&mut escaped, "${:-\\\\}");
        } else if ch == '$' {
            push_all(&mut escaped, "${:-\\$}");
        } else if ch == '`' {
            push_all(&mut escaped, "${:-\\`}");
        } else {
            escaped.push(ch);
        }
        i = i + 1;
    }
    assert(v@.subrange(0, v@.len() as int) =~= v@);
    escaped
}

/// The value trimmed, unless it is blank.
pub fn non_empty(value: &str) -> (r: Option<String>)
    ensures
        opt_view(r) == nonblank(value@),
{
    crate::theme::non_empty(value)
}

/// `text` escaped and, when a non-blank colour is given, wrapped in
/// `%F{<colour>}` ... `%f`.
pub open spec fn painted(text: Seq<char>, color: Option<Seq<char>>) -> Seq<char> {
    let escaped = escape(text);
    match color {
        Some(c) => match nonblank(c) {
            Some(t) => "%F{"@ + t + "}"@ + escaped + "%f"@,
            None => escaped,
        },
        None => escaped,
    }
}

/// Escapes `text` and colours it.
pub fn paint(text: &str, color: Option<&str>) -> (r: String)
    ensures
        r@ == painted(text@, opt_str(color)),
{
    let escaped = escape_prompt_text(text);
    let c = match color {
        Some(c) => non_empty(c),
        None => None,
    };
    match c {
        Some(color) => {
            let mut s = concat("%F{", &color);
            push_all(&mut s, "}");
            push_all(&mut s, &escaped);
            push_all(&mut s, "%f");
            s
        },
        None => escaped,
    }
}

/// The first of two optional colours that is given.
pub open spec fn or_color(a: Option<Seq<char>>, b: Option<Seq<char>>) -> Option<Seq<char>> {
    match a {
        Some(x) => Some(x),
        None => b,
    }
}

fn pick<'a>(a: &'a Option<String>, b: Option<&'a str>) -> (r: Option<&'a str>)
    ensures
        opt_str(r) == or_color(opt_view(*a), opt_str(b)),
{
    match a {
        Some(x) => Some(x.as_str()),
        None => b,
    }
}

/// The directory colour: `prompt.directory`, then `tmux.segment_info_bg`,
/// then `base.fg`.
pub open spec fn directory_color(t: Theme) -> Option<Seq<char>> {
    or_color(
        opt_view(t.prompt.directory),
        or_color(opt_view(t.tmux.segment_info_bg), opt_view(t.base.fg)),
    )
}

/// The branch colour: `prompt.branch`, `tmux.segment_info_fg`, `prompt.repo`,
/// `tmux.segment_info_bg`, then `base.fg`.
pub open spec fn branch_color(t: Theme) -> Option<Seq<char>> {
    or_color(
        opt_view(t.prompt.branch),
        or_color(
            opt_view(t.tmux.segment_info_fg),
            or_color(
                opt_view(t.prompt.repo),
                or_color(opt_view(t.tmux.segment_info_bg), opt_view(t.base.fg)),
            ),
        ),
    )
}

/// The git marker colour: `prompt.repo`, `tmux.segment_info_bg`, then
/// `base.fg`.
pub open spec fn git_marker_color(t: Theme) -> Option<Seq<char>> {
    or_color(
        opt_view(t.prompt.repo),
        or_color(opt_view(t.tmux.segment_info_bg), opt_view(t.base.fg)),
    )
}

/// The dirty marker colour: `prompt.dirty`, `semantic.warn`,
/// `tmux.segment_warn_bg`, then `base.fg`.
pub open spec fn dirty_color(t: Theme) -> Option<Seq<char>> {
    or_color(
        opt_view(t.prompt.dirty),
        or_color(
            opt_view(t.semantic.warn),
            or_color(opt_view(t.tmux.segment_warn_bg), opt_view(t.base.fg)),
        ),
    )
}

/// The duration colour: `prompt.duration`, `tmux.segment_time_bg`, then
/// `semantic.warn`.
pub open spec fn duration_color(t: Theme) -> Option<Seq<char>> {
    or_color(
        opt_view(t.prompt.duration),
        or_color(opt_view(t.tmux.segment_time_bg), opt_view(t.semantic.warn)),
    )
}

/// The symbol colour: `prompt.symbol`; otherwise, after success,
/// `prompt.status_ok`, `tmux.segment_info_bg`, `semantic.ok`, and after a
/// failure `prompt.status_error`, `tmux.segment_error_bg`, `semantic.error`.
pub open spec fn symbol_color(t: Theme, exit_code: i32) -> Option<Seq<char>> {
    or_color(
        opt_view(t.prompt.symbol),
        if exit_code == 0 {
            or_color(
                opt_view(t.prompt.status_ok),
                or_color(opt_view(t.tmux.segment_info_bg), opt_view(t.semantic.ok)),
            )
        } else {
            or_color(
                opt_view(t.prompt.status_error),
                or_color(opt_view(t.tmux.segment_error_bg), opt_view(t.semantic.error)),
            )
        },
    )
}

fn opt_as_str(o: &Option<String>) -> (r: Option<&str>)
    ensures
        opt_str(r) == opt_view(*o),
{
    match o {
        Some(s) => Some(s.as_str()),
        None => None,
    }
}

/// The directory colour.
pub fn prompt_directory_color(theme: &Theme) -> (r: Option<&str>)
    ensures
        opt_str(r) == directory_color(*theme),
{
    pick(&theme.prompt.directory, pick(&theme.tmux.segment_info_bg, opt_as_str(&theme.base.fg)))
}

/// The branch colour.
pub fn prompt_branch_color(theme: &Theme) -> (r: Option<&str>)
    ensures
        opt_str(r) == branch_color(*theme),
{
    pick(
        &theme.prompt.branch,
        pick(
            &theme.tmux.segment_info_fg,
            pick(
                &theme.prompt.repo,
                pick(&theme.tmux.segment_info_bg, opt_as_str(&theme.base.fg)),
            ),
        ),
    )
}

/// The git marker colour.
pub fn prompt_git_marker_color(theme: &Theme) -> (r: Option<&str>)
    ensures
        opt_str(r) == git_marker_color(*theme),
{
    pick(&theme.prompt.repo, pick(&theme.tmux.segment_info_bg, opt_as_str(&theme.base.fg)))
}

/// The dirty marker colour.
pub fn prompt_dirty_color(theme: &Theme) -> (r: Option<&str>)
    ensures
        opt_str(r) == dirty_color(*theme),
{
    pick(
        &theme.prompt.dirty,
        pick(
            &theme.semantic.warn,
            pick(&theme.tmux.segment_warn_bg, opt_as_str(&theme.base.fg)),
        ),
    )
}

/// The duration colour.
pub fn prompt_duration_color(theme: &Theme) -> (r: Option<&str>)
    ensures
        opt_str(r) == duration_color(*theme),
{
    pick(
        &theme.prompt.duration,
        pick(&theme.tmux.segment_time_bg, opt_as_str(&theme.semantic.warn)),
    )
}

/// The symbol colour after a command with this exit code.
pub fn prompt_symbol_color(theme: &Theme, exit_code: i32) -> (r: Option<&str>)
    ensures
        opt_str(r) == symbol_color(*theme, exit_code),
{
    let fallback = if exit_code == 0 {
        pick(
            &theme.prompt.status_ok,
            pick(&theme.tmux.segment_info_bg, opt_as_str(&theme.semantic.ok)),
        )
    } else {
        pick(
            &theme.prompt.status_error,
            pick(&theme.tmux.segment_error_bg, opt_as_str(&theme.semantic.error)),
        )
    };
    pick(&theme.prompt.symbol, fallback)
}

/// The coloured git segment: the marker `△`, the branch and, when dirty, `*`,
/// each in its colour, separated by spaces.
pub open spec fn painted_git(theme: Theme, branch: Seq<char>, dirty: bool) -> Seq<char> {
    let parts = seq![painted("△"@, git_marker_color(theme)), painted(branch, branch_color(theme))];
    join_with(
        if dirty {
            parts.push(painted("*"@, dirty_color(theme)))
        } else {
            parts
        },
        " "@,
    )
}

/// The coloured segments: the directory; the git segment when enabled and a
/// branch is known; the duration when visible.
pub open spec fn text_segments(args: PromptArgs, config: Config, theme: Theme, project: ProjectContext) -> Seq<Seq<char>> {
    let s0 = seq![painted(cwd_text(opt_view(args.cwd)), directory_color(theme))];
    let s1 = if config.prompt.show_git {
        match context_branch(project) {
            Some(b) => s0.push(painted_git(theme, b, context_dirty(project))),
            None => s0,
        }
    } else {
        s0
    };
    if duration_visible(args, config) {
        s1.push(painted(duration_text(args.duration_ms->0), duration_color(theme)))
    } else {
        s1
    }
}

/// The prompt text: the coloured segments separated by spaces, a newline,
/// and the coloured symbol.
pub open spec fn prompt_text(args: PromptArgs, config: Config, theme: Theme, project: ProjectContext) -> Seq<char> {
    join_with(text_segments(args, config, theme, project), " "@) + "\n"@ + painted(
        symbol_of(theme, args.exit_code),
        symbol_color(theme, args.exit_code),
    )
}

/// Renders the prompt with colours.
pub fn render_text(args: &PromptArgs, config: &Config, theme: &Theme, project: &ProjectContext) -> (r: String)
    ensures
        r@ == prompt_text(*args, *config, *theme, *project),
{
    let model = render_model(args, config, theme, project);
    let mut segments: Vec<String> = Vec::new();
    segments.push(paint(&model.cwd, prompt_directory_color(theme)));
    let ghost s0 = views(segments@);
    if config.prompt.show_git {
        if let Some(branch) = &model.git_branch {
            let mut git_segment: Vec<String> = Vec::new();
            git_segment.push(paint("△", prompt_git_marker_color(theme)));
            git_segment.push(paint(branch, prompt_branch_color(theme)));
            let ghost parts = seq![
                painted("△"@, git_marker_color(*theme)),
                painted(branch@, branch_color(*theme)),
            ];
            assert(views(git_segment@) =~= parts);
            if model.git_dirty {
                git_segment.push(paint("*", prompt_dirty_color(theme)));
                assert(views(git_segment@) =~= parts.push(painted("*"@, dirty_color(*theme))));
            }
            let joined = join_strings(&git_segment, " ");
            assert(joined@ == painted_git(*theme, branch@, context_dirty(*project)));
            segments.push(joined);
            assert(views(segments@) =~= s0.push(segments@.last()@));
        }
    }
    let ghost s1 = views(segments@);
    if model.show_duration {
        if let Some(duration_ms) = model.duration_ms {
            let d = render_duration(duration_ms);
            segments.push(paint(&d, prompt_duration_color(theme)));
            assert(views(segments@) =~= s1.push(segments@.last()@));
        }
    }
    assert(views(segments@) =~= text_segments(*args, *config, *theme, *project));
    let mut rendered = join_strings(&segments, " ");
    rendered.push('\n');
    let sym = paint(&model.symbol, prompt_symbol_color(theme, model.exit_code));
    push_all(&mut rendered, &sym);
    assert(rendered@ =~= prompt_text(*args, *config, *theme, *project)) by {
        reveal_strlit("\n");
    }
    rendered
}

/// Renders the prompt.
pub fn render(args: &PromptArgs, config: &Config, theme: &Theme, project: &ProjectContext) -> (r: String)
    ensures
        r@ == prompt_text(*args, *config, *theme, *project),
{
    render_text(args, config, theme, project)
}

/// `r` carries the branch and dirty flag cached in `c`.
pub open spec fn carries_cached_git(c: GitCacheEntry, r: GitContext) -> bool {
    opt_view(r.branch) == opt_view(c.branch) && r.dirty == c.dirty
}

/// The git context rebuilt from a cached summary: the branch and dirty flag
/// from the cache, the repository root from project detection (the working
/// directory when there is no project), and nothing else.
pub fn git_from_cache(cwd: &str, cached: &GitCacheEntry) -> (r: GitContext)
    ensures
        (exists|info: ProjectInfo|
            #[trigger] detects(cwd@, info) && detected(cwd@, None, true, info) && r.repo_root@
                == info.root@) || (spec_parent(cwd@) is None && r.repo_root@ == cwd@),
        r.git_dir@ == join(r.repo_root@, ".git"@),
        carries_cached_git(*cached, r),
        r.head_oid_short is None,
        r.staged == 0 && r.modified == 0 && r.untracked == 0 && r.conflicted == 0,
        r.ahead == 0 && r.behind == 0,
        !r.detached,
        r.head_mtime is None && r.index_mtime is None,
{
    let found = detect(cwd);
    let repo_root = match found {
        Some(info) => {
            assert(detects(cwd@, info)) by {
                let (d, dirs, marks) = choose|
                    d: bool,
                    dirs: Seq<Seq<char>>,
                    marks: Seq<Seq<bool>>,
                |
                    #[trigger] detection_run(cwd@, None, true, d, dirs, marks, found);
                assert(detection_run(cwd@, None, true, d, dirs, marks, Some(info)));
            }
            info.root
        },
        None => copy_str(cwd),
    };
    let git_dir = join_path(&repo_root, ".git");
    GitContext {
        repo_root,
        git_dir,
        branch: match &cached.branch {
            Some(b) => Some(copy_str(b)),
            None => None,
        },
        dirty: cached.dirty,
        head_oid_short: None,
        staged: 0,
        modified: 0,
        untracked: 0,
        conflicted: 0,
        ahead: 0,
        behind: 0,
        detached: false,
        head_mtime: None,
        index_mtime: None,
    }
}

/// The project context carried by a cached project entry: its git summary,
/// when it has one, rebuilt for `cwd`.
pub fn project_context_from_entry(cwd: &str, entry: &ProjectCacheEntry) -> (r: ProjectContext)
    ensures
        r.git is Some <==> entry.git is Some,
        r.git matches Some(g) ==> carries_cached_git(entry.git->0, g),
{
    match &entry.git {
        Some(cached) => ProjectContext { git: Some(git_from_cache(cwd, cached)) },
        None => ProjectContext { git: None },
    }
}

// ---------------------------------------------------------------------------
// Laws of escaping and of the prompt's segments
// ---------------------------------------------------------------------------
/// The characters that escaping rewrites.
pub open spec fn is_prompt_special(c: char) -> bool {
    c == '%' || c == '\\' || c == '$' || c == '`'
}

/// Escaping works character by character: escaping a concatenation is the
/// concatenation of the escaped parts.
pub proof fn lemma_escape_concat(a: Seq<char>, b: Seq<char>)
    ensures
        escape(a + b) == escape(a) + escape(b),
    decreases b.len(),
{
    if b.len() == 0 {
        assert(a + b =~= a);
        assert(escape(a) + escape(b) =~= escape(a));
    } else {
        lemma_escape_concat(a, b.drop_last());
        assert((a + b).drop_last() =~= a + b.drop_last());
        assert((a + b).last() == b.last());
        assert(escape(a + b) =~= escape(a) + escape(b));
    }
}

/// Text without `%`, `\\`, `$` or a backquote is left as it is.
pub proof fn lemma_escape_plain(s: Seq<char>)
    requires
        forall|i: int| 0 <= i < s.len() ==> !is_prompt_special(#[trigger] s[i]),
    ensures
        escape(s) == s,
    decreases s.len(),
{
    if s.len() > 0 {
        lemma_escape_plain(s.drop_last());
        assert(!is_prompt_special(s[s.len() - 1]));
        assert(s.drop_last() + seq![s.last()] =~= s);
    }
}

/// Nothing in `t` can start a command substitution or an expansion of
/// its own: every backquote follows a backslash, and every `$` follows a
/// backslash or opens `${`.
pub open spec fn inert(t: Seq<char>) -> bool {
    &&& forall|i: int| 0 <= i < t.len() && #[trigger] t[i] == '`' ==> i > 0 && t[i - 1] == '\\'
    &&& forall|i: int|
        0 <= i < t.len() && #[trigger] t[i] == '$' ==> (i > 0 && t[i - 1] == '\\') || (i + 1
            < t.len() && t[i + 1] == '{')
}

proof fn lemma_inert_concat(t: Seq<char>, u: Seq<char>)
    requires
        inert(t),
        inert(u),
    ensures
        inert(t + u),
{
    let w = t + u;
    assert forall|i: int| 0 <= i < w.len() && #[trigger] w[i] == '`' implies i > 0 && w[i - 1]
        == '\\' by {
        if i < t.len() {
            assert(w[i] == t[i]);
            assert(w[i - 1] == t[i - 1]);
        } else {
            assert(w[i] == u[i - t.len()]);
            assert(w[i - 1] == u[i - t.len() - 1]);
        }
    }
    assert forall|i: int| 0 <= i < w.len() && #[trigger] w[i] == '$' implies (i > 0 && w[i - 1]
        == '\\') || (i + 1 < w.len() && w[i + 1] == '{') by {
        if i < t.len() {
            assert(w[i] == t[i]);
            if i > 0 {
                assert(w[i - 1] == t[i - 1]);
            }
            if i + 1 < t.len() {
                assert(w[i + 1] == t[i + 1]);
            }
        } else {
            let j = i - t.len();
            assert(w[i] == u[j]);
            if j > 0 {
                assert(w[i - 1] == u[j - 1]);
            }
            if j + 1 < u.len() {
                assert(w[i + 1] == u[j + 1]);
            }
        }
    }
}

proof fn lemma_escape_char_inert(c: char)
    ensures
        inert(escape_char(c)),
{
    reveal_strlit("%%");
    reveal_strlit("${:-\\\\}");
    reveal_strlit("${:-\\$}");
    reveal_strlit("${:-\\`}");
    let e = escape_char(c);
    if c == '$' || c == '`' || c == '\\' {
        assert(e[0] == '$' && e[1] == '{');
        assert(e[5] == c || e[4] == '\\');
    }
    assert forall|i: int| 0 <= i < e.len() && #[trigger] e[i] == '`' implies i > 0 && e[i - 1]
        == '\\' by {}
    assert forall|i: int| 0 <= i < e.len() && #[trigger] e[i] == '$' implies (i > 0 && e[i - 1]
        == '\\') || (i + 1 < e.len() && e[i + 1] == '{') by {}
}

/// Escaped text is inert under `prompt_subst`: whatever the input, no
/// backquote and no `$` in the output can run a command or expand a
/// parameter other than the ones the escaping writes.
pub proof fn lemma_escape_inert(s: Seq<char>)
    ensures
        inert(escape(s)),
    decreases s.len(),
{
    if s.len() > 0 {
        lemma_escape_inert(s.drop_last());
        lemma_escape_char_inert(s.last());
        lemma_inert_concat(escape(s.drop_last()), escape_char(s.last()));
    }
}

/// A duration that is not shown (durations disabled, or below the minimum)
/// leaves the prompt exactly as without a duration.
pub proof fn lemma_hidden_duration_changes_nothing(
    args: PromptArgs,
    config: Config,
    theme: Theme,
    project: ProjectContext,
)
    requires
        !duration_visible(args, config),
    ensures
        prompt_text(args, config, theme, project) == prompt_text(
            PromptArgs { duration_ms: None, ..args },
            config,
            theme,
            project,
        ),
{
    let bare = PromptArgs { duration_ms: None, ..args };
    assert(text_segments(args, config, theme, project) =~= text_segments(
        bare,
        config,
        theme,
        project,
    ));
}

/// With `show_git` off the prompt does not depend on the git context.
pub proof fn lemma_git_hidden_when_disabled(
    args: PromptArgs,
    config: Config,
    theme: Theme,
    project: ProjectContext,
)
    requires
        !config.prompt.show_git,
    ensures
        prompt_text(args, config, theme, project) == prompt_text(
            args,
            config,
            theme,
            ProjectContext { git: None },
        ),
{
    assert(text_segments(args, config, theme, project) =~= text_segments(
        args,
        config,
        theme,
        ProjectContext { git: None },
    ));
}

/// What the prompt shows of a cached git summary is what was cached: a git
/// context stored by `ProjectCacheEntry::with_git` and rebuilt by
/// `git_from_cache` keeps its branch and dirty flag.
pub proof fn lemma_cached_git_round_trip(g: GitContext, c: GitCacheEntry, r: GitContext)
    requires
        git_cached(g, c),
        carries_cached_git(c, r),
    ensures
        opt_view(r.branch) == opt_view(g.branch),
        r.dirty == g.dirty,
{
}

/// The prompt's last line is the symbol painted by the exit status: a
/// configured `prompt.symbol` colour whatever the status; otherwise, after
/// exit code 0, the first of `prompt.status_ok`, `tmux.segment_info_bg`,
/// `semantic.ok` that is set, and after any other exit code the first of
/// `prompt.status_error`, `tmux.segment_error_bg`, `semantic.error`.
pub proof fn lemma_symbol_colour_follows_exit_code(
    args: PromptArgs,
    config: Config,
    theme: Theme,
    project: ProjectContext,
)
    ensures
        ({
            let head = join_with(text_segments(args, config, theme, project), " "@) + "\n"@;
            let sym = symbol_of(theme, args.exit_code);
            let text = prompt_text(args, config, theme, project);
            &&& theme.prompt.symbol matches Some(c) ==> text == head + painted(sym, Some(c@))
            &&& theme.prompt.symbol is None && args.exit_code == 0 ==> text == head + painted(
                sym,
                match (theme.prompt.status_ok, theme.tmux.segment_info_bg, theme.semantic.ok) {
                    (Some(c), _, _) => Some(c@),
                    (None, Some(c), _) => Some(c@),
                    (None, None, Some(c)) => Some(c@),
                    (None, None, None) => None,
                },
            )
            &&& theme.prompt.symbol is None && args.exit_code != 0 ==> text == head + painted(
                sym,
                match (
                    theme.prompt.status_error,
                    theme.tmux.segment_error_bg,
                    theme.semantic.error,
                ) {
                    (Some(c), _, _) => Some(c@),
                    (None, Some(c), _) => Some(c@),
                    (None, None, Some(c)) => Some(c@),
                    (None, None, None) => None,
                },
            )
        }),
{
}

} // verus!
