use jetctx::cache::ProjectCacheEntry;
use jetctx::cli::{OutputFormat, PromptArgs};
use jetctx::config::Config;
use jetctx::detect::git::GitContext;
use jetctx::render::prompt::{
    escape_prompt_text, paint, project_context_from_entry, render, ProjectContext,
};
use jetctx::render::tmux::{
    battery_style, human_bytes, join_segments, render as render_tmux, style_segment, TmuxContext,
    TmuxTarget,
};
use jetctx::theme::{PromptPalette, Theme, TmuxPalette};

fn reference_human(bytes: u64) -> String {
    const KIB: f64 = 1024.0;
    const MIB: f64 = KIB * 1024.0;
    const GIB: f64 = MIB * 1024.0;
    let b = bytes as f64;
    if b >= GIB {
        format!("{:.1}G", b / GIB)
    } else if b >= MIB {
        format!("{:.1}M", b / MIB)
    } else if b >= KIB {
        format!("{:.1}K", b / KIB)
    } else {
        format!("{bytes}B")
    }
}

#[test]
fn human_bytes_matches_float_formatting() {
    let mut values: Vec<u64> = (0..5000).collect();
    for shift in 0..64 {
        let p = 1u64 << shift;
        values.extend([p - 1, p, p + 1, p + p / 2, p + p / 4, p + p / 8]);
    }
    // Exact ties at one decimal place: 1.25, 1.75, 2.25 of each unit.
    for unit in [1u64 << 10, 1 << 20, 1 << 30, 1 << 40] {
        for q in [5u64, 7, 9, 21, 41, 83] {
            values.push(unit * q / 4);
            values.push(unit * q / 4 + 1);
            values.push(unit * q / 4 - 1);
        }
        values.push(unit * 20 - unit / 20);
    }
    let mut x: u64 = 0x9e37_79b9_7f4a_7c15;
    for _ in 0..20000 {
        x ^= x << 13;
        x ^= x >> 7;
        x ^= x << 17;
        values.push(x >> (x % 64));
    }
    values.push(u64::MAX);
    for v in values {
        assert_eq!(human_bytes(v), reference_human(v), "bytes {v}");
    }
}

#[test]
fn human_bytes_examples() {
    assert_eq!(human_bytes(512), "512B");
    assert_eq!(human_bytes(1536), "1.5K");
    assert_eq!(human_bytes(512 * 1024 * 1024), "512.0M");
    assert_eq!(human_bytes(8 * 1024 * 1024 * 1024), "8.0G");
}

#[test]
fn style_segment_cases() {
    assert_eq!(style_segment("", Some("#000"), Some("#fff")), "");
    assert_eq!(style_segment("x", None, None), "x");
    assert_eq!(style_segment("x", Some("  "), None), "x");
    assert_eq!(style_segment("x", Some(" #111 "), None), "#[bg=#111] x #[default]");
    assert_eq!(style_segment("x", None, Some("#222")), "#[fg=#222] x #[default]");
    assert_eq!(
        style_segment("x", Some("#111"), Some("#222")),
        "#[bg=#111,fg=#222] x #[default]"
    );
}

#[test]
fn join_segments_drops_empty_ones() {
    let segs = vec![String::new(), "a".to_string(), String::new(), "b".to_string()];
    assert_eq!(join_segments(segs), "a b");
    assert_eq!(join_segments(Vec::new()), "");
}

fn palette() -> TmuxPalette {
    TmuxPalette {
        segment_info_bg: Some("i".to_string()),
        segment_info_fg: Some("I".to_string()),
        segment_warn_bg: Some("w".to_string()),
        segment_warn_fg: Some("W".to_string()),
        segment_error_bg: Some("e".to_string()),
        segment_error_fg: Some("E".to_string()),
        segment_time_bg: None,
        segment_time_fg: None,
    }
}

#[test]
fn battery_thresholds_are_inclusive() {
    let p = palette();
    assert_eq!(battery_style(Some(0), &p), (Some("e"), Some("E")));
    assert_eq!(battery_style(Some(20), &p), (Some("e"), Some("E")));
    assert_eq!(battery_style(Some(21), &p), (Some("w"), Some("W")));
    assert_eq!(battery_style(Some(60), &p), (Some("w"), Some("W")));
    assert_eq!(battery_style(Some(61), &p), (Some("i"), Some("I")));
    assert_eq!(battery_style(None, &p), (Some("i"), Some("I")));
}

#[test]
fn tmux_memory_hidden_without_total_or_when_disabled() {
    let theme = Theme {
        name: "flat".to_string(),
        base: Default::default(),
        semantic: Default::default(),
        prompt: Default::default(),
        tmux: Default::default(),
    };
    let context = TmuxContext {
        battery_percent: None,
        memory_used_bytes: Some(1),
        memory_total_bytes: Some(0),
        time_label: Some("  ".to_string()),
    };
    assert_eq!(render_tmux(TmuxTarget::Right, &context, &Config::default(), &theme), "");

    let context = TmuxContext {
        battery_percent: None,
        memory_used_bytes: Some(1024),
        memory_total_bytes: Some(2048),
        time_label: None,
    };
    assert_eq!(
        render_tmux(TmuxTarget::Right, &context, &Config::default(), &theme),
        "MEM 1.0K/2.0K"
    );
    let mut config = Config::default();
    config.tmux.show_memory = false;
    assert_eq!(render_tmux(TmuxTarget::Right, &context, &config, &theme), "");
}

#[test]
fn escaping_is_per_character() {
    let a = "50% $HOME";
    let b = "`id` \\n";
    assert_eq!(
        escape_prompt_text(&format!("{a}{b}")),
        format!("{}{}", escape_prompt_text(a), escape_prompt_text(b))
    );
    assert_eq!(escape_prompt_text("%"), "%%");
    assert_eq!(escape_prompt_text(""), "");
}

#[test]
fn paint_wraps_only_with_a_colour() {
    assert_eq!(paint("a%", None), "a%%");
    assert_eq!(paint("a", Some("   ")), "a");
    assert_eq!(paint("a", Some(" blue ")), "%F{blue}a%f");
}

fn git_context(branch: Option<&str>, dirty: bool) -> GitContext {
    GitContext {
        repo_root: "/repo".to_string(),
        git_dir: "/repo/.git".to_string(),
        branch: branch.map(|b| b.to_string()),
        head_oid_short: None,
        dirty,
        staged: 0,
        modified: 0,
        untracked: 0,
        conflicted: 0,
        ahead: 0,
        behind: 0,
        detached: branch.is_none(),
        head_mtime: None,
        index_mtime: None,
    }
}

fn coloured_theme() -> Theme {
    Theme {
        name: "c".to_string(),
        base: Default::default(),
        semantic: Default::default(),
        prompt: PromptPalette {
            directory: Some("d".to_string()),
            repo: Some("r".to_string()),
            branch: Some("b".to_string()),
            dirty: Some("y".to_string()),
            duration: Some("t".to_string()),
            symbol: Some("s".to_string()),
            ..Default::default()
        },
        tmux: Default::default(),
    }
}

#[test]
fn prompt_with_git_and_colours() {
    let args = PromptArgs {
        cwd: Some("/repo".to_string()),
        exit_code: 0,
        duration_ms: Some(842),
        format: OutputFormat::Text,
    };
    let project = ProjectContext { git: Some(git_context(Some("feat/x"), true)) };
    let rendered = render(&args, &Config::default(), &coloured_theme(), &project);
    assert_eq!(
        rendered,
        "%F{d}/repo%f %F{r}△%f %F{b}feat/x%f %F{y}*%f %F{t}◄ 842ms%f\n%F{s}◎%f"
    );
}

#[test]
fn prompt_hides_git_when_disabled_and_without_branch() {
    let args = PromptArgs {
        cwd: None,
        exit_code: 2,
        duration_ms: None,
        format: OutputFormat::Text,
    };
    let theme = Theme {
        name: "plain".to_string(),
        base: Default::default(),
        semantic: Default::default(),
        prompt: Default::default(),
        tmux: Default::default(),
    };
    let project = ProjectContext { git: Some(git_context(Some("main"), false)) };
    let mut config = Config::default();
    assert_eq!(render(&args, &config, &theme, &project), ". △ main\n○");
    config.prompt.show_git = false;
    assert_eq!(render(&args, &config, &theme, &project), ".\n○");
    let detached = ProjectContext { git: Some(git_context(None, true)) };
    assert_eq!(render(&args, &Config::default(), &theme, &detached), ".\n○");
}

#[test]
fn prompt_duration_threshold_is_inclusive() {
    let mut args = PromptArgs {
        cwd: Some("~".to_string()),
        exit_code: 0,
        duration_ms: Some(400),
        format: OutputFormat::Text,
    };
    let theme = Theme {
        name: "plain".to_string(),
        base: Default::default(),
        semantic: Default::default(),
        prompt: Default::default(),
        tmux: Default::default(),
    };
    let config = Config::default();
    let none = ProjectContext::default();
    assert_eq!(render(&args, &config, &theme, &none), "~ ◄ 400ms\n◎");
    args.duration_ms = Some(399);
    assert_eq!(render(&args, &config, &theme, &none), "~\n◎");
}

#[test]
fn cached_git_summary_reaches_the_prompt() {
    let entry = ProjectCacheEntry {
        version: 1,
        updated_at_epoch_secs: 0,
        cwd: "/definitely/not/a/jetctx/dir".to_string(),
        root: "/definitely/not/a/jetctx/dir".to_string(),
        project_name: "dir".to_string(),
        project_kind: "git".to_string(),
        markers: Vec::new(),
        git: None,
    }
    .with_git(Some(git_context(Some("feature/deep"), true)));
    let context = project_context_from_entry("/definitely/not/a/jetctx/dir", &entry);
    let git = context.git.expect("the entry has git data");
    assert_eq!(git.branch, Some("feature/deep".to_string()));
    assert!(git.dirty);
    assert_eq!(git.staged, 0);
    assert!(!git.detached);

    let without = project_context_from_entry("/x", &ProjectCacheEntry { git: None, ..entry });
    assert!(without.git.is_none());
}

#[test]
fn unknown_host_renders_empty_status() {
    let theme = Theme {
        name: "t".to_string(),
        base: Default::default(),
        semantic: Default::default(),
        prompt: Default::default(),
        tmux: palette(),
    };
    assert_eq!(
        render_tmux(TmuxTarget::Right, &TmuxContext::default(), &Config::default(), &theme),
        ""
    );
}
