use jetctx::detect::git::{
    detect_from, pick_repo_root, repo_start_dir,
    branch_from_head, collect_status_counters, detect_after_gitfile, detect_finish,
    gitfile_git_dir, head_oid_from_output, parse_status_output, CommandOutput, GitError,
    GitObservations, GitProbe,
};
use jetctx::detect::project::{
    classify_kind, markers_for, project_name_for_root, should_stop, start_dir_for, ProjectKind,
    ProjectMarkerMatch,
};

#[test]
fn head_contents_name_the_branch() {
    assert_eq!(branch_from_head("ref: refs/heads/main\n"), Some("main".to_string()));
    assert_eq!(
        branch_from_head("  ref:   refs/heads/feature/deep  \n"),
        Some("feature/deep".to_string())
    );
    assert_eq!(branch_from_head("ref: refs/tags/v1"), Some("refs/tags/v1".to_string()));
    assert_eq!(branch_from_head("ref: refs/heads/   "), None);
    assert_eq!(branch_from_head("0123456789abcdef0123456789abcdef01234567\n"), None);
}

#[test]
fn gitfile_names_relative_and_absolute_dirs() {
    assert_eq!(
        gitfile_git_dir("/work/repo", "gitdir: ../.git/worktrees/repo\n"),
        Some("/work/repo/../.git/worktrees/repo".to_string())
    );
    assert_eq!(
        gitfile_git_dir("/work/repo", "gitdir:/abs/git"),
        Some("/abs/git".to_string())
    );
    assert_eq!(gitfile_git_dir("/work/repo", "something else"), None);
}

#[test]
fn gitfile_step_errors_and_success() {
    match detect_after_gitfile(
        "/r".to_string(),
        "/r/.git".to_string(),
        Err("denied".to_string()),
    ) {
        GitProbe::Done(Err(GitError::ReadGitfile { path, reason })) => {
            assert_eq!(path, "/r/.git");
            assert_eq!(reason, "denied");
        }
        other => panic!("unexpected {other:?}"),
    }
    match detect_after_gitfile("/r".to_string(), "/r/.git".to_string(), Ok("junk".to_string())) {
        GitProbe::Done(Err(e)) => {
            assert_eq!(e.describe(), "unsupported gitfile format: /r/.git");
        }
        other => panic!("unexpected {other:?}"),
    }
    match detect_after_gitfile(
        "/r".to_string(),
        "/r/.git".to_string(),
        Ok("gitdir: sub/dir".to_string()),
    ) {
        GitProbe::Inspect { repo_root, git_dir } => {
            assert_eq!(repo_root, "/r");
            assert_eq!(git_dir, "/r/sub/dir");
        }
        other => panic!("unexpected {other:?}"),
    }
}

#[test]
fn status_output_counts() {
    let out = "## main...origin/main [ahead 3, behind 2]\n M a\nM  b\nMM c\n?? d\nUU e\nAA f\n";
    let c = parse_status_output(out);
    assert!(c.dirty);
    assert_eq!(c.staged, 2);
    assert_eq!(c.modified, 2);
    assert_eq!(c.untracked, 1);
    assert_eq!(c.conflicted, 2);
    assert_eq!(c.ahead, 3);
    assert_eq!(c.behind, 2);

    let clean = parse_status_output("## main\n");
    assert!(!clean.dirty);
    assert_eq!(clean.ahead, 0);

    let failed = collect_status_counters(
        "/r",
        &Some(CommandOutput { success: false, stdout: "?? x\n".to_string() }),
    )
    .expect("git ran");
    assert!(!failed.dirty);
    assert_eq!(failed.untracked, 0);

    let ran = collect_status_counters(
        "/r",
        &Some(CommandOutput { success: true, stdout: "## main\nUU c\n?? x\n".to_string() }),
    )
    .expect("git ran");
    assert!(ran.dirty);
    assert_eq!((ran.conflicted, ran.untracked, ran.staged, ran.modified), (1, 1, 0, 0));

    match collect_status_counters("/r", &None) {
        Err(e) => assert_eq!(e.describe(), "failed to execute git status in /r"),
        Ok(_) => panic!("git could not run"),
    }
}

#[test]
fn head_oid_needs_success_and_text() {
    assert_eq!(
        head_oid_from_output(&Some(CommandOutput { success: true, stdout: "abc1234\n".to_string() })),
        Some("abc1234".to_string())
    );
    assert_eq!(
        head_oid_from_output(&Some(CommandOutput { success: false, stdout: "abc".to_string() })),
        None
    );
    assert_eq!(
        head_oid_from_output(&Some(CommandOutput { success: true, stdout: " \n".to_string() })),
        None
    );
    assert_eq!(head_oid_from_output(&None), None);
}

#[test]
fn finishing_a_detection() {
    let obs = GitObservations {
        head: Ok("ref: refs/heads/feature/deep\n".to_string()),
        head_mtime: Some(10),
        index_mtime: Some(11),
        head_oid: Some(CommandOutput { success: true, stdout: "abc1234\n".to_string() }),
        status: Some(CommandOutput { success: true, stdout: "## feature/deep\n?? new\n".to_string() }),
    };
    let ctx = detect_finish("/r".to_string(), "/r/.git".to_string(), obs)
        .expect("head was read")
        .expect("a repository");
    assert_eq!(ctx.branch, Some("feature/deep".to_string()));
    assert!(!ctx.detached);
    assert!(ctx.dirty);
    assert_eq!(ctx.untracked, 1);
    assert_eq!(ctx.head_oid_short, Some("abc1234".to_string()));
    assert_eq!(ctx.head_mtime, Some(10));
    assert_eq!(ctx.index_mtime, Some(11));

    let detached = GitObservations {
        head: Ok("0123abcd\n".to_string()),
        head_mtime: None,
        index_mtime: None,
        head_oid: None,
        status: None,
    };
    let ctx = detect_finish("/r".to_string(), "/r/.git".to_string(), detached)
        .expect("head was read")
        .expect("a repository");
    assert!(ctx.detached);
    assert_eq!(ctx.branch, None);
    assert!(!ctx.dirty);

    let unreadable = GitObservations {
        head: Err("gone".to_string()),
        head_mtime: None,
        index_mtime: None,
        head_oid: None,
        status: None,
    };
    match detect_finish("/r".to_string(), "/r/.git".to_string(), unreadable) {
        Err(e) => assert_eq!(e.describe(), "failed reading HEAD in /r/.git: gone"),
        Ok(_) => panic!("expected an error"),
    }
}

#[test]
fn classification_order_and_plain() {
    assert_eq!(classify_kind(&Vec::new()), ProjectKind::Plain);
    let ms = vec![
        ProjectMarkerMatch { name: ".git".to_string(), kind: ProjectKind::Git },
        ProjectMarkerMatch { name: "package.json".to_string(), kind: ProjectKind::Node },
        ProjectMarkerMatch { name: "go.mod".to_string(), kind: ProjectKind::Go },
    ];
    assert_eq!(classify_kind(&ms), ProjectKind::Node);
}

#[test]
fn project_names_come_from_the_last_component() {
    assert_eq!(project_name_for_root("/tmp/example"), "example");
    assert_eq!(project_name_for_root("/work/my repo/"), "my repo");
    assert_eq!(project_name_for_root("/"), "/");
    assert_eq!(project_name_for_root("/work/.."), "/work/..");
}

#[test]
fn walk_boundary_compares_paths() {
    assert!(should_stop("/a/b", &Some("/a/b/".to_string())));
    assert!(should_stop("/a//b", &Some("/a/b".to_string())));
    assert!(!should_stop("/a", &Some("/b".to_string())));
    assert!(!should_stop("/a", &None));
}

#[test]
fn repository_search_decisions() {
    let dirs = vec!["/a/b".to_string(), "/a".to_string(), "/".to_string()];
    assert_eq!(pick_repo_root(&dirs, &vec![false, true]), Some("/a".to_string()));
    assert_eq!(pick_repo_root(&dirs, &vec![true]), Some("/a/b".to_string()));
    assert_eq!(pick_repo_root(&dirs, &vec![false, false, false]), None);
    assert_eq!(repo_start_dir("/a/b/file.rs", false), "/a/b");
    assert_eq!(repo_start_dir("/a/b", true), "/a/b");
    assert_eq!(repo_start_dir("/", false), "/");
    match detect_from("/r".to_string(), true, false) {
        GitProbe::Inspect { repo_root, git_dir } => {
            assert_eq!(repo_root, "/r");
            assert_eq!(git_dir, "/r/.git");
        }
        other => panic!("unexpected {other:?}"),
    }
    assert!(matches!(
        detect_from("/r".to_string(), false, true),
        GitProbe::ReadGitFile { .. }
    ));
    assert!(matches!(
        detect_from("/r".to_string(), false, false),
        GitProbe::Done(Err(GitError::MissingGitMarker { .. }))
    ));
}

#[test]
fn project_walk_decisions() {
    assert_eq!(start_dir_for("/tmp/x/main.rs", false), Some("/tmp/x".to_string()));
    assert_eq!(start_dir_for("/tmp/x", true), Some("/tmp/x".to_string()));
    assert_eq!(start_dir_for("/", false), None);
    let found = vec![true, false, true, false, false, false, false, true];
    let ms = markers_for(&found);
    let names: Vec<&str> = ms.iter().map(|m| m.name.as_str()).collect();
    assert_eq!(names, vec![".git", "package.json", ".terraform"]);
    assert_eq!(ms[1].kind, ProjectKind::Node);
    assert!(markers_for(&vec![false; 8]).is_empty());
}
