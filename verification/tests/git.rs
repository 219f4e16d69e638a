use jetctx::detect::git::{
    branch_name_from_reference, is_conflict_pair, parse_branch_header, GitStatusCounters,
};

#[test]
fn preserves_hierarchical_branch_names() {
    assert_eq!(
        branch_name_from_reference("refs/heads/feature/deep/name"),
        Some("feature/deep/name".to_string())
    );
}

#[test]
fn parses_ahead_behind_header() {
    let mut counters = GitStatusCounters::default();
    parse_branch_header("## feat...origin/feat [ahead 2, behind 1]", &mut counters);

    assert_eq!(counters.ahead, 2);
    assert_eq!(counters.behind, 1);
}

#[test]
fn parses_ahead_only_header() {
    let mut counters = GitStatusCounters::default();
    parse_branch_header("## feat...origin/feat [ahead 4]", &mut counters);

    assert_eq!(counters.ahead, 4);
    assert_eq!(counters.behind, 0);
}

#[test]
fn detects_conflict_pairs() {
    assert!(is_conflict_pair('U', 'U'));
    assert!(is_conflict_pair('A', 'U'));
    assert!(!is_conflict_pair('M', ' '));
    assert!(!is_conflict_pair(' ', 'M'));
}
