use jetctx::detect::project::{
    classify_kind, detect_with_options, normalize_start_dir, DetectOptions, ProjectKind,
    ProjectMarkerMatch,
};

#[test]
fn no_plain_fallback_returns_none() {
    let root = "/tmp/example".to_string();
    let info = detect_with_options(
        &root,
        &DetectOptions {
            stop_at: Some("/tmp".to_string()),
            include_plain_fallback: false,
        },
    );

    assert!(info.is_none());
}

#[test]
fn classify_prefers_language_marker_over_git_marker() {
    let matches = vec![
        ProjectMarkerMatch {
            name: ".git".to_string(),
            kind: ProjectKind::Git,
        },
        ProjectMarkerMatch {
            name: "Cargo.toml".to_string(),
            kind: ProjectKind::Rust,
        },
    ];

    assert_eq!(classify_kind(&matches), ProjectKind::Rust);
}

#[test]
fn classify_git_only_project() {
    let matches = vec![ProjectMarkerMatch {
        name: ".git".to_string(),
        kind: ProjectKind::Git,
    }];

    assert_eq!(classify_kind(&matches), ProjectKind::Git);
}

#[test]
fn file_path_input_normalizes_to_parent_directory() {
    let file_path = "/tmp/example/src/main.rs";
    let normalized = normalize_start_dir(file_path).expect("parent directory should exist");
    assert_eq!(normalized, "/tmp/example/src".to_string());
}
