use jetctx::cache::{is_fresh, now_epoch_secs, stable_project_key, ProjectCacheEntry};

#[test]
fn freshness_check_respects_ttl() {
    let now = now_epoch_secs();
    assert!(is_fresh(now, 30));
    assert!(!is_fresh(now.saturating_sub(31), 30));
}

#[test]
fn stable_project_key_is_deterministic() {
    let path = "/tmp/example";
    let a = stable_project_key(path);
    let b = stable_project_key(path);
    assert_eq!(a, b);
}

#[test]
fn project_cache_entry_root_round_trips() {
    let entry = ProjectCacheEntry {
        version: 1,
        updated_at_epoch_secs: 1,
        cwd: "/tmp/example".to_string(),
        root: "/tmp/example".to_string(),
        project_name: "example".to_string(),
        project_kind: "plain".to_string(),
        markers: Vec::new(),
        git: None,
    };

    assert_eq!(entry.root_path(), "/tmp/example".to_string());
}
