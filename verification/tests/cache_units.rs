use std::collections::hash_map::DefaultHasher;
use std::hash::{Hash, Hasher};

use jetctx::cache::{
    build_host_cache_entry, command_stdout, hostname_from_env, is_fresh_at, kind_label,
    parse_battery_percent, parse_memory_total, parse_vm_stat_counter, parse_vm_stat_page_size,
    plan_host_update, plan_project_update, plan_update, project_entry_choice_at,
    stable_project_key, used_memory_bytes,
    vm_stat_pages, CacheChoice, CachePaths, HostCacheEntry, HostProbe, ProjectCacheEntry,
    UpdatePlan, VmStatPages,
};
use jetctx::cli::{ProjectTargetArgs, UpdateScope, UpdateTargetArgs};
use jetctx::config::Config;
use jetctx::detect::project::ProjectKind;

#[test]
fn freshness_at_fixed_times() {
    assert!(is_fresh_at(100, 70, 30));
    assert!(!is_fresh_at(100, 69, 30));
    assert!(!is_fresh_at(100, 100, 0));
    assert!(is_fresh_at(100, 100, 1));
    assert!(is_fresh_at(50, 100, 1));
}

fn project_entry(updated: u64) -> ProjectCacheEntry {
    ProjectCacheEntry {
        version: 1,
        updated_at_epoch_secs: updated,
        cwd: "/p".to_string(),
        root: "/p".to_string(),
        project_name: "p".to_string(),
        project_kind: "plain".to_string(),
        markers: Vec::new(),
        git: None,
    }
}

#[test]
fn cached_project_entry_kept_while_fresh() {
    let config = Config::default();
    match project_entry_choice_at(1003, Some(project_entry(1000)), &config) {
        CacheChoice::Use(e) => assert_eq!(e.updated_at_epoch_secs, 1000),
        CacheChoice::Refresh => panic!("entry is fresh"),
    }
    assert!(matches!(
        project_entry_choice_at(1004, Some(project_entry(1000)), &config),
        CacheChoice::Refresh
    ));
    assert!(matches!(project_entry_choice_at(0, None, &config), CacheChoice::Refresh));
}

#[test]
fn forced_host_update_refreshes() {
    let entry = HostCacheEntry {
        version: 1,
        updated_at_epoch_secs: u64::MAX,
        theme: "nightowl".to_string(),
        hostname: None,
        os: None,
        battery_percent: None,
        memory_used_bytes: None,
        memory_total_bytes: None,
        time_label: None,
    };
    assert!(matches!(plan_host_update(true, Some(entry), &Config::default()), CacheChoice::Refresh));
}

#[test]
fn project_key_is_the_default_hash_in_hex() {
    let path = "/tmp/example";
    let mut hasher = DefaultHasher::new();
    path.hash(&mut hasher);
    let expected = format!("{:016x}", hasher.finish());
    assert_eq!(stable_project_key(path), expected);
    assert_ne!(stable_project_key(path), path);
    assert_ne!(stable_project_key("/tmp/other"), expected);
}

#[test]
fn cache_layout_under_a_root() {
    let paths = CachePaths::under("/c/jetctx".to_string());
    assert_eq!(paths.host_file, "/c/jetctx/host.json");
    assert_eq!(paths.projects_dir, "/c/jetctx/projects");
    let file = paths.project_file_for_root("/tmp/example", None);
    assert_eq!(file, format!("/c/jetctx/projects/{}.json", stable_project_key("/tmp/example")));

    let found = CachePaths::discover(Some("  /xdg  ".to_string())).expect("xdg is set");
    assert_eq!(found.root, "/xdg/jetctx");
}

#[test]
fn one_cache_file_per_canonical_root() {
    let paths = CachePaths::under("/c/jetctx".to_string());
    let a = paths.project_file_for_root("/tmp/./example", Some("/private/tmp/example"));
    let b = paths.project_file_for_root("/tmp/example/", Some("/private/tmp/example"));
    assert_eq!(a, b);
    let key = stable_project_key("/private/tmp/example");
    assert_eq!(a, format!("/c/jetctx/projects/{key}.json"));
    assert_eq!(key.len(), 16);
    assert!(key.chars().all(|c| c.is_ascii_digit() || ('a'..='f').contains(&c)));
    assert_ne!(
        paths.project_file_for_root("/tmp/./example", None),
        paths.project_file_for_root("/tmp/example/", None)
    );
}

#[test]
fn probe_output_parsing() {
    assert_eq!(command_stdout(true, "  host \n"), Some("host".to_string()));
    assert_eq!(command_stdout(false, "host"), None);
    assert_eq!(command_stdout(true, "   "), None);
    assert_eq!(hostname_from_env(Some(" box ".to_string())), Some("box".to_string()));
    assert_eq!(hostname_from_env(Some("  ".to_string())), None);

    let batt = "Now drawing from 'Battery Power'\n -InternalBattery-0 (id=123)\t82%; discharging; 4:10 remaining present: true\n";
    assert_eq!(parse_battery_percent(batt), Some(82));
    assert_eq!(parse_battery_percent("no percent here"), None);
    assert_eq!(parse_battery_percent("x 300% y"), None);
    assert_eq!(parse_battery_percent("+7%;"), Some(7));

    assert_eq!(parse_memory_total(" 17179869184\n"), Some(17179869184));
    assert_eq!(parse_memory_total("-1"), None);

    let first = "Mach Virtual Memory Statistics: (page size of 16384 bytes)";
    assert_eq!(parse_vm_stat_page_size(first), Some(16384));
    assert_eq!(parse_vm_stat_page_size("page size of 4096"), None);
    assert_eq!(parse_vm_stat_counter("Pages free:      12345.", "Pages free"), Some(12345));
    assert_eq!(parse_vm_stat_counter("Pages free 12", "Pages free"), None);
    assert_eq!(parse_vm_stat_counter("Pages active: 1.", "Pages free"), None);
}

#[test]
fn vm_stat_and_used_memory() {
    let out = "Mach Virtual Memory Statistics: (page size of 4096 bytes)\nPages free:   100.\nPages active: 5.\nPages speculative:  20.\n";
    let pages = vm_stat_pages(out).expect("page size present");
    assert_eq!(pages.page_size, 4096);
    assert_eq!(pages.free, 100);
    assert_eq!(pages.speculative, 20);
    assert_eq!(used_memory_bytes(1_000_000, &pages), 1_000_000 - 120 * 4096);
    assert_eq!(used_memory_bytes(10, &pages), 0);
    let huge = VmStatPages { page_size: u64::MAX, free: 2, speculative: 0 };
    assert_eq!(used_memory_bytes(u64::MAX, &huge), 0);
    assert!(vm_stat_pages("no header\nPages free: 1.\n").is_none());
}

#[test]
fn host_entry_from_probe() {
    let probe = HostProbe {
        hostname: Some("box".to_string()),
        os: Some("macos".to_string()),
        battery_percent: Some(82),
        memory_used_bytes: Some(1),
        memory_total_bytes: Some(2),
        time_label: Some("10:42".to_string()),
    };
    let entry = build_host_cache_entry(&Config::default(), probe, 1234);
    assert_eq!(entry.version, 1);
    assert_eq!(entry.updated_at_epoch_secs, 1234);
    assert_eq!(entry.theme, "nightowl");
    assert_eq!(entry.battery_percent, Some(82));
    assert_eq!(entry.time_label, Some("10:42".to_string()));
}

#[test]
fn kind_labels_are_lowercase_names() {
    assert_eq!(kind_label(ProjectKind::Plain), "plain");
    assert_eq!(kind_label(ProjectKind::Terraform), "terraform");
    assert_eq!(kind_label(ProjectKind::Rust), format!("{:?}", ProjectKind::Rust).to_lowercase());
}

#[test]
fn update_scopes_plan_their_caches() {
    let host = plan_update(&UpdateScope::Host(UpdateTargetArgs { force: true }));
    assert!(matches!(host, UpdatePlan::Host { force: true }));
    let project = plan_update(&UpdateScope::Project(ProjectTargetArgs {
        cwd: Some("/w".to_string()),
        force: false,
    }));
    assert!(matches!(project, UpdatePlan::Project { cwd: Some(c), force: false } if c == "/w"));
    let all = plan_update(&UpdateScope::All(ProjectTargetArgs { cwd: None, force: true }));
    assert!(matches!(all, UpdatePlan::All { cwd: None, force: true }));
    assert!(matches!(
        plan_project_update(true, Some(project_entry(u64::MAX)), &Config::default()),
        CacheChoice::Refresh
    ));
}
