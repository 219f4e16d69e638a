use jetctx::config::{default_config_path, Config, ConfigSource};
use jetctx::theme::{
    analyze_theme_file, analyze_theme_text, analyze_toml_value, find_theme_path, pick_theme_path, present_theme_fields,
    resolve_theme_name, supported_theme_fields, theme_dirs_for, theme_failure_message,
    theme_search_dirs, theme_support_report, Theme, ThemeError, TomlNode,
};

#[test]
fn config_resolution_order() {
    assert!(matches!(
        Config::source_from(Some("/x.toml".to_string()), Some("/h/c.toml".to_string()), true),
        ConfigSource::File(p) if p == "/x.toml"
    ));
    assert!(matches!(
        Config::source_from(None, Some("/h/c.toml".to_string()), true),
        ConfigSource::File(p) if p == "/h/c.toml"
    ));
    assert!(matches!(
        Config::source_from(None, Some("/h/c.toml".to_string()), false),
        ConfigSource::Defaults
    ));
    assert!(matches!(Config::source_from(None, None, true), ConfigSource::Defaults));
    assert!(matches!(Config::select_source(None, None), ConfigSource::Defaults));
    assert_eq!(
        default_config_path(Some("/home/me")),
        Some("/home/me/.config/jetctx/config.toml".to_string())
    );
}

#[test]
fn env_theme_override() {
    let mut config = Config::default();
    config.apply_env_overrides(Some("  shaman ".to_string()));
    assert_eq!(config.theme, "shaman");
    config.apply_env_overrides(Some("   ".to_string()));
    assert_eq!(config.theme, "shaman");
    config.apply_env_overrides(None);
    assert_eq!(config.theme, "shaman");
}

#[test]
fn theme_name_precedence() {
    assert_eq!(resolve_theme_name(Some(" a "), Some("b"), Some("c")), "a");
    assert_eq!(resolve_theme_name(Some(" "), Some("b"), Some("c")), "b");
    assert_eq!(resolve_theme_name(None, Some(""), Some("c")), "c");
    assert_eq!(resolve_theme_name(None, None, Some("  ")), "nightowl");
}

#[test]
fn user_theme_dir_wins() {
    let dirs = theme_search_dirs(Some("/xdg".to_string()), Some("/repo".to_string()));
    assert_eq!(dirs, vec!["/xdg/jetctx/themes".to_string(), "/repo/themes".to_string()]);
    match pick_theme_path("shaman", &dirs, &vec![true]) {
        Ok(p) => assert_eq!(p, "/xdg/jetctx/themes/shaman.toml"),
        Err(_) => panic!("found in the user directory"),
    }
    match pick_theme_path("shaman", &dirs, &vec![false, true]) {
        Ok(p) => assert_eq!(p, "/repo/themes/shaman.toml"),
        Err(_) => panic!("found in the bundled directory"),
    }
    match pick_theme_path("shaman", &dirs, &vec![false, false]) {
        Err(ThemeError::NotFound { name, search_dirs }) => {
            assert_eq!(name, "shaman");
            assert_eq!(search_dirs, dirs);
        }
        Ok(_) => panic!("found nowhere"),
    }
}

#[test]
fn missing_theme_is_reported() {
    let dirs = vec!["/definitely/not/a/jetctx/dir".to_string()];
    match find_theme_path("nope", &dirs) {
        Err(e) => assert_eq!(
            e.describe(),
            "theme 'nope' not found in any search directory: /definitely/not/a/jetctx/dir"
        ),
        Ok(p) => panic!("unexpected {p}"),
    }
    assert!(Theme::resolve_path(None, None, None, &Vec::new()).is_err());
}

#[test]
fn support_report_splits_fields() {
    let present = vec![
        "name".to_string(),
        "base.muted".to_string(),
        "tmux.segment_info_bg".to_string(),
        "accent.blue".to_string(),
    ];
    let report = theme_support_report(&present);
    assert_eq!(
        report.supported_fields_present,
        vec!["name".to_string(), "tmux.segment_info_bg".to_string()]
    );
    assert_eq!(
        report.ignored_fields_present,
        vec!["base.muted".to_string(), "accent.blue".to_string()]
    );
    assert_eq!(supported_theme_fields().len(), 24);
}

fn table(entries: Vec<(&str, TomlNode)>) -> TomlNode {
    TomlNode::Table(entries.into_iter().map(|(k, v)| (k.to_string(), v)).collect())
}

#[test]
fn theme_file_fields_are_sorted_and_split() {
    let root = table(vec![
        ("name", TomlNode::Leaf),
        ("base", table(vec![("fg", TomlNode::Leaf), ("muted", TomlNode::Leaf)])),
        ("accent", table(vec![("blue", TomlNode::Leaf)])),
        ("empty", table(Vec::new())),
        ("base.fg", TomlNode::Leaf),
    ]);
    assert_eq!(
        present_theme_fields(&root),
        vec![
            "accent.blue".to_string(),
            "base.fg".to_string(),
            "base.muted".to_string(),
            "name".to_string(),
        ]
    );
    let report = analyze_theme_file(&root);
    assert_eq!(report.supported_fields_present, vec!["base.fg".to_string(), "name".to_string()]);
    assert_eq!(
        report.ignored_fields_present,
        vec!["accent.blue".to_string(), "base.muted".to_string()]
    );
    assert!(present_theme_fields(&TomlNode::Leaf).is_empty());
}

#[test]
fn theme_text_fields_are_sorted_and_split() {
    let text = "name = \"x\"\n[base]\nfg = \"#fff\"\nmuted = 1\n[accent]\nblue = [1, 2]\n[semantic.extra]\nk = true\n";
    let report = analyze_theme_text(text).expect("valid TOML");
    assert_eq!(report.supported_fields_present, vec!["base.fg".to_string(), "name".to_string()]);
    assert_eq!(
        report.ignored_fields_present,
        vec![
            "accent.blue".to_string(),
            "base.muted".to_string(),
            "semantic.extra.k".to_string(),
        ]
    );
    assert!(analyze_theme_text("name = ").is_none());
    assert!(analyze_theme_text("[a]\n[a]\n").is_none());
    let empty = analyze_theme_text("").expect("empty document");
    assert!(empty.supported_fields_present.is_empty() && empty.ignored_fields_present.is_empty());

    let value: toml::Value =
        toml::from_str("[prompt]\nbranch = \"b\"\nother = 2\n").expect("parses");
    let report = analyze_toml_value(&value);
    assert_eq!(report.supported_fields_present, vec!["prompt.branch".to_string()]);
    assert_eq!(report.ignored_fields_present, vec!["prompt.other".to_string()]);
}

#[test]
fn theme_dirs_from_home_and_failure_message() {
    assert_eq!(
        theme_dirs_for(None, Some("/home/me".to_string()), None),
        vec!["/home/me/.config/jetctx/themes".to_string()]
    );
    assert_eq!(
        theme_dirs_for(Some("/x".to_string()), Some("/home/me".to_string()), Some("/m".to_string())),
        vec!["/x/jetctx/themes".to_string(), "/m/themes".to_string()]
    );
    assert!(theme_dirs_for(None, None, None).is_empty());
    let dirs = vec!["/a".to_string(), "/b".to_string()];
    assert_eq!(
        theme_failure_message(None, "nightowl", &dirs),
        "failed to resolve theme 'nightowl' using search dirs: /a, /b"
    );
    assert_eq!(
        theme_failure_message(Some("shaman"), "nightowl", &dirs),
        "failed to resolve theme 'shaman' using search dirs: /a, /b"
    );
}
