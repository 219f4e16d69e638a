use jetctx::config::Config;
use jetctx::render::tmux::{render, TmuxContext, TmuxTarget};
use jetctx::theme::{Theme, TmuxPalette};

fn test_theme() -> Theme {
    Theme {
        name: "test".to_string(),
        base: Default::default(),
        semantic: Default::default(),
        prompt: Default::default(),
        tmux: TmuxPalette {
            segment_info_bg: Some("#222222".to_string()),
            segment_info_fg: Some("#ffffff".to_string()),
            segment_warn_bg: Some("#444400".to_string()),
            segment_warn_fg: Some("#ffffff".to_string()),
            segment_error_bg: Some("#660000".to_string()),
            segment_error_fg: Some("#ffffff".to_string()),
            segment_time_bg: Some("#333333".to_string()),
            segment_time_fg: Some("#ffffff".to_string()),
        },
    }
}

fn test_config() -> Config {
    Config::default()
}

#[test]
fn renders_battery_memory_and_time() {
    let context = TmuxContext {
        battery_percent: Some(82),
        memory_used_bytes: Some(8 * 1024 * 1024 * 1024),
        memory_total_bytes: Some(16 * 1024 * 1024 * 1024),
        time_label: Some("10:42".to_string()),
    };

    let rendered = render(TmuxTarget::Right, &context, &test_config(), &test_theme());

    assert_eq!(
        rendered,
        "#[bg=#222222,fg=#ffffff] BAT 82% #[default] \
         #[bg=#222222,fg=#ffffff] MEM 8.0G/16.0G #[default] \
         #[bg=#333333,fg=#ffffff] ◷ 10:42 #[default]"
    );
}

#[test]
fn preserves_battery_threshold_styles() {
    let mut context = TmuxContext {
        battery_percent: Some(20),
        time_label: None,
        ..Default::default()
    };

    assert_eq!(
        render(TmuxTarget::Right, &context, &test_config(), &test_theme()),
        "#[bg=#660000,fg=#ffffff] BAT 20% #[default]"
    );

    context.battery_percent = Some(60);
    assert_eq!(
        render(TmuxTarget::Right, &context, &test_config(), &test_theme()),
        "#[bg=#444400,fg=#ffffff] BAT 60% #[default]"
    );
}

#[test]
fn flat_theme_keeps_tmux_output_unstyled() {
    let context = TmuxContext {
        battery_percent: Some(82),
        memory_used_bytes: None,
        memory_total_bytes: None,
        time_label: Some("10:42".to_string()),
    };
    let theme = Theme {
        name: "flat".to_string(),
        base: Default::default(),
        semantic: Default::default(),
        prompt: Default::default(),
        tmux: Default::default(),
    };

    assert_eq!(
        render(TmuxTarget::Right, &context, &test_config(), &theme),
        "BAT 82% ◷ 10:42"
    );
}
