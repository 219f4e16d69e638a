use jetctx::cli::{OutputFormat, PromptArgs};
use jetctx::config::Config;
use jetctx::render::prompt::{escape_prompt_text, render, ProjectContext};
use jetctx::theme::{PromptPalette, Theme};

fn test_theme() -> Theme {
    Theme {
        name: "test".to_string(),
        base: Default::default(),
        semantic: Default::default(),
        prompt: PromptPalette {
            success_symbol: Some("◎".to_string()),
            error_symbol: Some("○".to_string()),
            ..Default::default()
        },
        tmux: Default::default(),
    }
}

fn test_config() -> Config {
    let mut config = Config::default();
    config.prompt.duration_min_ms = 400;
    config
}

#[test]
fn renders_success_prompt_without_status_or_duration() {
    let args = PromptArgs {
        cwd: Some("/tmp/example".to_string()),
        exit_code: 0,
        duration_ms: Some(10),
        format: OutputFormat::Text,
    };

    let rendered = render(&args, &test_config(), &test_theme(), &ProjectContext::default());
    assert_eq!(rendered, "/tmp/example\n◎");
}

#[test]
fn renders_error_and_duration() {
    let args = PromptArgs {
        cwd: Some("/tmp/example".to_string()),
        exit_code: 1,
        duration_ms: Some(842),
        format: OutputFormat::Text,
    };

    let rendered = render(&args, &test_config(), &test_theme(), &ProjectContext::default());
    assert_eq!(rendered, "/tmp/example ◄ 842ms\n○");
}

#[test]
fn escapes_zsh_prompt_substitutions_without_changing_plain_text() {
    assert_eq!(escape_prompt_text("plain/path"), "plain/path");
    assert_eq!(
        escape_prompt_text("$(>PWNED) `cmd` \\ 100%"),
        "${:-\\$}(>PWNED) ${:-\\`}cmd${:-\\`} ${:-\\\\} 100%%"
    );
}
