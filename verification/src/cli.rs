//! The command-line surface: what each subcommand carries once parsed.
use vstd::prelude::*;
use crate::text::copy_str;

verus! {

/// A parsed command line.
#[derive(Debug, Clone)]
pub struct Cli {
    pub command: Command,
}

/// The subcommands.
#[derive(Debug, Clone)]
pub enum Command {
    /// Render prompt context.
    Prompt(PromptArgs),
    /// Render tmux status content.
    Tmux(TmuxArgs),
    /// Update cached host or project state.
    Update(UpdateArgs),
    /// Inspect cached state or the effective theme.
    Inspect(InspectArgs),
    /// Run lightweight diagnostics.
    Doctor,
    /// Print version information.
    Version,
}

/// Arguments of `prompt`.
#[derive(Debug, Clone)]
pub struct PromptArgs {
    /// Working directory to render context for.
    pub cwd: Option<String>,
    /// Exit code of the previous command.
    pub exit_code: i32,
    /// Duration of the previous command in milliseconds.
    pub duration_ms: Option<u64>,
    /// Output format.
    pub format: OutputFormat,
}

/// Arguments of `tmux`.
#[derive(Debug, Clone)]
pub struct TmuxArgs {
    pub format: OutputFormat,
}

/// Arguments of `update`.
#[derive(Debug, Clone)]
pub struct UpdateArgs {
    pub scope: UpdateScope,
}

/// What `update` refreshes.
#[derive(Debug, Clone)]
pub enum UpdateScope {
    /// The host/system cache.
    Host(UpdateTargetArgs),
    /// The project cache for a working directory.
    Project(ProjectTargetArgs),
    /// Both.
    All(ProjectTargetArgs),
}

/// Arguments of `update host`.
#[derive(Debug, Clone)]
pub struct UpdateTargetArgs {
    /// Refresh even when the cache is fresh.
    pub force: bool,
}

impl Default for UpdateTargetArgs {
    /// No forced refresh.
    fn default() -> (r: Self)
        ensures
            !r.force,
    {
        UpdateTargetArgs { force: false }
    }
}

/// Arguments of `update project` and `update all`.
#[derive(Debug, Clone)]
pub struct ProjectTargetArgs {
    /// Working directory to resolve the project from.
    pub cwd: Option<String>,
    /// Refresh even when the cache is fresh.
    pub force: bool,
}

impl Default for ProjectTargetArgs {
    /// No directory and no forced refresh.
    fn default() -> (r: Self)
        ensures
            r.cwd is None,
            !r.force,
    {
        ProjectTargetArgs { cwd: None, force: false }
    }
}

/// Arguments of `inspect`.
#[derive(Debug, Clone)]
pub struct InspectArgs {
    pub target: InspectTarget,
}

/// What `inspect` shows.
#[derive(Debug, Clone)]
pub enum InspectTarget {
    /// Cached host/system state.
    Host(InspectFormatArgs),
    /// Cached project state for a working directory.
    Project(InspectProjectArgs),
    /// Effective theme data.
    Theme(InspectThemeArgs),
}

/// Arguments of `inspect host`.
#[derive(Debug, Clone)]
pub struct InspectFormatArgs {
    pub format: OutputFormat,
}

/// Arguments of `inspect project`.
#[derive(Debug, Clone)]
pub struct InspectProjectArgs {
    /// Working directory to resolve the project from.
    pub cwd: Option<String>,
    pub format: OutputFormat,
}

/// Arguments of `inspect theme`.
#[derive(Debug, Clone)]
pub struct InspectThemeArgs {
    /// Theme name override.
    pub theme: Option<String>,
    pub format: OutputFormat,
}

/// Text for shells and tmux, or JSON for tools.
#[derive(Debug, Clone, Copy, PartialEq, Eq, Structural)]
pub enum OutputFormat {
    Text,
    Json,
}

impl OutputFormat {
    /// The format's name as written on the command line.
    pub fn label(&self) -> (r: String)
        ensures
            match self {
                OutputFormat::Text => r@ == "text"@,
                OutputFormat::Json => r@ == "json"@,
            },
    {
        match self {
            OutputFormat::Text => copy_str("text"),
            OutputFormat::Json => copy_str("json"),
        }
    }
}

} // verus!
