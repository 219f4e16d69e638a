//! Settings: built-in defaults, the theme override, and where the config file
//! is looked for. Reading and parsing the TOML file is the caller's part.
use vstd::prelude::*;
use crate::paths::{ask_exists, exists_answer, join, join_path};
use crate::text::{copy_str, opt_view, substring, to_chars, trim, trim_bounds};

verus! {

/// The whole configuration.
#[derive(Debug, Clone)]
pub struct Config {
    pub theme: String,
    pub prompt: PromptConfig,
    pub tmux: TmuxConfig,
    pub update: UpdateConfig,
}

/// Prompt settings.
#[derive(Debug, Clone)]
pub struct PromptConfig {
    pub show_git: bool,
    pub show_duration: bool,
    pub duration_min_ms: u64,
}

/// Tmux status settings.
#[derive(Debug, Clone)]
pub struct TmuxConfig {
    pub show_memory: bool,
    pub battery_symbol: String,
    pub memory_symbol: String,
    pub time_symbol: String,
}

/// Cache lifetimes.
#[derive(Debug, Clone)]
pub struct UpdateConfig {
    pub host_ttl_seconds: u64,
    pub project_ttl_seconds: u64,
}

/// The default theme name.
pub fn default_theme() -> (r: String)
    ensures
        r@ == "nightowl"@,
{
    copy_str("nightowl")
}

/// The default for switches that are on unless turned off.
pub fn default_true() -> (r: bool)
    ensures
        r,
{
    true
}

/// Commands faster than this many milliseconds show no duration.
pub fn default_duration_min_ms() -> (r: u64)
    ensures
        r == 400,
{
    400
}

/// Seconds a host cache entry stays fresh.
pub fn default_host_ttl_seconds() -> (r: u64)
    ensures
        r == 15,
{
    15
}

/// Seconds a project cache entry stays fresh.
pub fn default_project_ttl_seconds() -> (r: u64)
    ensures
        r == 3,
{
    3
}

/// The label before the battery percentage.
pub fn default_battery_symbol() -> (r: String)
    ensures
        r@ == "BAT"@,
{
    copy_str("BAT")
}

/// The label before the memory figures.
pub fn default_memory_symbol() -> (r: String)
    ensures
        r@ == "MEM"@,
{
    copy_str("MEM")
}

/// The label before the time.
pub fn default_time_symbol() -> (r: String)
    ensures
        r@ == "◷"@,
{
    copy_str("◷")
}

impl PromptConfig {
    /// The built-in prompt settings.
    pub open spec fn spec_default(self) -> bool {
        self.show_git && self.show_duration && self.duration_min_ms == 400
    }
}

impl Default for PromptConfig {
    /// Git and durations shown; durations from 400 ms.
    fn default() -> (r: Self)
        ensures
            r.spec_default(),
    {
        PromptConfig {
            show_git: default_true(),
            show_duration: default_true(),
            duration_min_ms: default_duration_min_ms(),
        }
    }
}

impl TmuxConfig {
    /// The built-in tmux settings.
    pub open spec fn spec_default(self) -> bool {
        &&& self.show_memory
        &&& self.battery_symbol@ == "BAT"@
        &&& self.memory_symbol@ == "MEM"@
        &&& self.time_symbol@ == "◷"@
    }
}

impl Default for TmuxConfig {
    /// Memory shown, with the `BAT`, `MEM` and `◷` labels.
    fn default() -> (r: Self)
        ensures
            r.spec_default(),
    {
        TmuxConfig {
            show_memory: default_true(),
            battery_symbol: default_battery_symbol(),
            memory_symbol: default_memory_symbol(),
            time_symbol: default_time_symbol(),
        }
    }
}

impl UpdateConfig {
    /// The built-in cache lifetimes.
    pub open spec fn spec_default(self) -> bool {
        self.host_ttl_seconds == 15 && self.project_ttl_seconds == 3
    }
}

impl Default for UpdateConfig {
    /// 15 seconds for the host cache, 3 for project caches.
    fn default() -> (r: Self)
        ensures
            r.spec_default(),
    {
        UpdateConfig {
            host_ttl_seconds: default_host_ttl_seconds(),
            project_ttl_seconds: default_project_ttl_seconds(),
        }
    }
}

impl Config {
    /// The built-in configuration.
    pub open spec fn spec_default(self) -> bool {
        &&& self.theme@ == "nightowl"@
        &&& self.prompt.spec_default()
        &&& self.tmux.spec_default()
        &&& self.update.spec_default()
    }
}

impl Default for Config {
    /// The `nightowl` theme and the built-in section defaults.
    fn default() -> (r: Self)
        ensures
            r.spec_default(),
    {
        Config {
            theme: default_theme(),
            prompt: PromptConfig::default(),
            tmux: TmuxConfig::default(),
            update: UpdateConfig::default(),
        }
    }
}

/// The theme after an override from the environment: a value that is not
/// blank replaces the theme, trimmed.
pub open spec fn overridden_theme(theme: Seq<char>, env_theme: Option<Seq<char>>) -> Seq<char> {
    match env_theme {
        Some(v) => if trim(v).len() > 0 {
            trim(v)
        } else {
            theme
        },
        None => theme,
    }
}

impl Config {
    /// Applies the `JETCTX_THEME` value, when there is one, to the theme.
    pub fn apply_env_overrides(&mut self, env_theme: Option<String>)
        ensures
            final(self).theme@ == overridden_theme(old(self).theme@, opt_view(env_theme)),
            final(self).prompt == old(self).prompt,
            final(self).tmux == old(self).tmux,
            final(self).update == old(self).update,
    {
        if let Some(value) = env_theme {
            let v = to_chars(&value);
            let (a, b) = trim_bounds(&v, 0, v.len());
            assert(v@.subrange(0, v@.len() as int) =~= v@);
            if a < b {
                self.theme = substring(&v, a, b);
            }
        }
    }
}

/// `~/.config/jetctx/config.toml` under the home directory `home`.
pub open spec fn config_path_under(home: Seq<char>) -> Seq<char> {
    join(join(join(home, ".config"@), "jetctx"@), "config.toml"@)
}

/// The default config file path under the home directory, when there is one.
pub fn default_config_path(home: Option<&str>) -> (r: Option<String>)
    ensures
        match home {
            Some(h) => r matches Some(p) && p@ == config_path_under(h@),
            None => r is None,
        },
{
    match home {
        Some(h) => {
            let a = join_path(h, ".config");
            let b = join_path(&a, "jetctx");
            Some(join_path(&b, "config.toml"))
        },
        None => None,
    }
}

/// Where the configuration comes from.
#[derive(Debug, Clone)]
pub enum ConfigSource {
    /// Read and parse this file.
    File(String),
    /// Use the built-in defaults.
    Defaults,
}

/// The default config file for a home directory, when there is one.
pub open spec fn home_config_path(home: Option<Seq<char>>) -> Option<Seq<char>> {
    match home {
        Some(h) => Some(config_path_under(h)),
        None => None,
    }
}

/// The config source chosen from an explicit path (`JETCTX_CONFIG`), the
/// default path, and whether the default file exists: the explicit path
/// always; otherwise the default file when it exists; otherwise the
/// built-in defaults.
pub open spec fn chosen_source(
    override_path: Option<Seq<char>>,
    default_path: Option<Seq<char>>,
    default_exists: bool,
    r: ConfigSource,
) -> bool {
    match override_path {
        Some(p) => r matches ConfigSource::File(f) && f@ == p,
        None => match default_path {
            Some(d) => if default_exists {
                r matches ConfigSource::File(f) && f@ == d
            } else {
                r is Defaults
            },
            None => r is Defaults,
        },
    }
}

impl Config {
    /// Chooses the config source by the resolution order, given whether the
    /// default file exists.
    pub fn source_from(override_path: Option<String>, default_path: Option<String>, default_exists: bool) -> (r: ConfigSource)
        ensures
            chosen_source(opt_view(override_path), opt_view(default_path), default_exists, r),
            override_path matches Some(p) ==> r == ConfigSource::File(p),
    {
        if let Some(p) = override_path {
            return ConfigSource::File(p);
        }
        match default_path {
            Some(d) => {
                if default_exists {
                    ConfigSource::File(d)
                } else {
                    ConfigSource::Defaults
                }
            },
            None => ConfigSource::Defaults,
        }
    }

    /// Chooses the config source: an explicit path (`JETCTX_CONFIG`) always;
    /// otherwise `~/.config/jetctx/config.toml` when it exists (asked of the
    /// filesystem); otherwise the built-in defaults.
    pub fn select_source(home: Option<String>, override_path: Option<String>) -> (r: ConfigSource)
        ensures
            exists|default_exists: bool|
                #[trigger] chosen_source(
                    opt_view(override_path),
                    home_config_path(opt_view(home)),
                    default_exists,
                    r,
                ) && (override_path is None ==> (home matches Some(h) ==> exists_answer(
                    config_path_under(h@),
                    default_exists,
                ))),
            override_path matches Some(p) ==> r == ConfigSource::File(p),
            override_path is None && home is None ==> r is Defaults,
    {
        let home_ref = match &home {
            Some(h) => Some(h.as_str()),
            None => None,
        };
        let default_path = default_config_path(home_ref);
        let default_exists = match (&override_path, &default_path) {
            (None, Some(p)) => ask_exists(p),
            _ => false,
        };
        let ghost d = opt_view(default_path);
        let r = Config::source_from(override_path, default_path, default_exists);
        assert(chosen_source(opt_view(override_path), d, default_exists, r));
        r
    }
}

} // verus!
