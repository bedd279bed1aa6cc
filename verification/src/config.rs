//! The project configuration, `pulci.toml`.

use vstd::prelude::*;
use crate::hooks::{Span, DEFAULT_HOOK_TIMEOUT};

verus! {

/// The whole configuration. Every part has a default, so the file is optional.
#[derive(Debug)]
pub struct Config {
    pub hooks: HooksConfig,
    pub tools: ToolsConfig,
    pub watch: WatchConfig,
    pub debug: DebugConfig,
}

/// Which tools are active, and how they run.
#[derive(Debug)]
pub struct HooksConfig {
    /// `ruff check` on changed Python files.
    pub ruff: bool,
    /// `ruff format --check` on changed Python files.
    pub ruff_format: bool,
    /// `ty check` on changed Python files.
    pub ty: bool,
    /// `pytest` on the tests of changed Python files.
    pub pytest: bool,
    /// `cargo clippy` on the workspace.
    pub clippy: bool,
    /// Seconds that a tool may run.
    pub timeout_secs: Option<u64>,
    /// Templates of test paths.
    pub pytest_test_patterns: Vec<String>,
}

/// Pinned versions.
#[derive(Debug)]
pub struct ToolsConfig {
    pub ruff: Option<String>,
    pub ty: Option<String>,
    pub pytest: Option<String>,
}

/// What to leave out of scans and events.
#[derive(Debug)]
pub struct WatchConfig {
    pub exclude: Vec<String>,
}

/// Switches for diagnosing the daemon itself.
#[derive(Debug)]
pub struct DebugConfig {
    pub event_trace: bool,
}

/// Whether hook settings are the defaults: `ruff` and `ty` run, the rest does not.
pub open spec fn default_hooks(h: HooksConfig) -> bool {
    &&& h.ruff
    &&& !h.ruff_format
    &&& h.ty
    &&& !h.pytest
    &&& !h.clippy
    &&& h.timeout_secs is None
    &&& h.pytest_test_patterns@.len() == 0
}

/// Whether no tool is pinned.
pub open spec fn default_tools(t: ToolsConfig) -> bool {
    t.ruff is None && t.ty is None && t.pytest is None
}

/// Whether a configuration is the default one.
pub open spec fn is_default(c: Config) -> bool {
    &&& default_hooks(c.hooks)
    &&& default_tools(c.tools)
    &&& c.watch.exclude@.len() == 0
    &&& !c.debug.event_trace
}

impl Default for HooksConfig {
    fn default() -> (r: HooksConfig)
        ensures
            default_hooks(r),
    {
        HooksConfig {
            ruff: true,
            ruff_format: false,
            ty: true,
            pytest: false,
            clippy: false,
            timeout_secs: None,
            pytest_test_patterns: Vec::new(),
        }
    }
}

impl Default for ToolsConfig {
    fn default() -> (r: ToolsConfig)
        ensures
            default_tools(r),
    {
        ToolsConfig { ruff: None, ty: None, pytest: None }
    }
}

impl Default for Config {
    fn default() -> (r: Config)
        ensures
            is_default(r),
    {
        Config {
            hooks: HooksConfig::default(),
            tools: ToolsConfig::default(),
            watch: WatchConfig { exclude: Vec::new() },
            debug: DebugConfig { event_trace: false },
        }
    }
}

impl HooksConfig {
    /// How long a tool may run.
    pub fn timeout(&self) -> (r: Span)
        ensures
            r == (Span {
                secs: match self.timeout_secs {
                    Some(s) => s,
                    None => DEFAULT_HOOK_TIMEOUT,
                },
                nanos: 0,
            }),
    {
        match self.timeout_secs {
            Some(s) => Span::from_secs(s),
            None => Span::from_secs(DEFAULT_HOOK_TIMEOUT),
        }
    }
}

/// What was found where the configuration should be.
#[derive(Debug)]
pub enum ConfigFile {
    /// There is no file.
    Absent,
    /// The file could not be read.
    Unreadable(String),
    /// The file is not a valid configuration.
    Malformed(String),
    /// The file has a key that does not exist.
    UnknownKey(String),
    /// The file, with defaults for what it leaves out.
    Parsed(Config),
}

/// Why there is no configuration.
#[derive(Debug)]
pub struct ConfigError {
    pub message: String,
    /// Whether the reason is a key that does not exist.
    pub unknown_key: bool,
}

/// Loads the configuration: the file where there is one, else the defaults. A file
/// that cannot be used is an error.
pub fn load_config(found: ConfigFile) -> (r: Result<Config, ConfigError>)
    ensures
        match found {
            ConfigFile::Absent => r matches Ok(c) && is_default(c),
            ConfigFile::Unreadable(m) => r matches Err(e) && e.message@ == m@ && !e.unknown_key,
            ConfigFile::Malformed(m) => r matches Err(e) && e.message@ == m@ && !e.unknown_key,
            ConfigFile::UnknownKey(m) => r matches Err(e) && e.message@ == m@ && e.unknown_key,
            ConfigFile::Parsed(c) => r == Ok::<Config, ConfigError>(c),
        },
{
    match found {
        ConfigFile::Absent => Ok(Config::default()),
        ConfigFile::Unreadable(message) => Err(ConfigError { message, unknown_key: false }),
        ConfigFile::Malformed(message) => Err(ConfigError { message, unknown_key: false }),
        ConfigFile::UnknownKey(message) => Err(ConfigError { message, unknown_key: true }),
        ConfigFile::Parsed(config) => Ok(config),
    }
}

/// What the daemon starts with.
#[derive(Debug)]
pub enum StartConfig {
    /// The configuration.
    Use(Config),
    /// The defaults, after a warning.
    Warn { warning: String, config: Config },
    /// It does not start.
    Fail(String),
}

/// Decides what the daemon starts with. A key that does not exist, such as a typing
/// error, ends it; other files that cannot be used are warned of.
pub fn start_config(loaded: Result<Config, ConfigError>) -> (r: StartConfig)
    ensures
        match loaded {
            Ok(c) => r == StartConfig::Use(c),
            Err(e) => if e.unknown_key {
                r matches StartConfig::Fail(m) && m@ == e.message@
            } else {
                r matches StartConfig::Warn { warning, config } && is_default(config) && warning@
                    == "pulci: warning: failed to load pulci.toml ("@ + e.message@
                    + "), using defaults"@
            },
        },
{
    match loaded {
        Ok(config) => StartConfig::Use(config),
        Err(e) => if e.unknown_key {
            StartConfig::Fail(e.message)
        } else {
            let mut warning = "pulci: warning: failed to load pulci.toml (".to_owned();
            warning.append(e.message.as_str());
            warning.append("), using defaults");
            StartConfig::Warn { warning, config: Config::default() }
        },
    }
}

// ---------------------------------------------------------------------------
// Laws
// ---------------------------------------------------------------------------

/// By default `ruff` and `ty` run and nothing else does, nothing is pinned, excluded
/// or traced, and the timeout is left open.
pub proof fn law_defaults_are_known(c: Config)
    ensures
        is_default(c) == (c.hooks.ruff && c.hooks.ty && !c.hooks.ruff_format && !c.hooks.pytest
            && !c.hooks.clippy && c.hooks.timeout_secs is None
            && c.hooks.pytest_test_patterns@.len() == 0 && c.tools.ruff is None && c.tools.ty is None
            && c.tools.pytest is None && c.watch.exclude@.len() == 0 && !c.debug.event_trace),
{
}

} // verus!
