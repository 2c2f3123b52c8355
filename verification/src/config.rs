//! The proxy's settings and where they are kept.
use vstd::prelude::*;
use crate::paths::{extension, path_extension, path_join, join_path};
use crate::text::{concat, decimal, owned, str_eq, u64_decimal};

verus! {

pub const DEFAULT_HOST: &'static str = "127.0.0.1";
pub const DEFAULT_PORT: u16 = 9000;
pub const DEFAULT_UPSTREAM_BASE_URL: &'static str = "https://api.deepseek.com";
pub const DEFAULT_UPSTREAM_MODEL: &'static str = "deepseek-v4-pro";
pub const DEFAULT_THINKING: &'static str = "enabled";
pub const DEFAULT_REASONING_EFFORT: &'static str = "max";
pub const DEFAULT_REQUEST_TIMEOUT_SECS: u64 = 300;
pub const DEFAULT_MAX_REQUEST_BODY_BYTES: usize = 20971520;
pub const DEFAULT_TUNNEL_PROVIDER: &'static str = "cloudflared";
/// The directory under the home directory that holds the proxy's files.
pub const CONFIG_DIR_NAME: &'static str = ".deepseek-cursor-proxy-rust";
/// Where Cursor keeps its state database, under the home directory.
pub const CURSOR_STATE_DB_RELATIVE_PATH: &'static str = "Library/Application Support/Cursor/User/globalStorage/state.vscdb";

/// The proxy's settings.
#[derive(Debug, PartialEq)]
pub struct AppConfig {
    pub host: String,
    pub port: u16,
    pub upstream_base_url: String,
    pub upstream_model: String,
    pub thinking: String,
    pub reasoning_effort: String,
    pub request_timeout_secs: u64,
    pub max_request_body_bytes: usize,
    pub reasoning_content_path: String,
    pub display_reasoning: bool,
    pub collapsible_reasoning: bool,
    pub verbose: bool,
    pub trace_dir: Option<String>,
    pub tunnel_enabled: bool,
    pub tunnel_provider: String,
    pub cloudflared_bin: Option<String>,
    pub sync_cursor_openai_base_url: bool,
    pub cursor_state_db_path: String,
}

/// The home directory, or `.` when there is none.
pub open spec fn home_or_current(home: Option<Seq<char>>) -> Seq<char> {
    match home {
        Some(h) => h,
        None => "."@,
    }
}

/// The proxy's directory under a home directory.
pub open spec fn config_dir_under(home: Option<Seq<char>>) -> Seq<char> {
    path_join(home_or_current(home), CONFIG_DIR_NAME@)
}

/// The configuration file under a home directory.
pub open spec fn config_path_under(home: Option<Seq<char>>) -> Seq<char> {
    path_join(config_dir_under(home), "config.yaml"@)
}

/// The reasoning cache database under a home directory.
pub open spec fn reasoning_cache_path_under(home: Option<Seq<char>>) -> Seq<char> {
    path_join(config_dir_under(home), "reasoning_content.sqlite3"@)
}

/// Cursor's state database under a home directory.
pub open spec fn cursor_state_db_path_under(home: Option<Seq<char>>) -> Seq<char> {
    path_join(home_or_current(home), CURSOR_STATE_DB_RELATIVE_PATH@)
}

/// The user's home directory through `dirs::home_dir`; what it is depends on
/// the environment, so nothing is stated of it.
#[verifier::external_body]
pub(crate) fn home_dir_text() -> (r: Option<String>) {
    dirs::home_dir().map(|p| p.to_string_lossy().into_owned())
}

pub(crate) fn opt_home(home: &Option<String>) -> (r: Option<&str>)
    ensures
        match home {
            Some(h) => r matches Some(s) && s@ == h@,
            None => r is None,
        },
{
    match home {
        Some(h) => Some(h.as_str()),
        None => None,
    }
}

pub(crate) fn home_text(home: Option<&str>) -> (r: &str)
    ensures
        r@ == home_or_current(match home {
            Some(h) => Some(h@),
            None => None,
        }),
{
    match home {
        Some(h) => h,
        None => ".",
    }
}

/// The view of an optional borrowed text.
pub open spec fn opt_str_view(s: Option<&str>) -> Option<Seq<char>> {
    match s {
        Some(t) => Some(t@),
        None => None,
    }
}

/// The proxy's directory under a home directory.
pub fn config_dir_for(home: Option<&str>) -> (r: String)
    ensures
        r@ == config_dir_under(opt_str_view(home)),
{
    join_path(home_text(home), CONFIG_DIR_NAME)
}

/// The proxy's directory under the user's home directory.
pub fn default_config_dir() -> (r: String)
    ensures
        exists|home: Option<Seq<char>>| r@ == config_dir_under(home),
{
    let home = home_dir_text();
    let h = opt_home(&home);
    let r = config_dir_for(h);
    assert(r@ == config_dir_under(opt_str_view(h)));
    r
}

/// The configuration file under a home directory.
pub fn config_path_for(home: Option<&str>) -> (r: String)
    ensures
        r@ == config_path_under(opt_str_view(home)),
{
    let dir = config_dir_for(home);
    join_path(dir.as_str(), "config.yaml")
}

/// The reasoning cache database under a home directory.
pub fn reasoning_cache_path_for(home: Option<&str>) -> (r: String)
    ensures
        r@ == reasoning_cache_path_under(opt_str_view(home)),
{
    let dir = config_dir_for(home);
    join_path(dir.as_str(), "reasoning_content.sqlite3")
}

/// The configuration file under the user's home directory.
pub fn default_config_path() -> (r: String)
    ensures
        exists|home: Option<Seq<char>>| r@ == config_path_under(home),
{
    let home = home_dir_text();
    let h = opt_home(&home);
    let r = config_path_for(h);
    assert(r@ == config_path_under(opt_str_view(h)));
    r
}

/// The reasoning cache database under the user's home directory.
pub fn default_reasoning_cache_path() -> (r: String)
    ensures
        exists|home: Option<Seq<char>>| r@ == reasoning_cache_path_under(home),
{
    let home = home_dir_text();
    let h = opt_home(&home);
    let r = reasoning_cache_path_for(h);
    assert(r@ == reasoning_cache_path_under(opt_str_view(h)));
    r
}

/// Whether a path names a YAML file: its extension is `yaml` or `yml`.
pub fn is_yaml_file(path: &str) -> (r: bool)
    ensures
        r == (extension(path@) == Some("yaml"@) || extension(path@) == Some("yml"@)),
{
    match path_extension(path) {
        Some(x) => str_eq(x.as_str(), "yaml") || str_eq(x.as_str(), "yml"),
        None => false,
    }
}

/// The settings a fresh install starts with, given where the reasoning cache
/// and Cursor's state database are kept.
pub open spec fn is_default_config(c: AppConfig, cache_path: Seq<char>, cursor_db: Seq<char>) -> bool {
    &&& c.host@ == DEFAULT_HOST@
    &&& c.port == DEFAULT_PORT
    &&& c.upstream_base_url@ == DEFAULT_UPSTREAM_BASE_URL@
    &&& c.upstream_model@ == DEFAULT_UPSTREAM_MODEL@
    &&& c.thinking@ == DEFAULT_THINKING@
    &&& c.reasoning_effort@ == DEFAULT_REASONING_EFFORT@
    &&& c.request_timeout_secs == DEFAULT_REQUEST_TIMEOUT_SECS
    &&& c.max_request_body_bytes == DEFAULT_MAX_REQUEST_BODY_BYTES
    &&& c.reasoning_content_path@ == cache_path
    &&& c.display_reasoning
    &&& c.collapsible_reasoning
    &&& !c.verbose
    &&& c.trace_dir is None
    &&& !c.tunnel_enabled
    &&& c.tunnel_provider@ == DEFAULT_TUNNEL_PROVIDER@
    &&& c.cloudflared_bin is None
    &&& c.sync_cursor_openai_base_url
    &&& c.cursor_state_db_path@ == cursor_db
}

impl AppConfig {
    /// The default settings for a given home directory.
    pub fn defaults_for_home(home: Option<&str>) -> (r: AppConfig)
        ensures
            is_default_config(
                r,
                reasoning_cache_path_under(opt_str_view(home)),
                cursor_state_db_path_under(opt_str_view(home)),
            ),
    {
        AppConfig {
            host: owned(DEFAULT_HOST),
            port: DEFAULT_PORT,
            upstream_base_url: owned(DEFAULT_UPSTREAM_BASE_URL),
            upstream_model: owned(DEFAULT_UPSTREAM_MODEL),
            thinking: owned(DEFAULT_THINKING),
            reasoning_effort: owned(DEFAULT_REASONING_EFFORT),
            request_timeout_secs: DEFAULT_REQUEST_TIMEOUT_SECS,
            max_request_body_bytes: DEFAULT_MAX_REQUEST_BODY_BYTES,
            reasoning_content_path: reasoning_cache_path_for(home),
            display_reasoning: true,
            collapsible_reasoning: true,
            verbose: false,
            trace_dir: None,
            tunnel_enabled: false,
            tunnel_provider: owned(DEFAULT_TUNNEL_PROVIDER),
            cloudflared_bin: None,
            sync_cursor_openai_base_url: true,
            cursor_state_db_path: join_path(home_text(home), CURSOR_STATE_DB_RELATIVE_PATH),
        }
    }

    /// The address the proxy listens on: host, `:`, and port.
    pub fn bind_address(&self) -> (r: String)
        ensures
            r@ == self.host@ + ":"@ + decimal(self.port as nat),
    {
        let head = concat(self.host.as_str(), ":");
        let port = u64_decimal(self.port as u64);
        concat(head.as_str(), port.as_str())
    }

    /// The given configuration file, or the default one.
    pub fn config_path_or_default(path: Option<String>) -> (r: String)
        ensures
            match path {
                Some(p) => r@ == p@,
                None => exists|home: Option<Seq<char>>| r@ == config_path_under(home),
            },
    {
        match path {
            Some(p) => p,
            None => default_config_path(),
        }
    }
}

impl Default for AppConfig {
    /// The default settings, under the user's home directory.
    fn default() -> (r: AppConfig)
        ensures
            exists|home: Option<Seq<char>>| is_default_config(
                r,
                reasoning_cache_path_under(home),
                cursor_state_db_path_under(home),
            ),
    {
        let home = home_dir_text();
        let h = opt_home(&home);
        let r = AppConfig::defaults_for_home(h);
        assert(is_default_config(
            r,
            reasoning_cache_path_under(opt_str_view(h)),
            cursor_state_db_path_under(opt_str_view(h)),
        ));
        r
    }
}

} // verus!
