//! The command line: its options, and what they change in the settings.
use vstd::prelude::*;
use crate::config::AppConfig;
use crate::error::AppError;
use crate::text::{concat, owned, str_eq};

verus! {

/// The command line options. An option that is not given leaves the setting
/// from the configuration file as it is: the texts and numbers are absent,
/// the switches are off.
#[derive(Debug, PartialEq)]
pub struct Cli {
    pub config: Option<String>,
    pub host: Option<String>,
    pub port: Option<u16>,
    pub verbose: bool,
    pub no_display_reasoning: bool,
    pub no_collapsible_reasoning: bool,
    pub trace_dir: Option<String>,
    pub clear_reasoning_cache: bool,
    pub tunnel: bool,
    pub tunnel_provider: Option<String>,
    pub cloudflared_bin: Option<String>,
    pub no_sync_cursor_base_url: bool,
    pub cursor_state_db: Option<String>,
}

/// A setting replaced by an option when the option is given.
pub open spec fn given_or<T>(option: Option<T>, setting: T) -> T {
    match option {
        Some(v) => v,
        None => setting,
    }
}

/// The settings with the command line's options put over them: each setting
/// changes only when its option is given (a text or number is present, a
/// switch is on), and keeps the configuration file's value otherwise.
pub open spec fn overridden(c: AppConfig, cli: Cli) -> AppConfig {
    AppConfig {
        host: given_or(cli.host, c.host),
        port: given_or(cli.port, c.port),
        verbose: cli.verbose || c.verbose,
        display_reasoning: !cli.no_display_reasoning && c.display_reasoning,
        collapsible_reasoning: !cli.no_collapsible_reasoning && c.collapsible_reasoning,
        trace_dir: match cli.trace_dir {
            Some(d) => Some(d),
            None => c.trace_dir,
        },
        tunnel_enabled: cli.tunnel || c.tunnel_enabled,
        tunnel_provider: given_or(cli.tunnel_provider, c.tunnel_provider),
        cloudflared_bin: match cli.cloudflared_bin {
            Some(b) => Some(b),
            None => c.cloudflared_bin,
        },
        sync_cursor_openai_base_url: !cli.no_sync_cursor_base_url && c.sync_cursor_openai_base_url,
        cursor_state_db_path: given_or(cli.cursor_state_db, c.cursor_state_db_path),
        ..c
    }
}

/// Whether no option that changes a setting is given.
pub open spec fn gives_no_setting(cli: Cli) -> bool {
    &&& cli.host is None
    &&& cli.port is None
    &&& !cli.verbose
    &&& !cli.no_display_reasoning
    &&& !cli.no_collapsible_reasoning
    &&& cli.trace_dir is None
    &&& !cli.tunnel
    &&& cli.tunnel_provider is None
    &&& cli.cloudflared_bin is None
    &&& !cli.no_sync_cursor_base_url
    &&& cli.cursor_state_db is None
}

/// A command line that gives no setting leaves the configuration file's
/// settings as they are.
pub proof fn law_no_options_keep_settings(c: AppConfig, cli: Cli)
    requires
        gives_no_setting(cli),
    ensures
        overridden(c, cli) == c,
{
}

impl AppConfig {
    /// Puts the command line's options over the settings.
    pub fn apply_cli(&mut self, cli: &Cli)
        ensures
            *final(self) == overridden(*old(self), *cli),
    {
        if let Some(h) = &cli.host {
            self.host = h.clone();
        }
        if let Some(p) = cli.port {
            self.port = p;
        }
        if cli.verbose {
            self.verbose = true;
        }
        if cli.no_display_reasoning {
            self.display_reasoning = false;
        }
        if cli.no_collapsible_reasoning {
            self.collapsible_reasoning = false;
        }
        if let Some(d) = &cli.trace_dir {
            self.trace_dir = Some(d.clone());
        }
        if cli.tunnel {
            self.tunnel_enabled = true;
        }
        if let Some(t) = &cli.tunnel_provider {
            self.tunnel_provider = t.clone();
        }
        if let Some(b) = &cli.cloudflared_bin {
            self.cloudflared_bin = Some(b.clone());
        }
        if cli.no_sync_cursor_base_url {
            self.sync_cursor_openai_base_url = false;
        }
        if let Some(p) = &cli.cursor_state_db {
            self.cursor_state_db_path = p.clone();
        }
    }

    /// Whether to start a tunnel: not when tunnels are off, yes for the
    /// `cloudflared` provider, an error for any other provider.
    pub fn tunnel_wanted(&self) -> (r: Result<bool, AppError>)
        ensures
            !self.tunnel_enabled ==> r == Ok::<bool, AppError>(false),
            self.tunnel_enabled && self.tunnel_provider@ == "cloudflared"@ ==> r == Ok::<bool, AppError>(true),
            self.tunnel_enabled && self.tunnel_provider@ != "cloudflared"@ ==> (r matches Err(AppError::Config(m))
                && m@ == "unsupported tunnel provider: "@ + self.tunnel_provider@),
    {
        if !self.tunnel_enabled {
            return Ok(false);
        }
        if str_eq(self.tunnel_provider.as_str(), "cloudflared") {
            Ok(true)
        } else {
            Err(AppError::Config(concat("unsupported tunnel provider: ", self.tunnel_provider.as_str())))
        }
    }

    /// The proxy's local URL: `http://` and the address it listens on.
    pub fn local_url(&self) -> (r: String)
        ensures
            r@ == "http://"@ + self.host@ + ":"@ + crate::text::decimal(self.port as nat),
    {
        let address = self.bind_address();
        concat("http://", address.as_str())
    }
}

} // verus!
