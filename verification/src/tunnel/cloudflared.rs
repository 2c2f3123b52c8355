//! Cloudflare quick tunnels: finding the public URL in `cloudflared`'s output,
//! and what to do with each thing that happens while waiting for it.
use vstd::prelude::*;
use crate::error::AppError;
use crate::pattern::{compile_pattern, find_first, regex_compiles, regex_find};
use crate::text::{concat, owned};

verus! {

/// The pattern of a quick tunnel URL.
pub const QUICK_TUNNEL_URL_PATTERN: &'static str = "https://[a-zA-Z0-9.-]+\\.trycloudflare\\.com";

/// The first quick tunnel URL in a line of `cloudflared`'s output, if any.
pub fn extract_trycloudflare_url(line: &str) -> (r: Option<String>)
    ensures
        regex_compiles(QUICK_TUNNEL_URL_PATTERN@) ==> match r {
            Some(u) => regex_find(QUICK_TUNNEL_URL_PATTERN@, line@) == Some(u@),
            None => regex_find(QUICK_TUNNEL_URL_PATTERN@, line@) is None,
        },
        !regex_compiles(QUICK_TUNNEL_URL_PATTERN@) ==> r is None,
        r matches Some(u) ==> exists|i: int|
            0 <= i && i + u@.len() <= line@.len() && #[trigger] line@.subrange(i, i + u@.len()) == u@,
{
    match compile_pattern(QUICK_TUNNEL_URL_PATTERN) {
        Some(p) => find_first(&p, line),
        None => None,
    }
}

/// What happens while waiting for the tunnel's URL.
pub enum TunnelEvent {
    /// `cloudflared` exited, with the text of its exit status.
    Exited(String),
    /// The time allowed ran out.
    TimedOut,
    /// A line of output arrived.
    Line(String),
    /// No line arrived within one wait.
    Quiet,
    /// The output streams ended.
    OutputEnded,
}

/// What to do next while waiting for the tunnel's URL.
pub enum TunnelAction {
    /// The tunnel is up at this URL.
    Ready(String),
    /// Keep waiting.
    Wait,
    /// Give up with this error.
    Fail(AppError),
}

/// What to do after an event: a line with a URL makes the tunnel ready, other
/// lines and quiet waits mean waiting on, and an exit, the end of the time
/// allowed or the end of the output are failures.
pub fn next_tunnel_action(event: &TunnelEvent) -> (r: TunnelAction)
    ensures
        match *event {
            TunnelEvent::Exited(status) => r matches TunnelAction::Fail(AppError::Config(m)) && m@
                == "cloudflared exited before publishing a URL: "@ + status@,
            TunnelEvent::TimedOut => r matches TunnelAction::Fail(AppError::Config(m)) && m@
                == "timed out waiting for cloudflared quick tunnel URL"@,
            TunnelEvent::OutputEnded => r matches TunnelAction::Fail(AppError::Config(m)) && m@
                == "cloudflared output stream ended before URL appeared"@,
            TunnelEvent::Quiet => r is Wait,
            TunnelEvent::Line(line) => if regex_compiles(QUICK_TUNNEL_URL_PATTERN@) {
                match regex_find(QUICK_TUNNEL_URL_PATTERN@, line@) {
                    Some(u) => r matches TunnelAction::Ready(v) && v@ == u,
                    None => r is Wait,
                }
            } else {
                r is Wait
            },
        },
{
    match event {
        TunnelEvent::Exited(status) => TunnelAction::Fail(
            AppError::Config(concat("cloudflared exited before publishing a URL: ", status.as_str())),
        ),
        TunnelEvent::TimedOut => TunnelAction::Fail(
            AppError::Config(owned("timed out waiting for cloudflared quick tunnel URL")),
        ),
        TunnelEvent::OutputEnded => TunnelAction::Fail(
            AppError::Config(owned("cloudflared output stream ended before URL appeared")),
        ),
        TunnelEvent::Quiet => TunnelAction::Wait,
        TunnelEvent::Line(line) => match extract_trycloudflare_url(line.as_str()) {
            Some(url) => TunnelAction::Ready(url),
            None => TunnelAction::Wait,
        },
    }
}

} // verus!
