//! Exposing the local proxy through a public tunnel.
pub mod cloudflared;
