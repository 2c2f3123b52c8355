//! Cursor's local settings.
pub mod state;
