//! The reasoning cache: its keys and its stores.
pub mod keys;
pub mod store;
pub mod laws;
