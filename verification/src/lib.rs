//! A local compatibility layer between OpenAI-style chat clients and
//! DeepSeek's chat completion API.
pub mod text;
pub mod json;
pub mod number;
pub mod protocol;
pub mod pattern;
pub mod paths;
pub mod error;
pub mod config;
pub mod cli;
pub mod reasoning;
pub mod http;
pub mod tunnel;
pub mod trace;
pub mod cursor;
