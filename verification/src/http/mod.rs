//! The HTTP side of the proxy: what it decides for each request and stream.
pub mod sse;
pub mod upstream;
pub mod routes;
pub mod handlers;
pub mod laws;
