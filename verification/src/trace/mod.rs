//! Trace files of the requests the proxy serves.
pub mod model;
pub mod writer;
