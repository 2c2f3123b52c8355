//! The library's errors.
use vstd::prelude::*;
use crate::text::concat;

verus! {

/// What can go wrong, with a description.
#[derive(Debug, PartialEq)]
pub enum AppError {
    Config(String),
    Upstream(String),
    Storage(String),
    Trace(String),
}

/// The text that describes an error.
pub open spec fn error_message(e: AppError) -> Seq<char> {
    match e {
        AppError::Config(m) => "configuration error: "@ + m@,
        AppError::Upstream(m) => "upstream error: "@ + m@,
        AppError::Storage(m) => "storage error: "@ + m@,
        AppError::Trace(m) => "trace error: "@ + m@,
    }
}

impl AppError {
    /// The text that describes the error.
    pub fn message(&self) -> (r: String)
        ensures
            r@ == error_message(*self),
    {
        match self {
            AppError::Config(m) => concat("configuration error: ", m.as_str()),
            AppError::Upstream(m) => concat("upstream error: ", m.as_str()),
            AppError::Storage(m) => concat("storage error: ", m.as_str()),
            AppError::Trace(m) => concat("trace error: ", m.as_str()),
        }
    }
}

} // verus!
