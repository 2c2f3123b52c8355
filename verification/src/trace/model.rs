//! What a trace records of one request.
use vstd::prelude::*;
use crate::json::JsonValue;

verus! {

/// One traced request.
#[derive(Debug, PartialEq)]
pub struct TraceSummary {
    pub sequence: u64,
    pub method: String,
    pub path: String,
    pub request_body: Option<JsonValue>,
    pub response_status: Option<u16>,
}

} // verus!
