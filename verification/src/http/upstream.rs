//! Where upstream requests go.
use vstd::prelude::*;
use crate::text::{concat, trim_slashes_end, trim_trailing_slashes};

verus! {

/// The chat completions endpoint under a base URL.
pub open spec fn chat_completions_endpoint(base_url: Seq<char>) -> Seq<char> {
    trim_trailing_slashes(base_url) + "/chat/completions"@
}

/// The chat completions endpoint under a base URL, whatever slashes it ends in.
pub fn chat_completions_url(base_url: &str) -> (r: String)
    ensures
        r@ == chat_completions_endpoint(base_url@),
{
    let base = trim_slashes_end(base_url);
    concat(base.as_str(), "/chat/completions")
}

} // verus!
