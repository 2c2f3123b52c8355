//! What the proxy changes in requests and responses on their way through.
pub mod model;
pub mod normalize;
pub mod transform;
pub mod folding;
pub mod response_rewrite;
pub mod laws;
