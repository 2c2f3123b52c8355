//! The routes the proxy serves.
use vstd::prelude::*;

verus! {

/// The paths the proxy serves: health, models and chat completions, each with
/// and without the `/v1` prefix.
pub open spec fn route_path_list() -> Seq<Seq<char>> {
    seq![
        "/healthz"@,
        "/v1/healthz"@,
        "/models"@,
        "/v1/models"@,
        "/chat/completions"@,
        "/v1/chat/completions"@,
    ]
}

/// The paths the proxy serves, in the order in which they are registered.
pub fn route_paths() -> (r: Vec<&'static str>)
    ensures
        r@.map_values(|p: &'static str| p@) == route_path_list(),
{
    let r = vec![
        "/healthz",
        "/v1/healthz",
        "/models",
        "/v1/models",
        "/chat/completions",
        "/v1/chat/completions",
    ];
    assert(r@.map_values(|p: &'static str| p@) =~= route_path_list());
    r
}

/// How many routes the proxy registers.
pub fn registered_route_count() -> (r: usize)
    ensures
        r == route_path_list().len(),
{
    route_paths().len()
}

} // verus!
