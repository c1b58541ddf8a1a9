//! What the server decides for each request.
use vstd::prelude::*;

use crate::method::Method;
use crate::paths::{path_segments, split_path};
use crate::routing::launcher::{Launcher, Target};

verus! {

/// The status of an answered request.
pub const STATUS_OK: u16 = 200;

/// The status of a request that no launcher answers.
pub const STATUS_NOT_FOUND: u16 = 404;

/// What the server sends back: a status and a body.
#[derive(Clone, Debug, PartialEq, Eq)]
pub struct Reply {
    pub status: u16,
    pub body: String,
}

/// What `launcher` decides for a request with `method` and `path`: the path
/// is split into its segments, which the launcher sees.
pub fn route_request<L: Launcher>(launcher: &L, method: &Method, path: &str) -> (r: Option<Target>)
    ensures
        r.deep_view() == launcher.launched(method@, path_segments(path@)),
{
    let segments = split_path(path);
    launcher.launch(method, segments.as_slice())
}

/// The reply to a request: the answer with status 200 where there is one,
/// otherwise status 404 with the body `Not found`.
pub fn reply_for(answer: Option<String>) -> (r: Reply)
    ensures
        answer matches Some(s) ==> r.status == STATUS_OK && r.body@ == s@,
        answer is None ==> r.status == STATUS_NOT_FOUND && r.body@ == "Not found"@,
{
    match answer {
        Some(s) => Reply { status: STATUS_OK, body: s },
        None => Reply { status: STATUS_NOT_FOUND, body: "Not found".to_owned() },
    }
}

} // verus!
