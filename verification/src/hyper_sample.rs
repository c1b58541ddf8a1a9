//! The reply rule of the bare sample server: the index at `/` for `GET`,
//! and `Not Found` for everything else.
use vstd::prelude::*;

use crate::method::{Method, MethodView};
use crate::paths::same_text;
use crate::runtime::server::{Reply, STATUS_NOT_FOUND, STATUS_OK};

verus! {

/// The reply of the sample server to a request with `method` for `path`.
pub fn response(method: &Method, path: &str) -> (r: Reply)
    ensures
        (method@ == MethodView::Get && path@ == "/"@) ==> r.status == STATUS_OK && r.body@
            == "hogehoge"@,
        !(method@ == MethodView::Get && path@ == "/"@) ==> r.status == STATUS_NOT_FOUND && r.body@
            == "Not Found"@,
{
    if method.same(&Method::Get) && same_text(path, "/") {
        Reply { status: STATUS_OK, body: "hogehoge".to_owned() }
    } else {
        Reply { status: STATUS_NOT_FOUND, body: "Not Found".to_owned() }
    }
}

} // verus!
