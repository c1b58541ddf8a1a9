//! Response bodies.
use vstd::prelude::*;

verus! {

/// The body of a response: a text known at once, or a stream of chunks.
pub enum ResponseBody<S> {
    Immediate(String),
    Stream(S),
}

impl<S> From<String> for ResponseBody<S> {
    fn from(s: String) -> (r: ResponseBody<S>) {
        ResponseBody::Immediate(s)
    }
}

impl<S> vstd::std_specs::convert::FromSpecImpl<String> for ResponseBody<S> {
    open spec fn obeys_from_spec() -> bool {
        true
    }

    open spec fn from_spec(v: String) -> ResponseBody<S> {
        ResponseBody::Immediate(v)
    }
}

} // verus!
