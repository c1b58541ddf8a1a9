use vstd::prelude::*;

verus! {

/// An HTTP request method.
#[derive(Clone, Debug, PartialEq, Eq)]
pub enum Method {
    Options,
    Get,
    Post,
    Put,
    Delete,
    Head,
    Trace,
    Connect,
    Patch,
    /// Any other method, by its name.
    Extension(String),
}

/// The mathematical value of a [`Method`].
pub enum MethodView {
    Options,
    Get,
    Post,
    Put,
    Delete,
    Head,
    Trace,
    Connect,
    Patch,
    Extension(Seq<char>),
}

impl View for Method {
    type V = MethodView;

    open spec fn view(&self) -> MethodView {
        match self {
            Method::Options => MethodView::Options,
            Method::Get => MethodView::Get,
            Method::Post => MethodView::Post,
            Method::Put => MethodView::Put,
            Method::Delete => MethodView::Delete,
            Method::Head => MethodView::Head,
            Method::Trace => MethodView::Trace,
            Method::Connect => MethodView::Connect,
            Method::Patch => MethodView::Patch,
            Method::Extension(name) => MethodView::Extension(name@),
        }
    }
}

impl Method {
    /// Whether `self` and `other` are the same method.
    pub fn same(&self, other: &Method) -> (r: bool)
        ensures
            r == (self@ == other@),
    {
        match (self, other) {
            (Method::Options, Method::Options) => true,
            (Method::Get, Method::Get) => true,
            (Method::Post, Method::Post) => true,
            (Method::Put, Method::Put) => true,
            (Method::Delete, Method::Delete) => true,
            (Method::Head, Method::Head) => true,
            (Method::Trace, Method::Trace) => true,
            (Method::Connect, Method::Connect) => true,
            (Method::Patch, Method::Patch) => true,
            (Method::Extension(a), Method::Extension(b)) => a.eq(b),
            _ => false,
        }
    }
}

/// Two methods are the same exactly when they are the same standard method,
/// or both extensions with the same name: no two different standard
/// methods, and no standard method and extension, are the same.
pub proof fn law_same_method_means_same_name(a: Method, b: Method)
    ensures
        (a@ == b@) == match (a, b) {
            (Method::Options, Method::Options) => true,
            (Method::Get, Method::Get) => true,
            (Method::Post, Method::Post) => true,
            (Method::Put, Method::Put) => true,
            (Method::Delete, Method::Delete) => true,
            (Method::Head, Method::Head) => true,
            (Method::Trace, Method::Trace) => true,
            (Method::Connect, Method::Connect) => true,
            (Method::Patch, Method::Patch) => true,
            (Method::Extension(x), Method::Extension(y)) => x@ == y@,
            _ => false,
        },
{
}

} // verus!
