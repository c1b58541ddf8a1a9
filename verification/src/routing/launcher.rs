//! Launchers: what answers a request, decided from its method and the
//! segments of its path.
use vstd::prelude::*;

use crate::method::{Method, MethodView};
use crate::param::{ParamVal, ParamValue};
use crate::routing::mounter::Mounter;
use crate::routing::route::{PathRoute, Route};

verus! {

/// What a launcher decides to answer a request with.
#[derive(Debug)]
pub enum Target {
    /// The handler of the route at `index` of a route table, with the
    /// parameters that the route read from the path.
    Handler { index: usize, params: Vec<ParamValue> },
    /// The contents of the file at this path.
    File(String),
    /// What the launcher that a mounter holds without a prefix decided.
    Base(Box<Target>),
    /// What the launcher that a mounter holds under its prefix decided.
    Mounted(Box<Target>),
}

/// The mathematical value of a [`Target`].
pub enum TargetView {
    Handler { index: nat, params: Seq<ParamVal> },
    File(Seq<char>),
    Base(Box<TargetView>),
    Mounted(Box<TargetView>),
}

impl DeepView for Target {
    type V = TargetView;

    open spec fn deep_view(&self) -> TargetView
        decreases self,
    {
        match self {
            Target::Handler { index, params } => TargetView::Handler {
                index: *index as nat,
                params: params.deep_view(),
            },
            Target::File(p) => TargetView::File(p@),
            Target::Base(t) => TargetView::Base(Box::new((**t).deep_view())),
            Target::Mounted(t) => TargetView::Mounted(Box::new((**t).deep_view())),
        }
    }
}

/// Something that decides what answers a request.
pub trait Launcher: Sized {
    /// What [`Launcher::launch`] decides for a request with `method` and path
    /// segments `paths`; `None` where the launcher does not answer it.
    spec fn launched(&self, method: MethodView, paths: Seq<Seq<char>>) -> Option<TargetView>;

    fn launch(&self, method: &Method, paths: &[&str]) -> (r: Option<Target>)
        ensures
            r.deep_view() == self.launched(method@, paths.deep_view()),
    ;

    /// A launcher that asks `self` first and, where `self` does not answer,
    /// asks `other` about the request's path with its first segment removed,
    /// when that segment is `prefix`.
    fn mount<Other>(self, prefix: &str, other: Other) -> (m: Mounter<Self, Other>)
        ensures
            m.base() == self,
            m.prefix() == prefix@,
            m.mounted() == other,
    {
        Mounter::new(self, prefix, other)
    }
}

/// The answer of the first of `routes` that matches the request, if any.
pub open spec fn first_match(
    routes: Seq<PathRoute>,
    method: MethodView,
    paths: Seq<Seq<char>>,
) -> Option<TargetView>
    decreases routes.len(),
{
    if routes.len() == 0 {
        None
    } else {
        match first_match(routes.drop_last(), method, paths) {
            Some(t) => Some(t),
            None => match routes.last().matched(method, paths) {
                Some(p) => Some(TargetView::Handler { index: (routes.len() - 1) as nat, params: p }),
                None => None,
            },
        }
    }
}

proof fn lemma_first_match_stays(
    routes: Seq<PathRoute>,
    method: MethodView,
    paths: Seq<Seq<char>>,
    i: int,
    j: int,
)
    requires
        0 <= i <= j <= routes.len(),
        first_match(routes.take(i), method, paths) is Some,
    ensures
        first_match(routes.take(j), method, paths) == first_match(routes.take(i), method, paths),
    decreases j - i,
{
    if i < j {
        lemma_first_match_stays(routes, method, paths, i, j - 1);
        assert(routes.take(j).drop_last() =~= routes.take(j - 1));
    }
}

/// An ordered table of routes: a request goes to the first route that
/// matches it.
#[derive(Clone, Debug, PartialEq, Eq)]
pub struct RouteTable {
    pub routes: Vec<PathRoute>,
}

impl RouteTable {
    pub fn new(routes: Vec<PathRoute>) -> (t: RouteTable)
        ensures
            t.routes == routes,
    {
        RouteTable { routes }
    }
}

impl Launcher for RouteTable {
    open spec fn launched(&self, method: MethodView, paths: Seq<Seq<char>>) -> Option<TargetView> {
        first_match(self.routes@, method, paths)
    }

    fn launch(&self, method: &Method, paths: &[&str]) -> (r: Option<Target>) {
        let ghost routes = self.routes@;
        let ghost ps = paths.deep_view();
        let mut i: usize = 0;
        assert(routes.take(0) =~= Seq::<PathRoute>::empty());
        while i < self.routes.len()
            invariant
                routes == self.routes@,
                ps == paths.deep_view(),
                0 <= i <= routes.len(),
                first_match(routes.take(i as int), method@, ps) is None,
            decreases routes.len() - i,
        {
            assert(routes.take(i + 1).drop_last() =~= routes.take(i as int));
            match self.routes[i].match_route(method, paths) {
                Some(params) => {
                    proof {
                        lemma_first_match_stays(routes, method@, ps, i + 1, routes.len() as int);
                        assert(routes.take(routes.len() as int) =~= routes);
                    }
                    return Some(Target::Handler { index: i, params });
                },
                None => {},
            }
            i = i + 1;
        }
        assert(routes.take(i as int) =~= routes);
        None
    }
}

proof fn lemma_first_match_is_first(routes: Seq<PathRoute>, method: MethodView, paths: Seq<Seq<char>>)
    ensures
        match first_match(routes, method, paths) {
            Some(TargetView::Handler { index, params }) => {
                &&& index < routes.len()
                &&& routes[index as int].matched(method, paths) == Some(params)
                &&& forall|j: int| 0 <= j < index ==> (#[trigger] routes[j]).matched(method, paths) is None
            },
            Some(_) => false,
            None => forall|j: int| 0 <= j < routes.len() ==> (#[trigger] routes[j]).matched(method, paths) is None,
        },
    decreases routes.len(),
{
    if routes.len() > 0 {
        let pre = routes.drop_last();
        lemma_first_match_is_first(pre, method, paths);
        assert forall|j: int| 0 <= j < pre.len() implies #[trigger] pre[j] == routes[j] by {}
        match first_match(pre, method, paths) {
            Some(t) => {
                assert(first_match(routes, method, paths) == Some(t));
                if let TargetView::Handler { index, params } = t {
                    assert(pre[index as int] == routes[index as int]);
                    assert forall|j: int| 0 <= j < index implies (#[trigger] routes[j]).matched(method, paths) is None by {
                        assert(pre[j] == routes[j]);
                    }
                }
            },
            None => {
                assert forall|j: int| 0 <= j < pre.len() implies (#[trigger] routes[j]).matched(method, paths) is None by {
                    assert(pre[j] == routes[j]);
                }
                match routes.last().matched(method, paths) {
                    Some(p) => {
                        assert(first_match(routes, method, paths) == Some(
                            TargetView::Handler { index: (routes.len() - 1) as nat, params: p },
                        ));
                    },
                    None => {
                        assert(first_match(routes, method, paths) is None);
                        assert forall|j: int| 0 <= j < routes.len() implies (#[trigger] routes[j]).matched(method, paths) is None by {
                            if j < pre.len() {
                                assert(pre[j] == routes[j]);
                            }
                        }
                    },
                }
            },
        }
    }
}

/// A route table hands a request to the first of its routes that matches
/// it, with what that route read from the path; no later route is asked.
/// It answers nothing exactly when none of its routes matches.
pub proof fn law_first_matching_route_wins(table: RouteTable, method: MethodView, paths: Seq<Seq<char>>)
    ensures
        match table.launched(method, paths) {
            Some(TargetView::Handler { index, params }) => {
                &&& index < table.routes@.len()
                &&& table.routes@[index as int].matched(method, paths) == Some(params)
                &&& forall|j: int|
                    0 <= j < index ==> (#[trigger] table.routes@[j]).matched(method, paths) is None
            },
            Some(_) => false,
            None => forall|j: int|
                0 <= j < table.routes@.len() ==> (#[trigger] table.routes@[j]).matched(
                    method,
                    paths,
                ) is None,
        },
{
    lemma_first_match_is_first(table.routes@, method, paths);
}

} // verus!
