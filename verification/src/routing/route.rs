//! Routes: a method and a pattern of path segments, each either a literal
//! or a typed parameter, matched against the segments of a request path.
use vstd::prelude::*;

use crate::method::{Method, MethodView};
use crate::paths::same_text;
use crate::param::{convert_param, kind_of, param_value, ParamKind, ParamVal, ParamValue};

verus! {

/// Something that decides whether a request is its own and, if so, what it
/// reads from the request's path.
pub trait Route<A: DeepView> {
    /// What [`Route::match_route`] answers for a request with `method` and
    /// path segments `paths`.
    spec fn matched(&self, method: MethodView, paths: Seq<Seq<char>>) -> Option<A::V>;

    fn match_route(&self, method: &Method, paths: &[&str]) -> (r: Option<A>)
        ensures
            r.deep_view() == self.matched(method@, paths.deep_view()),
    ;
}

/// One segment of a route's pattern.
#[derive(Clone, Debug, PartialEq, Eq)]
pub enum Segment {
    /// The request's segment must be exactly this text.
    Literal(String),
    /// The request's segment must read as a parameter of this kind.
    Param(ParamKind),
}

/// The mathematical value of a [`Segment`].
pub enum SegmentView {
    Literal(Seq<char>),
    Param(ParamKind),
}

impl DeepView for Segment {
    type V = SegmentView;

    open spec fn deep_view(&self) -> SegmentView {
        match self {
            Segment::Literal(s) => SegmentView::Literal(s@),
            Segment::Param(k) => SegmentView::Param(*k),
        }
    }
}

impl Segment {
    /// A literal segment.
    pub fn literal(text: &str) -> (s: Segment)
        ensures
            s.deep_view() == SegmentView::Literal(text@),
    {
        Segment::Literal(text.to_owned())
    }
}

/// The parameters that the request segments `paths` give the pattern
/// `segs` of the same length, in order; `None` where a literal differs from
/// its request segment or a request segment does not read as its parameter.
pub open spec fn read_segments(segs: Seq<SegmentView>, paths: Seq<Seq<char>>) -> Option<
    Seq<ParamVal>,
>
    decreases segs.len(),
{
    if segs.len() == 0 {
        Some(seq![])
    } else {
        match read_segments(segs.drop_last(), paths.drop_last()) {
            None => None,
            Some(pre) => match segs.last() {
                SegmentView::Literal(l) => if l == paths.last() {
                    Some(pre)
                } else {
                    None
                },
                SegmentView::Param(k) => match param_value(k, paths.last()) {
                    Some(v) => Some(pre.push(v)),
                    None => None,
                },
            },
        }
    }
}

/// What a route with `method` and pattern `segs` reads from a request with
/// `request_method` and segments `paths`: `None` unless the methods are the
/// same and the request has exactly as many segments as the pattern.
pub open spec fn route_match(
    method: MethodView,
    segs: Seq<SegmentView>,
    request_method: MethodView,
    paths: Seq<Seq<char>>,
) -> Option<Seq<ParamVal>> {
    if request_method != method || segs.len() != paths.len() {
        None
    } else {
        read_segments(segs, paths)
    }
}

/// The kinds of the parameters of the pattern `segs`, in order.
pub open spec fn kinds_of(segs: Seq<SegmentView>) -> Seq<ParamKind>
    decreases segs.len(),
{
    if segs.len() == 0 {
        seq![]
    } else {
        match segs.last() {
            SegmentView::Literal(_) => kinds_of(segs.drop_last()),
            SegmentView::Param(k) => kinds_of(segs.drop_last()).push(k),
        }
    }
}

/// Once a prefix of the pattern fails to match, every longer one does.
proof fn lemma_read_segments_fails_on(
    segs: Seq<SegmentView>,
    paths: Seq<Seq<char>>,
    i: int,
    j: int,
)
    requires
        0 <= i <= j <= segs.len(),
        j <= paths.len(),
        read_segments(segs.take(i), paths.take(i)) is None,
    ensures
        read_segments(segs.take(j), paths.take(j)) is None,
    decreases j - i,
{
    if i < j {
        lemma_read_segments_fails_on(segs, paths, i, j - 1);
        assert(segs.take(j).drop_last() =~= segs.take(j - 1));
        assert(paths.take(j).drop_last() =~= paths.take(j - 1));
    }
}

/// A route: a method and a pattern of path segments.
#[derive(Clone, Debug, PartialEq, Eq)]
pub struct PathRoute {
    pub method: Method,
    pub segments: Vec<Segment>,
}

impl PathRoute {
    pub fn new(method: Method, segments: Vec<Segment>) -> (r: PathRoute)
        ensures
            r.method == method,
            r.segments == segments,
    {
        PathRoute { method, segments }
    }
}

/// Reads the parameter of kind `kind` from `slice[index]`; `None` where the
/// segment does not read as that kind.
pub fn convert_or(kind: ParamKind, slice: &[&str], index: usize) -> (r: Option<ParamValue>)
    requires
        index < slice@.len(),
    ensures
        r.deep_view() == param_value(kind, slice@[index as int]@),
{
    convert_param(kind, slice[index])
}

/// The kinds of the parameters of a pattern, in order: the shape of what a
/// route with this pattern reads.
pub fn param_kinds(segments: &[Segment]) -> (r: Vec<ParamKind>)
    ensures
        r@ == kinds_of(segments.deep_view()),
{
    let mut r: Vec<ParamKind> = Vec::new();
    let mut i: usize = 0;
    while i < segments.len()
        invariant
            0 <= i <= segments@.len(),
            r@ == kinds_of(segments.deep_view().take(i as int)),
        decreases segments@.len() - i,
    {
        assert(segments.deep_view().take(i + 1).drop_last() =~= segments.deep_view().take(
            i as int,
        ));
        match &segments[i] {
            Segment::Literal(_) => {},
            Segment::Param(k) => {
                r.push(*k);
            },
        }
        i = i + 1;
    }
    assert(segments.deep_view().take(i as int) =~= segments.deep_view());
    r
}

impl Route<Vec<ParamValue>> for PathRoute {
    open spec fn matched(&self, method: MethodView, paths: Seq<Seq<char>>) -> Option<
        Seq<ParamVal>,
    > {
        route_match(self.method@, self.segments.deep_view(), method, paths)
    }

    fn match_route(&self, method: &Method, paths: &[&str]) -> (r: Option<Vec<ParamValue>>) {
        if !method.same(&self.method) {
            return None;
        }
        if self.segments.len() != paths.len() {
            return None;
        }
        let ghost segs = self.segments.deep_view();
        let ghost ps = paths.deep_view();
        let mut out: Vec<ParamValue> = Vec::new();
        let mut i: usize = 0;
        assert(segs.take(0) =~= Seq::<SegmentView>::empty());
        assert(out.deep_view() =~= Seq::<ParamVal>::empty());
        while i < paths.len()
            invariant
                segs == self.segments.deep_view(),
                ps == paths.deep_view(),
                segs.len() == ps.len(),
                0 <= i <= ps.len(),
                read_segments(segs.take(i as int), ps.take(i as int)) == Some(out.deep_view()),
            decreases ps.len() - i,
        {
            assert(segs.take(i + 1).drop_last() =~= segs.take(i as int));
            assert(ps.take(i + 1).drop_last() =~= ps.take(i as int));
            assert(ps.take(i + 1).last() == paths@[i as int]@);
            match &self.segments[i] {
                Segment::Literal(l) => {
                    if !same_text(l.as_str(), paths[i]) {
                        proof {
                            lemma_read_segments_fails_on(segs, ps, i + 1, segs.len() as int);
                            assert(segs.take(segs.len() as int) =~= segs);
                            assert(ps.take(ps.len() as int) =~= ps);
                        }
                        return None;
                    }
                },
                Segment::Param(k) => {
                    match convert_param(*k, paths[i]) {
                        Some(v) => {
                            let ghost old_out = out.deep_view();
                            out.push(v);
                            assert(out.deep_view() =~= old_out.push(v.deep_view()));
                        },
                        None => {
                            proof {
                                lemma_read_segments_fails_on(segs, ps, i + 1, segs.len() as int);
                                assert(segs.take(segs.len() as int) =~= segs);
                                assert(ps.take(ps.len() as int) =~= ps);
                            }
                            return None;
                        },
                    }
                },
            }
            i = i + 1;
        }
        assert(segs.take(i as int) =~= segs);
        assert(ps.take(i as int) =~= ps);
        Some(out)
    }
}

/// The request segment `text` fits the pattern segment `seg`: equals it
/// where it is a literal, reads as its kind where it is a parameter.
pub open spec fn segment_fits(seg: SegmentView, text: Seq<char>) -> bool {
    match seg {
        SegmentView::Literal(l) => l == text,
        SegmentView::Param(k) => param_value(k, text) is Some,
    }
}

proof fn lemma_read_segments(segs: Seq<SegmentView>, paths: Seq<Seq<char>>)
    requires
        segs.len() == paths.len(),
    ensures
        read_segments(segs, paths) is Some <==> forall|i: int|
            0 <= i < segs.len() ==> segment_fits(#[trigger] segs[i], paths[i]),
        read_segments(segs, paths) matches Some(vals) ==> vals.len() == kinds_of(segs).len()
            && forall|j: int| 0 <= j < vals.len() ==> kind_of(#[trigger] vals[j]) == kinds_of(segs)[j],
    decreases segs.len(),
{
    if segs.len() > 0 {
        let s0 = segs.drop_last();
        let p0 = paths.drop_last();
        lemma_read_segments(s0, p0);
        assert forall|i: int| 0 <= i < s0.len() implies #[trigger] s0[i] == segs[i] && p0[i]
            == paths[i] by {}
        let n = segs.len() - 1;
        assert(segs[n] == segs.last() && paths[n] == paths.last());
        if read_segments(segs, paths) is Some {
            assert forall|i: int| 0 <= i < segs.len() implies segment_fits(#[trigger] segs[i], paths[i]) by {
                if i < n {
                    assert(s0[i] == segs[i]);
                }
            }
        }
        if forall|i: int| 0 <= i < segs.len() ==> segment_fits(#[trigger] segs[i], paths[i]) {
            assert forall|i: int| 0 <= i < s0.len() implies segment_fits(#[trigger] s0[i], p0[i]) by {
                assert(segment_fits(segs[i], paths[i]));
            }
            assert(segment_fits(segs[n], paths[n]));
        }
    }
}

/// A route matches a request exactly when the request has the route's
/// method, as many path segments as the route's pattern, and each of them
/// fits its pattern segment: equal to a literal, or read as a parameter's
/// kind. It then reads one value for each parameter of the pattern, of that
/// parameter's kind, in the order that `param_kinds` gives.
pub proof fn law_route_matches_exactly_when(route: PathRoute, method: MethodView, paths: Seq<Seq<char>>)
    ensures
        route.matched(method, paths) is Some <==> {
            &&& method == route.method@
            &&& route.segments@.len() == paths.len()
            &&& forall|i: int|
                0 <= i < paths.len() ==> segment_fits(#[trigger] route.segments.deep_view()[i], paths[i])
        },
        route.matched(method, paths) matches Some(vals) ==> vals.len() == kinds_of(
            route.segments.deep_view(),
        ).len() && forall|j: int|
            0 <= j < vals.len() ==> kind_of(#[trigger] vals[j]) == kinds_of(
                route.segments.deep_view(),
            )[j],
{
    if route.segments@.len() == paths.len() {
        lemma_read_segments(route.segments.deep_view(), paths);
    }
}

/// The value that a parameter segment at place `i` of the pattern `segs`
/// reads from `text` is the one at its place among the parameters.
pub open spec fn value_read_at(segs: Seq<SegmentView>, vals: Seq<ParamVal>, i: int, text: Seq<char>) -> bool {
    segs[i] matches SegmentView::Param(k) ==> {
        let j = kinds_of(segs.take(i)).len() as int;
        &&& 0 <= j < vals.len()
        &&& param_value(k, text) == Some(vals[j])
    }
}

proof fn lemma_read_segments_values(segs: Seq<SegmentView>, paths: Seq<Seq<char>>)
    requires
        segs.len() == paths.len(),
    ensures
        read_segments(segs, paths) matches Some(vals) ==> {
            &&& vals.len() == kinds_of(segs).len()
            &&& forall|i: int| 0 <= i < segs.len() ==> value_read_at(segs, vals, i, #[trigger] paths[i])
        },
    decreases segs.len(),
{
    if segs.len() > 0 {
        let s0 = segs.drop_last();
        let p0 = paths.drop_last();
        lemma_read_segments_values(s0, p0);
        let n = segs.len() - 1;
        if read_segments(segs, paths) is Some {
            let pre = read_segments(s0, p0)->0;
            let vals = read_segments(segs, paths)->0;
            assert(segs.take(n) =~= s0);
            assert forall|i: int| 0 <= i < segs.len() implies value_read_at(segs, vals, i, #[trigger] paths[i]) by {
                if i < n {
                    assert(s0[i] == segs[i] && p0[i] == paths[i]);
                    assert(s0.take(i) =~= segs.take(i));
                    assert(value_read_at(s0, pre, i, p0[i]));
                    if segs[i] is Param {
                        let j = kinds_of(segs.take(i)).len() as int;
                        assert(vals[j] == pre[j]);
                    }
                } else {
                    assert(i == n);
                    assert(segs[i] == segs.last() && paths[i] == paths.last());
                }
            }
        }
    }
}

/// When a route matches a request, the value at place `j` of what it reads
/// is what its `j`-th parameter segment reads from the request segment at
/// that parameter's place in the pattern: for every parameter segment at
/// place `i`, with `j` the number of parameter segments before it, the
/// request segment `paths[i]` reads, as that parameter's kind, as value `j`.
pub proof fn law_route_values_come_from_their_segments(
    route: PathRoute,
    method: MethodView,
    paths: Seq<Seq<char>>,
)
    ensures
        route.matched(method, paths) matches Some(vals) ==> forall|i: int|
            0 <= i < paths.len() ==> (#[trigger] route.segments.deep_view()[i] matches SegmentView::Param(
                k,
            ) ==> {
                let j = kinds_of(route.segments.deep_view().take(i)).len() as int;
                &&& 0 <= j < vals.len()
                &&& param_value(k, paths[i]) == Some(vals[j])
            }),
{
    let segs = route.segments.deep_view();
    if route.matched(method, paths) is Some {
        lemma_read_segments_values(segs, paths);
        let vals = route.matched(method, paths)->0;
        assert forall|i: int| 0 <= i < paths.len() implies (#[trigger] segs[i] matches SegmentView::Param(
            k,
        ) ==> {
            let j = kinds_of(segs.take(i)).len() as int;
            &&& 0 <= j < vals.len()
            &&& param_value(k, paths[i]) == Some(vals[j])
        }) by {
            assert(value_read_at(segs, vals, i, paths[i]));
        }
    }
}

proof fn lemma_kinds_of_take(segs: Seq<SegmentView>, i: int)
    requires
        0 <= i < segs.len(),
    ensures
        kinds_of(segs.take(i + 1)) == match segs[i] {
            SegmentView::Literal(_) => kinds_of(segs.take(i)),
            SegmentView::Param(k) => kinds_of(segs.take(i)).push(k),
        },
{
    assert(segs.take(i + 1).drop_last() =~= segs.take(i));
    assert(segs.take(i + 1).last() == segs[i]);
}

proof fn lemma_kinds_of_prefix(segs: Seq<SegmentView>, i: int, j: int)
    requires
        0 <= i <= j <= segs.len(),
    ensures
        kinds_of(segs.take(i)).len() <= kinds_of(segs.take(j)).len(),
        forall|m: int|
            0 <= m < kinds_of(segs.take(i)).len() ==> kinds_of(segs.take(j))[m] == #[trigger] kinds_of(
                segs.take(i),
            )[m],
    decreases j - i,
{
    if i < j {
        lemma_kinds_of_prefix(segs, i, j - 1);
        lemma_kinds_of_take(segs, j - 1);
    }
}

/// The kinds of a pattern are those of its parameter segments, one for
/// each, in their order: the parameter segment at place `i` has its kind at
/// place `j` of the kinds, `j` being the number of parameter segments before
/// it, and literal segments add none.
pub proof fn law_kinds_follow_the_parameters(segs: Seq<SegmentView>)
    ensures
        forall|i: int|
            0 <= i < segs.len() ==> (#[trigger] segs[i] matches SegmentView::Param(k) ==> {
                let j = kinds_of(segs.take(i)).len() as int;
                &&& j < kinds_of(segs).len()
                &&& kinds_of(segs)[j] == k
            }),
        kinds_of(segs).len() <= segs.len(),
        kinds_of(Seq::<SegmentView>::empty()) == Seq::<ParamKind>::empty(),
{
    assert forall|i: int| 0 <= i < segs.len() implies (#[trigger] segs[i] matches SegmentView::Param(
        k,
    ) ==> {
        let j = kinds_of(segs.take(i)).len() as int;
        &&& j < kinds_of(segs).len()
        &&& kinds_of(segs)[j] == k
    }) by {
        lemma_kinds_of_take(segs, i);
        lemma_kinds_of_prefix(segs, i + 1, segs.len() as int);
        assert(segs.take(segs.len() as int) =~= segs);
        if let SegmentView::Param(k) = segs[i] {
            let j = kinds_of(segs.take(i)).len() as int;
            assert(kinds_of(segs.take(i + 1))[j] == k);
            assert(kinds_of(segs.take(segs.len() as int))[j] == kinds_of(segs.take(i + 1))[j]);
        }
    }
    lemma_kinds_len(segs);
}

proof fn lemma_kinds_len(segs: Seq<SegmentView>)
    ensures
        kinds_of(segs).len() <= segs.len(),
    decreases segs.len(),
{
    if segs.len() > 0 {
        lemma_kinds_len(segs.drop_last());
    }
}

} // verus!
