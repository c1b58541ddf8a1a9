//! Calling a handler with a leading argument and a tuple of parameters.
use vstd::prelude::*;

verus! {

/// Calls `f` with `pre` and the items of `p`, in order.
#[inline(always)]
pub fn apply<Fun, Pre, In, Out>(f: Fun, pre: Pre, p: In) -> (out: Out) where
    ApplyImpl: Apply<Fun, Pre, In, Out>,

    requires
        <ApplyImpl as Apply<Fun, Pre, In, Out>>::applicable(f, pre, p),
    ensures
        <ApplyImpl as Apply<Fun, Pre, In, Out>>::applied(f, pre, p, out),
{
    ApplyImpl::apply(f, pre, p)
}

/// The implementor of [`Apply`] for tuples of up to nine parameters.
pub struct ApplyImpl;

/// Calling a function with a leading argument and a tuple of parameters.
pub trait Apply<Fun, Pre, In, Out> {
    /// `f` may be called with `pre_param` and the items of `params`.
    spec fn applicable(f: Fun, pre_param: Pre, params: In) -> bool;

    /// `out` is a possible result of calling `f` with `pre_param` and the
    /// items of `params`.
    spec fn applied(f: Fun, pre_param: Pre, params: In, out: Out) -> bool;

    fn apply(f: Fun, pre_param: Pre, params: In) -> (out: Out)
        requires
            Self::applicable(f, pre_param, params),
        ensures
            Self::applied(f, pre_param, params, out),
    ;
}

impl<Fun, Pre, Out> Apply<Fun, Pre, (), Out> for ApplyImpl where Fun: Fn(Pre) -> Out {
    open spec fn applicable(f: Fun, pre_param: Pre, params: ()) -> bool {
        call_requires(f, (pre_param,))
    }

    open spec fn applied(f: Fun, pre_param: Pre, params: (), out: Out) -> bool {
        call_ensures(f, (pre_param,), out)
    }

    #[inline(always)]
    fn apply(f: Fun, pre_param: Pre, params: ()) -> (out: Out) {
        f(pre_param)
    }
}

impl<Fun, Pre, A, Out> Apply<Fun, Pre, (A,), Out> for ApplyImpl where Fun: Fn(Pre, A) -> Out {
    open spec fn applicable(f: Fun, pre_param: Pre, params: (A,)) -> bool {
        call_requires(f, (pre_param, params.0))
    }

    open spec fn applied(f: Fun, pre_param: Pre, params: (A,), out: Out) -> bool {
        call_ensures(f, (pre_param, params.0), out)
    }

    #[inline(always)]
    fn apply(f: Fun, pre_param: Pre, params: (A,)) -> (out: Out) {
        let (x_a,) = params;
        f(pre_param, x_a)
    }
}

impl<Fun, Pre, A, B, Out> Apply<Fun, Pre, (A, B), Out> for ApplyImpl where Fun: Fn(Pre, A, B) -> Out {
    open spec fn applicable(f: Fun, pre_param: Pre, params: (A, B)) -> bool {
        call_requires(f, (pre_param, params.0, params.1))
    }

    open spec fn applied(f: Fun, pre_param: Pre, params: (A, B), out: Out) -> bool {
        call_ensures(f, (pre_param, params.0, params.1), out)
    }

    #[inline(always)]
    fn apply(f: Fun, pre_param: Pre, params: (A, B)) -> (out: Out) {
        let (x_a, x_b) = params;
        f(pre_param, x_a, x_b)
    }
}

impl<Fun, Pre, A, B, C, Out> Apply<Fun, Pre, (A, B, C), Out> for ApplyImpl where Fun: Fn(Pre, A, B, C) -> Out {
    open spec fn applicable(f: Fun, pre_param: Pre, params: (A, B, C)) -> bool {
        call_requires(f, (pre_param, params.0, params.1, params.2))
    }

    open spec fn applied(f: Fun, pre_param: Pre, params: (A, B, C), out: Out) -> bool {
        call_ensures(f, (pre_param, params.0, params.1, params.2), out)
    }

    #[inline(always)]
    fn apply(f: Fun, pre_param: Pre, params: (A, B, C)) -> (out: Out) {
        let (x_a, x_b, x_c) = params;
        f(pre_param, x_a, x_b, x_c)
    }
}

impl<Fun, Pre, A, B, C, D, Out> Apply<Fun, Pre, (A, B, C, D), Out> for ApplyImpl where Fun: Fn(Pre, A, B, C, D) -> Out {
    open spec fn applicable(f: Fun, pre_param: Pre, params: (A, B, C, D)) -> bool {
        call_requires(f, (pre_param, params.0, params.1, params.2, params.3))
    }

    open spec fn applied(f: Fun, pre_param: Pre, params: (A, B, C, D), out: Out) -> bool {
        call_ensures(f, (pre_param, params.0, params.1, params.2, params.3), out)
    }

    #[inline(always)]
    fn apply(f: Fun, pre_param: Pre, params: (A, B, C, D)) -> (out: Out) {
        let (x_a, x_b, x_c, x_d) = params;
        f(pre_param, x_a, x_b, x_c, x_d)
    }
}

impl<Fun, Pre, A, B, C, D, E, Out> Apply<Fun, Pre, (A, B, C, D, E), Out> for ApplyImpl where Fun: Fn(Pre, A, B, C, D, E) -> Out {
    open spec fn applicable(f: Fun, pre_param: Pre, params: (A, B, C, D, E)) -> bool {
        call_requires(f, (pre_param, params.0, params.1, params.2, params.3, params.4))
    }

    open spec fn applied(f: Fun, pre_param: Pre, params: (A, B, C, D, E), out: Out) -> bool {
        call_ensures(f, (pre_param, params.0, params.1, params.2, params.3, params.4), out)
    }

    #[inline(always)]
    fn apply(f: Fun, pre_param: Pre, params: (A, B, C, D, E)) -> (out: Out) {
        let (x_a, x_b, x_c, x_d, x_e) = params;
        f(pre_param, x_a, x_b, x_c, x_d, x_e)
    }
}

impl<Fun, Pre, A, B, C, D, E, F, Out> Apply<Fun, Pre, (A, B, C, D, E, F), Out> for ApplyImpl where Fun: Fn(Pre, A, B, C, D, E, F) -> Out {
    open spec fn applicable(f: Fun, pre_param: Pre, params: (A, B, C, D, E, F)) -> bool {
        call_requires(f, (pre_param, params.0, params.1, params.2, params.3, params.4, params.5))
    }

    open spec fn applied(f: Fun, pre_param: Pre, params: (A, B, C, D, E, F), out: Out) -> bool {
        call_ensures(f, (pre_param, params.0, params.1, params.2, params.3, params.4, params.5), out)
    }

    #[inline(always)]
    fn apply(f: Fun, pre_param: Pre, params: (A, B, C, D, E, F)) -> (out: Out) {
        let (x_a, x_b, x_c, x_d, x_e, x_f) = params;
        f(pre_param, x_a, x_b, x_c, x_d, x_e, x_f)
    }
}

impl<Fun, Pre, A, B, C, D, E, F, G, Out> Apply<Fun, Pre, (A, B, C, D, E, F, G), Out> for ApplyImpl where Fun: Fn(Pre, A, B, C, D, E, F, G) -> Out {
    open spec fn applicable(f: Fun, pre_param: Pre, params: (A, B, C, D, E, F, G)) -> bool {
        call_requires(f, (pre_param, params.0, params.1, params.2, params.3, params.4, params.5, params.6))
    }

    open spec fn applied(f: Fun, pre_param: Pre, params: (A, B, C, D, E, F, G), out: Out) -> bool {
        call_ensures(f, (pre_param, params.0, params.1, params.2, params.3, params.4, params.5, params.6), out)
    }

    #[inline(always)]
    fn apply(f: Fun, pre_param: Pre, params: (A, B, C, D, E, F, G)) -> (out: Out) {
        let (x_a, x_b, x_c, x_d, x_e, x_f, x_g) = params;
        f(pre_param, x_a, x_b, x_c, x_d, x_e, x_f, x_g)
    }
}

impl<Fun, Pre, A, B, C, D, E, F, G, H, Out> Apply<Fun, Pre, (A, B, C, D, E, F, G, H), Out> for ApplyImpl where Fun: Fn(Pre, A, B, C, D, E, F, G, H) -> Out {
    open spec fn applicable(f: Fun, pre_param: Pre, params: (A, B, C, D, E, F, G, H)) -> bool {
        call_requires(f, (pre_param, params.0, params.1, params.2, params.3, params.4, params.5, params.6, params.7))
    }

    open spec fn applied(f: Fun, pre_param: Pre, params: (A, B, C, D, E, F, G, H), out: Out) -> bool {
        call_ensures(f, (pre_param, params.0, params.1, params.2, params.3, params.4, params.5, params.6, params.7), out)
    }

    #[inline(always)]
    fn apply(f: Fun, pre_param: Pre, params: (A, B, C, D, E, F, G, H)) -> (out: Out) {
        let (x_a, x_b, x_c, x_d, x_e, x_f, x_g, x_h) = params;
        f(pre_param, x_a, x_b, x_c, x_d, x_e, x_f, x_g, x_h)
    }
}

impl<Fun, Pre, A, B, C, D, E, F, G, H, I, Out> Apply<Fun, Pre, (A, B, C, D, E, F, G, H, I), Out> for ApplyImpl where Fun: Fn(Pre, A, B, C, D, E, F, G, H, I) -> Out {
    open spec fn applicable(f: Fun, pre_param: Pre, params: (A, B, C, D, E, F, G, H, I)) -> bool {
        call_requires(f, (pre_param, params.0, params.1, params.2, params.3, params.4, params.5, params.6, params.7, params.8))
    }

    open spec fn applied(f: Fun, pre_param: Pre, params: (A, B, C, D, E, F, G, H, I), out: Out) -> bool {
        call_ensures(f, (pre_param, params.0, params.1, params.2, params.3, params.4, params.5, params.6, params.7, params.8), out)
    }

    #[inline(always)]
    fn apply(f: Fun, pre_param: Pre, params: (A, B, C, D, E, F, G, H, I)) -> (out: Out) {
        let (x_a, x_b, x_c, x_d, x_e, x_f, x_g, x_h, x_i) = params;
        f(pre_param, x_a, x_b, x_c, x_d, x_e, x_f, x_g, x_h, x_i)
    }
}

/// With no parameters, `apply` calls `f` with `pre_param` alone: it may
/// be called where `f` may be, and gives what `f` gives.
pub proof fn lemma_apply_none<Fun, Pre, Out>(f: Fun, pre_param: Pre, params: (), out: Out) where
    Fun: Fn(Pre) -> Out,

    ensures
        <ApplyImpl as Apply<Fun, Pre, (), Out>>::applicable(f, pre_param, params) == call_requires(
            f,
            (pre_param,),
        ),
        <ApplyImpl as Apply<Fun, Pre, (), Out>>::applied(f, pre_param, params, out) == call_ensures(
            f,
            (pre_param,),
            out,
        ),
{
}

/// With one parameter, `apply` calls `f` with `pre_param` and then the
/// tuple's item in order: it may be called where `f` may be, and gives
/// what `f` gives.
pub proof fn lemma_apply_one<Fun, Pre, A, Out>(f: Fun, pre_param: Pre, params: (A,), out: Out) where
    Fun: Fn(Pre, A) -> Out,

    ensures
        <ApplyImpl as Apply<Fun, Pre, (A,), Out>>::applicable(f, pre_param, params) == call_requires(
            f,
            (pre_param, params.0),
        ),
        <ApplyImpl as Apply<Fun, Pre, (A,), Out>>::applied(f, pre_param, params, out) == call_ensures(
            f,
            (pre_param, params.0),
            out,
        ),
{
}

/// With two parameters, `apply` calls `f` with `pre_param` and then the
/// tuple's items in order: it may be called where `f` may be, and gives
/// what `f` gives.
pub proof fn lemma_apply_two<Fun, Pre, A, B, Out>(f: Fun, pre_param: Pre, params: (A, B), out: Out) where
    Fun: Fn(Pre, A, B) -> Out,

    ensures
        <ApplyImpl as Apply<Fun, Pre, (A, B), Out>>::applicable(f, pre_param, params) == call_requires(
            f,
            (pre_param, params.0, params.1),
        ),
        <ApplyImpl as Apply<Fun, Pre, (A, B), Out>>::applied(f, pre_param, params, out) == call_ensures(
            f,
            (pre_param, params.0, params.1),
            out,
        ),
{
}

/// With three parameters, `apply` calls `f` with `pre_param` and then the
/// tuple's items in order: it may be called where `f` may be, and gives
/// what `f` gives.
pub proof fn lemma_apply_three<Fun, Pre, A, B, C, Out>(f: Fun, pre_param: Pre, params: (A, B, C), out: Out) where
    Fun: Fn(Pre, A, B, C) -> Out,

    ensures
        <ApplyImpl as Apply<Fun, Pre, (A, B, C), Out>>::applicable(f, pre_param, params) == call_requires(
            f,
            (pre_param, params.0, params.1, params.2),
        ),
        <ApplyImpl as Apply<Fun, Pre, (A, B, C), Out>>::applied(f, pre_param, params, out) == call_ensures(
            f,
            (pre_param, params.0, params.1, params.2),
            out,
        ),
{
}

/// With four parameters, `apply` calls `f` with `pre_param` and then the
/// tuple's items in order: it may be called where `f` may be, and gives
/// what `f` gives.
pub proof fn lemma_apply_four<Fun, Pre, A, B, C, D, Out>(f: Fun, pre_param: Pre, params: (A, B, C, D), out: Out) where
    Fun: Fn(Pre, A, B, C, D) -> Out,

    ensures
        <ApplyImpl as Apply<Fun, Pre, (A, B, C, D), Out>>::applicable(f, pre_param, params) == call_requires(
            f,
            (pre_param, params.0, params.1, params.2, params.3),
        ),
        <ApplyImpl as Apply<Fun, Pre, (A, B, C, D), Out>>::applied(f, pre_param, params, out) == call_ensures(
            f,
            (pre_param, params.0, params.1, params.2, params.3),
            out,
        ),
{
}

/// With five parameters, `apply` calls `f` with `pre_param` and then the
/// tuple's items in order: it may be called where `f` may be, and gives
/// what `f` gives.
pub proof fn lemma_apply_five<Fun, Pre, A, B, C, D, E, Out>(f: Fun, pre_param: Pre, params: (A, B, C, D, E), out: Out) where
    Fun: Fn(Pre, A, B, C, D, E) -> Out,

    ensures
        <ApplyImpl as Apply<Fun, Pre, (A, B, C, D, E), Out>>::applicable(f, pre_param, params) == call_requires(
            f,
            (pre_param, params.0, params.1, params.2, params.3, params.4),
        ),
        <ApplyImpl as Apply<Fun, Pre, (A, B, C, D, E), Out>>::applied(f, pre_param, params, out) == call_ensures(
            f,
            (pre_param, params.0, params.1, params.2, params.3, params.4),
            out,
        ),
{
}

/// With six parameters, `apply` calls `f` with `pre_param` and then the
/// tuple's items in order: it may be called where `f` may be, and gives
/// what `f` gives.
pub proof fn lemma_apply_six<Fun, Pre, A, B, C, D, E, F, Out>(f: Fun, pre_param: Pre, params: (A, B, C, D, E, F), out: Out) where
    Fun: Fn(Pre, A, B, C, D, E, F) -> Out,

    ensures
        <ApplyImpl as Apply<Fun, Pre, (A, B, C, D, E, F), Out>>::applicable(f, pre_param, params) == call_requires(
            f,
            (pre_param, params.0, params.1, params.2, params.3, params.4, params.5),
        ),
        <ApplyImpl as Apply<Fun, Pre, (A, B, C, D, E, F), Out>>::applied(f, pre_param, params, out) == call_ensures(
            f,
            (pre_param, params.0, params.1, params.2, params.3, params.4, params.5),
            out,
        ),
{
}

/// With seven parameters, `apply` calls `f` with `pre_param` and then the
/// tuple's items in order: it may be called where `f` may be, and gives
/// what `f` gives.
pub proof fn lemma_apply_seven<Fun, Pre, A, B, C, D, E, F, G, Out>(f: Fun, pre_param: Pre, params: (A, B, C, D, E, F, G), out: Out) where
    Fun: Fn(Pre, A, B, C, D, E, F, G) -> Out,

    ensures
        <ApplyImpl as Apply<Fun, Pre, (A, B, C, D, E, F, G), Out>>::applicable(f, pre_param, params) == call_requires(
            f,
            (pre_param, params.0, params.1, params.2, params.3, params.4, params.5, params.6),
        ),
        <ApplyImpl as Apply<Fun, Pre, (A, B, C, D, E, F, G), Out>>::applied(f, pre_param, params, out) == call_ensures(
            f,
            (pre_param, params.0, params.1, params.2, params.3, params.4, params.5, params.6),
            out,
        ),
{
}

/// With eight parameters, `apply` calls `f` with `pre_param` and then the
/// tuple's items in order: it may be called where `f` may be, and gives
/// what `f` gives.
pub proof fn lemma_apply_eight<Fun, Pre, A, B, C, D, E, F, G, H, Out>(f: Fun, pre_param: Pre, params: (A, B, C, D, E, F, G, H), out: Out) where
    Fun: Fn(Pre, A, B, C, D, E, F, G, H) -> Out,

    ensures
        <ApplyImpl as Apply<Fun, Pre, (A, B, C, D, E, F, G, H), Out>>::applicable(f, pre_param, params) == call_requires(
            f,
            (pre_param, params.0, params.1, params.2, params.3, params.4, params.5, params.6, params.7),
        ),
        <ApplyImpl as Apply<Fun, Pre, (A, B, C, D, E, F, G, H), Out>>::applied(f, pre_param, params, out) == call_ensures(
            f,
            (pre_param, params.0, params.1, params.2, params.3, params.4, params.5, params.6, params.7),
            out,
        ),
{
}

/// With nine parameters, `apply` calls `f` with `pre_param` and then the
/// tuple's items in order: it may be called where `f` may be, and gives
/// what `f` gives.
pub proof fn lemma_apply_nine<Fun, Pre, A, B, C, D, E, F, G, H, I, Out>(f: Fun, pre_param: Pre, params: (A, B, C, D, E, F, G, H, I), out: Out) where
    Fun: Fn(Pre, A, B, C, D, E, F, G, H, I) -> Out,

    ensures
        <ApplyImpl as Apply<Fun, Pre, (A, B, C, D, E, F, G, H, I), Out>>::applicable(f, pre_param, params) == call_requires(
            f,
            (pre_param, params.0, params.1, params.2, params.3, params.4, params.5, params.6, params.7, params.8),
        ),
        <ApplyImpl as Apply<Fun, Pre, (A, B, C, D, E, F, G, H, I), Out>>::applied(f, pre_param, params, out) == call_ensures(
            f,
            (pre_param, params.0, params.1, params.2, params.3, params.4, params.5, params.6, params.7, params.8),
            out,
        ),
{
}

} // verus!
