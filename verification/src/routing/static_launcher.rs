//! A launcher that answers with files under a base directory.
use vstd::prelude::*;
use vstd::string::*;

use crate::method::{Method, MethodView};
use crate::paths::{lemma_split_concat, lemma_split_nonempty, same_text, split_on_slash, split_pieces};
use crate::routing::launcher::{Launcher, Target, TargetView};

verus! {

/// Names the text that `url::percent_encoding::percent_decode`, followed by
/// `decode_utf8_lossy`, makes of the UTF-8 bytes of `text`.
pub uninterp spec fn percent_decoded(text: Seq<char>) -> Seq<char>;

/// Calls `url::percent_encoding::percent_decode` on the UTF-8 bytes of
/// `text` and `decode_utf8_lossy` on what it gives. Claimed: the result is
/// [`percent_decoded`] of `text`, and a text without `%` comes back as it was
/// (the decoder passes every other byte through, and the bytes of a text are
/// valid UTF-8, which the lossy decoding keeps). What it makes of `%` escapes
/// is left unsaid here.
#[verifier::external_body]
fn percent_decode_text(text: &str) -> (r: String)
    ensures
        r@ == percent_decoded(text@),
        !text@.contains('%') ==> r@ == text@,
{
    url::percent_encoding::percent_decode(text.as_bytes()).decode_utf8_lossy().into_owned()
}

/// The path `base` with `seg` pushed onto it, as `PathBuf::push` does on
/// Unix: an absolute `seg` replaces `base`; otherwise `seg` is appended,
/// after a separator unless `base` is empty or already ends with one.
pub open spec fn pushed(base: Seq<char>, seg: Seq<char>) -> Seq<char> {
    if seg.len() > 0 && seg[0] == '/' {
        seg
    } else if base.len() > 0 && base.last() != '/' {
        base + seq!['/'] + seg
    } else {
        base + seg
    }
}

/// `base` with each of `segs` pushed onto it in turn.
pub open spec fn pushed_all(base: Seq<char>, segs: Seq<Seq<char>>) -> Seq<char>
    decreases segs.len(),
{
    if segs.len() == 0 {
        base
    } else {
        pushed(pushed_all(base, segs.drop_last()), segs.last())
    }
}

/// The pieces among `pieces` that name a directory or file: neither empty
/// nor `.`.
pub open spec fn normal_parts(pieces: Seq<Seq<char>>) -> Seq<Seq<char>>
    decreases pieces.len(),
{
    if pieces.len() == 0 {
        seq![]
    } else {
        let pre = normal_parts(pieces.drop_last());
        let c = pieces.last();
        if c.len() > 0 && c != seq!['.'] {
            pre.push(c)
        } else {
            pre
        }
    }
}

/// The components of the path `p`, as `Path::components` gives them on
/// Unix: `/` for a root, `.` for a leading current directory, then each
/// piece between separators that is neither empty nor `.`.
pub open spec fn components(p: Seq<char>) -> Seq<Seq<char>> {
    let pieces = split_on_slash(p);
    let normal = normal_parts(pieces);
    if p.len() > 0 && p[0] == '/' {
        seq![seq!['/']] + normal
    } else if pieces[0] == seq!['.'] {
        seq![seq!['.']] + normal
    } else {
        normal
    }
}

/// `a` is a prefix of `b`.
pub open spec fn is_prefix_of(a: Seq<Seq<char>>, b: Seq<Seq<char>>) -> bool {
    a.len() <= b.len() && b.take(a.len() as int) == a
}

/// The path `p` starts with the path `base`, component by component, as
/// `Path::starts_with` decides.
pub open spec fn path_starts_with(p: Seq<char>, base: Seq<char>) -> bool {
    is_prefix_of(components(base), components(p))
}

/// Each of `paths` percent-decoded.
pub open spec fn decode_each(paths: Seq<Seq<char>>) -> Seq<Seq<char>> {
    paths.map_values(|s: Seq<char>| percent_decoded(s))
}

/// The file that the decoded path segments `segs` name under `base`:
/// `base` with every segment pushed onto it, where the result still starts
/// with `base`.
pub open spec fn resolved_decoded(base: Seq<char>, segs: Seq<Seq<char>>) -> Option<Seq<char>> {
    let p = pushed_all(base, segs);
    if path_starts_with(p, base) {
        Some(p)
    } else {
        None
    }
}

/// The file that a request with path segments `paths` names under `base`:
/// that of its segments, percent-decoded.
pub open spec fn resolved(base: Seq<char>, paths: Seq<Seq<char>>) -> Option<Seq<char>> {
    resolved_decoded(base, decode_each(paths))
}

/// No segment of `paths` holds a `%` or starts with a separator.
pub open spec fn plain_relative(paths: Seq<Seq<char>>) -> bool {
    forall|i: int|
        0 <= i < paths.len() ==> !(#[trigger] paths[i]).contains('%') && !(paths[i].len() > 0
            && paths[i][0] == '/')
}

/// Pushes `seg` onto the path `base`, as `PathBuf::push` does on Unix.
pub fn push_path(base: String, seg: &str) -> (r: String)
    ensures
        r@ == pushed(base@, seg@),
{
    let n = seg.unicode_len();
    if n > 0 && seg.get_char(0) == '/' {
        return seg.to_owned();
    }
    let m = base.as_str().unicode_len();
    let mut b = base;
    if m > 0 && b.as_str().get_char(m - 1) != '/' {
        proof {
            reveal_strlit("/");
        }
        b.append("/");
    }
    b.append(seg);
    b
}

fn is_dot(s: &str) -> (r: bool)
    ensures
        r == (s@ == seq!['.']),
{
    if s.unicode_len() == 1 {
        let c = s.get_char(0);
        assert(c == '.' ==> s@ =~= seq!['.']);
        c == '.'
    } else {
        false
    }
}

/// Appends to `out` the pieces among `pieces` that are neither empty nor `.`.
fn push_normal_parts<'a>(out: &mut Vec<&'a str>, pieces: &Vec<&'a str>)
    ensures
        final(out).deep_view() == old(out).deep_view() + normal_parts(pieces.deep_view()),
{
    let ghost ps = pieces.deep_view();
    let ghost start = out.deep_view();
    let mut i: usize = 0;
    assert(ps.take(0) =~= Seq::<Seq<char>>::empty());
    assert(out.deep_view() =~= start + normal_parts(ps.take(0)));
    while i < pieces.len()
        invariant
            ps == pieces.deep_view(),
            0 <= i <= ps.len(),
            out.deep_view() == start + normal_parts(ps.take(i as int)),
        decreases ps.len() - i,
    {
        assert(ps.take(i + 1).drop_last() =~= ps.take(i as int));
        let piece = pieces[i];
        if piece.unicode_len() > 0 && !is_dot(piece) {
            let ghost before = out.deep_view();
            out.push(piece);
            assert(out.deep_view() =~= before.push(piece@));
            assert(out.deep_view() =~= start + normal_parts(ps.take(i + 1)));
        }
        i = i + 1;
    }
    assert(ps.take(i as int) =~= ps);
}

/// The components of the path `p`, as `Path::components` gives them on Unix.
pub fn path_components<'a>(p: &'a str) -> (r: Vec<&'a str>)
    ensures
        r.deep_view() == components(p@),
{
    let pieces = split_pieces(p);
    proof {
        crate::paths::lemma_split_nonempty(p@);
    }
    let mut out: Vec<&'a str> = Vec::new();
    let n = p.unicode_len();
    if n > 0 && p.get_char(0) == '/' {
        let root = p.substring_char(0, 1);
        assert(root@ =~= seq!['/']);
        out.push(root);
    } else if is_dot(pieces[0]) {
        out.push(pieces[0]);
    }
    push_normal_parts(&mut out, &pieces);
    assert(out.deep_view() =~= components(p@));
    out
}

/// Whether the path `p` starts with the path `base`, as `Path::starts_with`
/// decides on Unix.
pub fn starts_with_path(p: &str, base: &str) -> (r: bool)
    ensures
        r == path_starts_with(p@, base@),
{
    let a = path_components(base);
    let b = path_components(p);
    let ghost av = a.deep_view();
    let ghost bv = b.deep_view();
    if a.len() > b.len() {
        return false;
    }
    let mut i: usize = 0;
    while i < a.len()
        invariant
            av == a.deep_view(),
            bv == b.deep_view(),
            av == components(base@),
            bv == components(p@),
            av.len() <= bv.len(),
            0 <= i <= av.len(),
            forall|k: int| 0 <= k < i ==> av[k] == bv[k],
        decreases av.len() - i,
    {
        if !same_text(a[i], b[i]) {
            assert(av[i as int] == a@[i as int]@ && bv[i as int] == b@[i as int]@);
            assert(bv.take(av.len() as int)[i as int] != av[i as int]);
            return false;
        }
        i = i + 1;
    }
    assert(bv.take(av.len() as int) =~= av);
    true
}

/// A launcher that answers with the file that a request's path names under
/// a base directory.
#[derive(Debug)]
pub struct StaticLauncher {
    path: String,
}

impl StaticLauncher {
    /// The base directory.
    pub closed spec fn base(&self) -> Seq<char> {
        self.path@
    }

    pub fn new(base: &str) -> (l: StaticLauncher)
        ensures
            l.base() == base@,
    {
        StaticLauncher { path: base.to_owned() }
    }

    /// The file that the decoded path segments `decoded` name under the
    /// base directory: each pushed onto the base in turn; `None` where the
    /// result does not start with the base.
    pub fn resolve_decoded(&self, decoded: &[String]) -> (r: Option<String>)
        ensures
            r is Some <==> resolved_decoded(self.base(), decoded.deep_view()) is Some,
            r matches Some(p) ==> p@ == resolved_decoded(self.base(), decoded.deep_view())->0,
    {
        let ghost ds = decoded.deep_view();
        let mut p = self.path.clone();
        let mut i: usize = 0;
        assert(ds.take(0) =~= Seq::<Seq<char>>::empty());
        while i < decoded.len()
            invariant
                ds == decoded.deep_view(),
                0 <= i <= ds.len(),
                p@ == pushed_all(self.path@, ds.take(i as int)),
            decreases ds.len() - i,
        {
            assert(ds.take(i + 1).drop_last() =~= ds.take(i as int));
            assert(ds.take(i + 1).last() == decoded@[i as int]@);
            p = push_path(p, decoded[i].as_str());
            i = i + 1;
        }
        assert(ds.take(i as int) =~= ds);
        if starts_with_path(p.as_str(), self.path.as_str()) {
            Some(p)
        } else {
            None
        }
    }

    /// The file that the path segments `paths` name under the base
    /// directory: each segment percent-decoded and pushed onto the base in
    /// turn; `None` where the result does not start with the base. A
    /// segment without `%` decodes to itself, so segments that hold no `%`
    /// and do not start with a separator name the base with them pushed on.
    pub fn resolve(&self, paths: &[&str]) -> (r: Option<String>)
        ensures
            r is Some <==> resolved(self.base(), paths.deep_view()) is Some,
            r matches Some(p) ==> p@ == resolved(self.base(), paths.deep_view())->0,
            forall|k: int|
                0 <= k < paths@.len() && !(#[trigger] paths.deep_view()[k]).contains('%')
                    ==> percent_decoded(paths.deep_view()[k]) == paths.deep_view()[k],
            plain_relative(paths.deep_view()) ==> (r matches Some(p) && p@ == pushed_all(
                self.base(),
                paths.deep_view(),
            )),
    {
        let ghost ps = paths.deep_view();
        let mut decoded: Vec<String> = Vec::new();
        let mut i: usize = 0;
        while i < paths.len()
            invariant
                ps == paths.deep_view(),
                0 <= i <= ps.len(),
                decoded.deep_view() == decode_each(ps.take(i as int)),
                forall|k: int|
                    0 <= k < i && !(#[trigger] ps[k]).contains('%') ==> percent_decoded(ps[k])
                        == ps[k],
            decreases ps.len() - i,
        {
            let d = percent_decode_text(paths[i]);
            let ghost before = decoded.deep_view();
            decoded.push(d);
            assert(decoded.deep_view() =~= before.push(d@));
            assert(decode_each(ps.take(i + 1)) =~= decode_each(ps.take(i as int)).push(d@));
            i = i + 1;
        }
        assert(ps.take(i as int) =~= ps);
        proof {
            if plain_relative(ps) {
                assert(decode_each(ps) =~= ps);
                assert forall|j: int| 0 <= j < ps.len() implies !((#[trigger] ps[j]).len() > 0
                    && ps[j][0] == '/') by {}
                law_relative_segments_stay_under_base(self.path@, ps);
            }
        }
        self.resolve_decoded(decoded.as_slice())
    }
}

impl Clone for StaticLauncher {
    /// A launcher with the same base directory.
    fn clone(&self) -> (r: StaticLauncher)
        ensures
            r.base() == self.base(),
    {
        StaticLauncher { path: self.path.clone() }
    }
}

impl Launcher for StaticLauncher {
    open spec fn launched(&self, method: MethodView, paths: Seq<Seq<char>>) -> Option<TargetView> {
        match resolved(self.base(), paths) {
            Some(p) => Some(TargetView::File(p)),
            None => None,
        }
    }

    fn launch(&self, method: &Method, paths: &[&str]) -> (r: Option<Target>) {
        match self.resolve(paths) {
            Some(p) => Some(Target::File(p)),
            None => None,
        }
    }
}

proof fn lemma_normal_of_empty_piece()
    ensures
        normal_parts(seq![Seq::<char>::empty()]) == Seq::<Seq<char>>::empty(),
{
    let s = seq![Seq::<char>::empty()];
    assert(s.drop_last() =~= Seq::<Seq<char>>::empty());
    assert(s.last().len() == 0);
    assert(normal_parts(s.drop_last()) =~= Seq::<Seq<char>>::empty());
}

proof fn lemma_normal_concat(a: Seq<Seq<char>>, b: Seq<Seq<char>>)
    ensures
        normal_parts(a + b) == normal_parts(a) + normal_parts(b),
    decreases b.len(),
{
    if b.len() == 0 {
        assert(a + b =~= a);
        assert(normal_parts(a) + normal_parts(b) =~= normal_parts(a));
    } else {
        lemma_normal_concat(a, b.drop_last());
        assert((a + b).drop_last() =~= a + b.drop_last());
        assert((a + b).last() == b.last());
        let c = b.last();
        if c.len() > 0 && c != seq!['.'] {
            assert(normal_parts(a) + normal_parts(b) =~= (normal_parts(a) + normal_parts(
                b.drop_last(),
            )).push(c));
        }
    }
}

/// Appending to a path that ends with a separator adds components after
/// the ones it has.
proof fn lemma_components_after_separator(b: Seq<char>, seg: Seq<char>)
    requires
        b.len() > 0,
        b.last() == '/',
    ensures
        components(b + seg) == components(b) + normal_parts(split_on_slash(seg)),
{
    let x = split_on_slash(b.drop_last());
    lemma_split_nonempty(b.drop_last());
    lemma_split_nonempty(seg);
    let ss = split_on_slash(seg);
    assert(split_on_slash(b) == x.push(Seq::empty()));
    lemma_split_concat(b, seg);
    assert(split_on_slash(b).drop_last() =~= x);
    assert(Seq::<char>::empty() + ss[0] =~= ss[0]);
    assert(seq![ss[0]] + ss.drop_first() =~= ss);
    assert(split_on_slash(b + seg) =~= x + ss);
    lemma_normal_concat(x, ss);
    lemma_normal_concat(x, seq![Seq::<char>::empty()]);
    assert(x + seq![Seq::<char>::empty()] =~= x.push(Seq::empty()));
    lemma_normal_of_empty_piece();
    assert(normal_parts(split_on_slash(b)) =~= normal_parts(x));
    assert((x + ss)[0] == x[0]);
    assert(split_on_slash(b)[0] == x[0]);
    assert((b + seg)[0] == b[0]);
    let head = if b[0] == '/' {
        seq![seq!['/']]
    } else if x[0] == seq!['.'] {
        seq![seq!['.']]
    } else {
        Seq::<Seq<char>>::empty()
    };
    assert(components(b) =~= head + normal_parts(x));
    assert(components(b + seg) =~= head + (normal_parts(x) + normal_parts(ss)));
}

/// Pushing a relative segment onto a path keeps the path's components as
/// the first ones.
/// Pushing a relative segment onto a non-empty path adds the segment's
/// normal pieces after the path's components.
proof fn lemma_components_of_pushed(b: Seq<char>, seg: Seq<char>)
    requires
        b.len() > 0,
        !(seg.len() > 0 && seg[0] == '/'),
    ensures
        components(pushed(b, seg)) == components(b) + normal_parts(split_on_slash(seg)),
{
    if b.last() == '/' {
        lemma_components_after_separator(b, seg);
    } else {
        let b1 = b.push('/');
        assert(b1.drop_last() =~= b);
        assert(b + seq!['/'] + seg =~= b1 + seg);
        lemma_components_after_separator(b1, seg);
        lemma_split_nonempty(b);
        let x = split_on_slash(b);
        assert(split_on_slash(b1) == x.push(Seq::empty()));
        lemma_normal_concat(x, seq![Seq::<char>::empty()]);
        assert(x + seq![Seq::<char>::empty()] =~= x.push(Seq::empty()));
        lemma_normal_of_empty_piece();
        assert(normal_parts(split_on_slash(b1)) =~= normal_parts(x));
        assert(split_on_slash(b1)[0] == x[0]);
        assert(b1[0] == b[0]);
        assert(components(b1) =~= components(b));
    }
}

/// Pushing a relative segment onto a path keeps the path's components as
/// the first ones.
proof fn lemma_pushed_keeps_components(b: Seq<char>, seg: Seq<char>)
    requires
        !(seg.len() > 0 && seg[0] == '/'),
    ensures
        is_prefix_of(components(b), components(pushed(b, seg))),
{
    if b.len() == 0 {
        assert(split_on_slash(b) =~= seq![Seq::<char>::empty()]);
        lemma_normal_of_empty_piece();
        assert(split_on_slash(b)[0].len() == 0);
        assert(split_on_slash(b)[0] != seq!['.']);
        assert(components(b) =~= Seq::<Seq<char>>::empty());
        assert(components(pushed(b, seg)).take(0) =~= Seq::<Seq<char>>::empty());
    } else {
        lemma_components_of_pushed(b, seg);
        assert(components(pushed(b, seg)).take(components(b).len() as int) =~= components(b));
    }
}

/// A request whose decoded path segments are all relative (none starts with
/// a separator) names a file under the base: its path starts with the base.
pub proof fn law_relative_segments_stay_under_base(base: Seq<char>, segs: Seq<Seq<char>>)
    requires
        forall|i: int| 0 <= i < segs.len() ==> !((#[trigger] segs[i]).len() > 0 && segs[i][0] == '/'),
    ensures
        path_starts_with(pushed_all(base, segs), base),
    decreases segs.len(),
{
    if segs.len() == 0 {
        assert(components(base).take(components(base).len() as int) =~= components(base));
    } else {
        let pre = segs.drop_last();
        assert forall|i: int| 0 <= i < pre.len() implies !((#[trigger] pre[i]).len() > 0 && pre[i][0] == '/') by {
            assert(pre[i] == segs[i]);
        }
        law_relative_segments_stay_under_base(base, pre);
        let p = pushed_all(base, pre);
        assert(segs[segs.len() - 1] == segs.last());
        lemma_pushed_keeps_components(p, segs.last());
        let cb = components(base);
        let cp = components(p);
        let cq = components(pushed(p, segs.last()));
        assert(cq.take(cb.len() as int) =~= cp.take(cb.len() as int)) by {
            assert forall|k: int| 0 <= k < cb.len() implies cq.take(cb.len() as int)[k] == cp.take(cb.len() as int)[k] by {
                assert(cq.take(cp.len() as int)[k] == cq[k]);
            }
        }
    }
}

/// What a static launcher answers is a file whose path starts with its base
/// directory; it answers every request whose decoded segments are relative.
pub proof fn law_static_files_under_base(l: StaticLauncher, method: MethodView, paths: Seq<Seq<char>>)
    ensures
        l.launched(method, paths) matches Some(t) ==> t matches TargetView::File(p) && path_starts_with(
            p,
            l.base(),
        ),
        (forall|i: int|
            0 <= i < paths.len() ==> !((#[trigger] decode_each(paths)[i]).len() > 0 && decode_each(
                paths,
            )[i][0] == '/')) ==> l.launched(method, paths) is Some,
{
    if forall|i: int|
        0 <= i < paths.len() ==> !((#[trigger] decode_each(paths)[i]).len() > 0 && decode_each(
            paths,
        )[i][0] == '/') {
        law_relative_segments_stay_under_base(l.base(), decode_each(paths));
    }
}

/// Pushing onto a non-empty path never gives an empty one.
proof fn lemma_pushed_all_nonempty(base: Seq<char>, segs: Seq<Seq<char>>)
    requires
        base.len() > 0,
    ensures
        pushed_all(base, segs).len() > 0,
    decreases segs.len(),
{
    if segs.len() > 0 {
        lemma_pushed_all_nonempty(base, segs.drop_last());
    }
}

/// Every segment of a request is percent-decoded before it is pushed: what
/// the segments `paths` name is what the segments `ds` name, where `ds[k]`
/// is `paths[k]` decoded, for every `k`.
pub proof fn law_every_segment_is_decoded(base: Seq<char>, paths: Seq<Seq<char>>, ds: Seq<Seq<char>>)
    requires
        ds.len() == paths.len(),
        forall|k: int| 0 <= k < paths.len() ==> ds[k] == percent_decoded(#[trigger] paths[k]),
    ensures
        resolved(base, paths) == resolved_decoded(base, ds),
{
    assert(decode_each(paths) =~= ds);
}

/// Each further relative segment is pushed: under a non-empty base, the
/// file that relative segments `segs` followed by `s` name has the
/// components of the file that `segs` name, followed by the pieces of `s`
/// that are neither empty nor `.`, in order.
pub proof fn law_each_segment_adds_its_components(base: Seq<char>, segs: Seq<Seq<char>>, s: Seq<char>)
    requires
        base.len() > 0,
        forall|i: int| 0 <= i < segs.len() ==> !((#[trigger] segs[i]).len() > 0 && segs[i][0] == '/'),
        !(s.len() > 0 && s[0] == '/'),
    ensures
        resolved_decoded(base, segs) matches Some(r1) && resolved_decoded(base, segs.push(s)) matches Some(
            r2,
        ) && components(r2) == components(r1) + normal_parts(split_on_slash(s)) && components(r2).len()
            == components(r1).len() + normal_parts(split_on_slash(s)).len(),
{
    let all = segs.push(s);
    assert(all.drop_last() =~= segs);
    assert(all.last() == s);
    assert forall|i: int| 0 <= i < all.len() implies !((#[trigger] all[i]).len() > 0 && all[i][0] == '/') by {
        if i < segs.len() {
            assert(all[i] == segs[i]);
        }
    }
    law_relative_segments_stay_under_base(base, segs);
    law_relative_segments_stay_under_base(base, all);
    lemma_pushed_all_nonempty(base, segs);
    lemma_components_of_pushed(pushed_all(base, segs), s);
}

} // verus!
