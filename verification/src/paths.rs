//! Request paths and their segments.
use vstd::prelude::*;
use vstd::string::*;

verus! {

/// The pieces of `s` between its slashes, as `str::split('/')` yields them:
/// always at least one, the empty text for the empty string.
pub open spec fn split_on_slash(s: Seq<char>) -> Seq<Seq<char>>
    decreases s.len(),
{
    if s.len() == 0 {
        seq![Seq::empty()]
    } else {
        let pre = split_on_slash(s.drop_last());
        if s.last() == '/' {
            pre.push(Seq::empty())
        } else {
            pre.update(pre.len() - 1, pre.last().push(s.last()))
        }
    }
}

/// The segments of a request path: the pieces between its slashes, the
/// first (the text before the leading slash) left out.
pub open spec fn path_segments(path: Seq<char>) -> Seq<Seq<char>> {
    split_on_slash(path).drop_first()
}

pub proof fn lemma_split_nonempty(s: Seq<char>)
    ensures
        split_on_slash(s).len() >= 1,
    decreases s.len(),
{
    if s.len() > 0 {
        lemma_split_nonempty(s.drop_last());
    }
}

/// The pieces of `path` between its slashes, as `str::split('/')` yields them.
pub fn split_pieces(path: &str) -> (r: Vec<&str>)
    ensures
        r.deep_view() == split_on_slash(path@),
{
    let n = path.unicode_len();
    let mut pieces: Vec<&str> = Vec::new();
    let mut start: usize = 0;
    let mut i: usize = 0;
    assert(path@.take(0) =~= Seq::<char>::empty());
    assert(pieces.deep_view() + seq![path@.subrange(0, 0)] =~= seq![Seq::<char>::empty()]);
    while i < n
        invariant
            n == path@.len(),
            start <= i <= n,
            pieces.deep_view() + seq![path@.subrange(start as int, i as int)] == split_on_slash(
                path@.take(i as int),
            ),
        decreases n - i,
    {
        let c = path.get_char(i);
        let ghost before = split_on_slash(path@.take(i as int));
        assert(path@.take(i + 1).drop_last() =~= path@.take(i as int));
        assert(path@.take(i + 1).last() == c);
        if c == '/' {
            let piece = path.substring_char(start, i);
            let ghost old_pieces = pieces.deep_view();
            pieces.push(piece);
            assert(pieces.deep_view() =~= old_pieces.push(path@.subrange(start as int, i as int)));
            start = i + 1;
            assert(path@.subrange(start as int, i + 1) =~= Seq::<char>::empty());
            assert(pieces.deep_view() + seq![path@.subrange(start as int, i + 1)] =~= before.push(
                Seq::empty(),
            ));
        } else {
            assert(path@.subrange(start as int, i as int).push(c) =~= path@.subrange(
                start as int,
                i + 1,
            ));
            assert(pieces.deep_view() + seq![path@.subrange(start as int, i + 1)] =~= before.update(
                before.len() - 1,
                before.last().push(c),
            ));
        }
        i = i + 1;
    }
    let last = path.substring_char(start, n);
    let ghost old_pieces = pieces.deep_view();
    pieces.push(last);
    assert(pieces.deep_view() =~= old_pieces.push(path@.subrange(start as int, n as int)));
    assert(path@.take(n as int) =~= path@);
    pieces
}

/// Splits a request path into its segments: the pieces of `path` between
/// its slashes, without the first one (for `/hoge/fuga`: `hoge`, `fuga`).
pub fn split_path(path: &str) -> (r: Vec<&str>)
    ensures
        r.deep_view() == path_segments(path@),
{
    let mut pieces = split_pieces(path);
    let ghost all = pieces.deep_view();
    proof { lemma_split_nonempty(path@); }
    pieces.remove(0);
    assert(pieces.deep_view() =~= all.drop_first());
    pieces
}

/// Whether two texts are equal.
pub fn same_text(a: &str, b: &str) -> (r: bool)
    ensures
        r == (a@ == b@),
{
    a.to_owned() == b.to_owned()
}

/// Splitting `x + y`: the last piece of `x` and the first piece of `y` join
/// into one; the other pieces stay as they were.
pub proof fn lemma_split_concat(x: Seq<char>, y: Seq<char>)
    ensures
        split_on_slash(x + y) == split_on_slash(x).drop_last() + seq![
            split_on_slash(x).last() + split_on_slash(y)[0],
        ] + split_on_slash(y).drop_first(),
    decreases y.len(),
{
    lemma_split_nonempty(x);
    lemma_split_nonempty(y);
    let sx = split_on_slash(x);
    if y.len() == 0 {
        assert(x + y =~= x);
        assert(split_on_slash(y) =~= seq![Seq::<char>::empty()]);
        assert(sx.last() + Seq::<char>::empty() =~= sx.last());
        assert(sx.drop_last() + seq![sx.last()] =~= sx);
        assert(sx.drop_last() + seq![sx.last() + split_on_slash(y)[0]] + split_on_slash(
            y,
        ).drop_first() =~= sx);
    } else {
        let y1 = y.drop_last();
        let c = y.last();
        lemma_split_concat(x, y1);
        lemma_split_nonempty(y1);
        assert((x + y).drop_last() =~= x + y1);
        assert((x + y).last() == c);
        let s1 = split_on_slash(y1);
        let p = split_on_slash(x + y1);
        assert(p == sx.drop_last() + seq![sx.last() + s1[0]] + s1.drop_first());
        if c == '/' {
            assert(split_on_slash(y) == s1.push(Seq::empty()));
            assert(split_on_slash(x + y) == p.push(Seq::empty()));
            assert(split_on_slash(y)[0] == s1[0]);
            assert(split_on_slash(y).drop_first() =~= s1.drop_first().push(Seq::empty()));
            assert(split_on_slash(x + y) =~= sx.drop_last() + seq![sx.last() + split_on_slash(y)[0]]
                + split_on_slash(y).drop_first());
        } else {
            assert(split_on_slash(y) == s1.update(s1.len() - 1, s1.last().push(c)));
            assert(split_on_slash(x + y) == p.update(p.len() - 1, p.last().push(c)));
            if s1.len() == 1 {
                assert(split_on_slash(y)[0] == s1[0].push(c));
                assert(split_on_slash(y).drop_first() =~= Seq::<Seq<char>>::empty());
                assert(p.last() == sx.last() + s1[0]);
                assert((sx.last() + s1[0]).push(c) =~= sx.last() + s1[0].push(c));
                assert(split_on_slash(x + y) =~= sx.drop_last() + seq![
                    sx.last() + split_on_slash(y)[0],
                ] + split_on_slash(y).drop_first());
            } else {
                assert(split_on_slash(y)[0] == s1[0]);
                assert(split_on_slash(y).drop_first() =~= s1.drop_first().update(
                    s1.len() - 2,
                    s1.last().push(c),
                ));
                assert(p.last() == s1.last());
                assert(split_on_slash(x + y) =~= sx.drop_last() + seq![
                    sx.last() + split_on_slash(y)[0],
                ] + split_on_slash(y).drop_first());
            }
        }
    }
}

/// The pieces joined again, with a slash between each two.
pub open spec fn join_with_slash(pieces: Seq<Seq<char>>) -> Seq<char>
    decreases pieces.len(),
{
    if pieces.len() <= 1 {
        if pieces.len() == 1 {
            pieces[0]
        } else {
            Seq::empty()
        }
    } else {
        join_with_slash(pieces.drop_last()) + seq!['/'] + pieces.last()
    }
}

proof fn lemma_join_extend_last(p: Seq<Seq<char>>, c: char)
    requires
        p.len() > 0,
    ensures
        join_with_slash(p.update(p.len() - 1, p.last().push(c))) == join_with_slash(p).push(c),
{
    let q = p.update(p.len() - 1, p.last().push(c));
    if p.len() > 1 {
        assert(q.drop_last() =~= p.drop_last());
        assert(join_with_slash(q) =~= join_with_slash(p).push(c));
    }
}

/// Splitting at slashes loses nothing and keeps no slash: the pieces hold
/// no slash, and joined again with slashes they give back the text.
pub proof fn law_split_joins_back(s: Seq<char>)
    ensures
        join_with_slash(split_on_slash(s)) == s,
        forall|i: int|
            0 <= i < split_on_slash(s).len() ==> !(#[trigger] split_on_slash(s)[i]).contains('/'),
    decreases s.len(),
{
    if s.len() == 0 {
        assert(join_with_slash(split_on_slash(s)) =~= s);
    } else {
        let s1 = s.drop_last();
        let c = s.last();
        law_split_joins_back(s1);
        lemma_split_nonempty(s1);
        let pre = split_on_slash(s1);
        if c == '/' {
            let q = pre.push(Seq::empty());
            assert(q.drop_last() =~= pre);
            assert(join_with_slash(q) =~= s1 + seq!['/'] + Seq::<char>::empty());
            assert(s1 + seq!['/'] + Seq::<char>::empty() =~= s);
            assert forall|i: int| 0 <= i < q.len() implies !(#[trigger] q[i]).contains('/') by {
                if i < pre.len() {
                    assert(q[i] == pre[i]);
                }
            }
        } else {
            lemma_join_extend_last(pre, c);
            assert(s1.push(c) =~= s);
            let q = pre.update(pre.len() - 1, pre.last().push(c));
            assert forall|i: int| 0 <= i < q.len() implies !(#[trigger] q[i]).contains('/') by {
                if i < pre.len() - 1 {
                    assert(q[i] == pre[i]);
                } else {
                    let l = pre.last();
                    assert(q[i] == l.push(c));
                    if l.push(c).contains('/') {
                        let k = choose|k: int| 0 <= k < l.push(c).len() && l.push(c)[k] == '/';
                        if k < l.len() {
                            assert(l[k] == '/');
                            assert(pre[pre.len() - 1].contains('/'));
                        }
                    }
                }
            }
        }
    }
}

/// The segments of a path that starts with a slash are the pieces of what
/// follows that slash; the path is a slash followed by its segments joined
/// with slashes.
pub proof fn law_path_segments_follow_the_slash(rest: Seq<char>)
    ensures
        path_segments(seq!['/'] + rest) == split_on_slash(rest),
        seq!['/'] + join_with_slash(path_segments(seq!['/'] + rest)) == seq!['/'] + rest,
{
    let slash = seq!['/'];
    lemma_split_concat(slash, rest);
    assert(slash.drop_last() =~= Seq::<char>::empty());
    assert(split_on_slash(Seq::<char>::empty()) =~= seq![Seq::<char>::empty()]);
    assert(split_on_slash(slash) =~= seq![Seq::<char>::empty(), Seq::<char>::empty()]);
    lemma_split_nonempty(rest);
    let sr = split_on_slash(rest);
    assert(Seq::<char>::empty() + sr[0] =~= sr[0]);
    assert(split_on_slash(slash + rest) =~= seq![Seq::<char>::empty()] + sr);
    assert(path_segments(slash + rest) =~= sr);
    law_split_joins_back(rest);
}

} // verus!
