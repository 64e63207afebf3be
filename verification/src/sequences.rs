//! Facts about `filter_map` and `flat_map` on sequences.

use vstd::prelude::*;

verus! {

/// For each entry of `s.filter_map(f)`, the position in `s` that it came
/// from. The positions are increasing: `filter_map` keeps the order.
pub proof fn filter_map_sources<A, B>(s: Seq<A>, f: spec_fn(A) -> Option<B>) -> (src: Seq<int>)
    ensures
        src.len() == s.filter_map(f).len(),
        forall|k: int|
            0 <= k < src.len() ==> 0 <= #[trigger] src[k] < s.len() && f(s[src[k]]) == Some(
                s.filter_map(f)[k],
            ),
        forall|k: int, m: int| 0 <= k < m < src.len() ==> #[trigger] src[k] < #[trigger] src[m],
    decreases s.len(),
{
    if s.len() == 0 {
        Seq::empty()
    } else {
        let front = s.drop_last();
        let front_src = filter_map_sources(front, f);
        assert forall|k: int| 0 <= k < front_src.len() implies f(s[#[trigger] front_src[k]])
            == Some(front.filter_map(f)[k]) by {
            assert(front[front_src[k]] == s[front_src[k]]);
        }
        match f(s.last()) {
            Some(b) => front_src.push(s.len() - 1),
            None => front_src,
        }
    }
}

/// Every entry of `s` that `f` keeps occurs in `s.filter_map(f)`.
pub proof fn filter_map_keeps<A, B>(s: Seq<A>, f: spec_fn(A) -> Option<B>, i: int)
    requires
        0 <= i < s.len(),
        f(s[i]) is Some,
    ensures
        s.filter_map(f).contains(f(s[i])->0),
    decreases s.len(),
{
    let front = s.drop_last();
    let kept = s.filter_map(f);
    if i == s.len() - 1 {
        assert(kept[kept.len() - 1] == f(s[i])->0);
    } else {
        filter_map_keeps(front, f, i);
        assert(front[i] == s[i]);
        let k = choose|k: int| 0 <= k < front.filter_map(f).len() && front.filter_map(f)[k] == f(
            s[i],
        )->0;
        assert(kept[k] == f(s[i])->0);
    }
}

/// Two sequences that `f` and `g` treat alike, entry by entry, have the same
/// `filter_map`.
pub proof fn filter_map_alike<A, B>(
    s1: Seq<A>,
    f: spec_fn(A) -> Option<B>,
    s2: Seq<A>,
    g: spec_fn(A) -> Option<B>,
)
    requires
        s1.len() == s2.len(),
        forall|k: int| 0 <= k < s1.len() ==> f(#[trigger] s1[k]) == g(s2[k]),
    ensures
        s1.filter_map(f) == s2.filter_map(g),
    decreases s1.len(),
{
    if s1.len() > 0 {
        let front1 = s1.drop_last();
        let front2 = s2.drop_last();
        assert forall|k: int| 0 <= k < front1.len() implies f(#[trigger] front1[k]) == g(
            front2[k],
        ) by {
            assert(front1[k] == s1[k]);
            assert(front2[k] == s2[k]);
        }
        filter_map_alike(front1, f, front2, g);
        assert(f(s1[s1.len() - 1]) == g(s2[s1.len() - 1]));
    }
}

/// An entry that `f` drops can be inserted anywhere without a trace in the
/// `filter_map`.
pub proof fn filter_map_skips<A, B>(s: Seq<A>, f: spec_fn(A) -> Option<B>, p: int, x: A)
    requires
        0 <= p <= s.len(),
        f(x) is None,
    ensures
        s.insert(p, x).filter_map(f) == s.filter_map(f),
    decreases s.len(),
{
    let with_x = s.insert(p, x);
    if p == s.len() {
        assert(with_x.drop_last() =~= s);
        assert(with_x.last() == x);
    } else {
        let front = s.drop_last();
        filter_map_skips(front, f, p, x);
        assert(with_x.drop_last() =~= front.insert(p, x));
        assert(with_x.last() == s.last());
    }
}

/// Two sequences that `f` and `g` treat alike, entry by entry, have the same
/// `flat_map`.
pub proof fn flat_map_alike<A, B>(
    s1: Seq<A>,
    f: spec_fn(A) -> Seq<B>,
    s2: Seq<A>,
    g: spec_fn(A) -> Seq<B>,
)
    requires
        s1.len() == s2.len(),
        forall|k: int| 0 <= k < s1.len() ==> f(#[trigger] s1[k]) == g(s2[k]),
    ensures
        s1.flat_map(f) == s2.flat_map(g),
{
    assert(s1.map_values(f) =~= s2.map_values(g));
}

/// The `flat_map` of a sequence is that of its front followed by the image
/// of its last entry.
proof fn flat_map_front<A, B>(s: Seq<A>, f: spec_fn(A) -> Seq<B>)
    requires
        s.len() > 0,
    ensures
        s.flat_map(f) == s.drop_last().flat_map(f) + f(s.last()),
{
    assert(s.map_values(f) =~= s.drop_last().map_values(f).push(f(s.last())));
    s.drop_last().map_values(f).lemma_flatten_push(f(s.last()));
}

/// An entry that `f` maps to nothing can be inserted anywhere without a
/// trace in the `flat_map`.
pub proof fn flat_map_skips<A, B>(s: Seq<A>, f: spec_fn(A) -> Seq<B>, p: int, x: A)
    requires
        0 <= p <= s.len(),
        f(x) == Seq::<B>::empty(),
    ensures
        s.insert(p, x).flat_map(f) == s.flat_map(f),
    decreases s.len(),
{
    let with_x = s.insert(p, x);
    if p == s.len() {
        assert(with_x =~= s.push(x));
        assert(with_x.map_values(f) =~= s.map_values(f).push(f(x)));
        s.map_values(f).lemma_flatten_push(f(x));
        assert(s.flat_map(f) + f(x) =~= s.flat_map(f));
    } else {
        let front = s.drop_last();
        flat_map_front(s, f);
        flat_map_skips(front, f, p, x);
        assert(with_x.drop_last() =~= front.insert(p, x));
        assert(with_x.last() == s.last());
        flat_map_front(with_x, f);
    }
}

} // verus!
