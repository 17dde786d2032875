//! Facts about sequences that the proofs of the store rest on: how `filter`
//! treats a pushed element, what it keeps, and that it keeps order.

use vstd::prelude::*;

verus! {

/// Filtering after a push is a push after filtering, if the element passes.
pub proof fn lemma_filter_push<A>(s: Seq<A>, x: A, p: spec_fn(A) -> bool)
    ensures
        s.push(x).filter(p) == if p(x) {
            s.filter(p).push(x)
        } else {
            s.filter(p)
        },
{
    reveal(Seq::filter);
    assert(s.push(x).drop_last() =~= s);
}

/// The first `i + 1` elements, filtered, in terms of the first `i`.
pub proof fn lemma_filter_take_next<A>(s: Seq<A>, i: int, p: spec_fn(A) -> bool)
    requires
        0 <= i < s.len(),
    ensures
        s.take(i + 1).filter(p) == if p(s[i]) {
            s.take(i).filter(p).push(s[i])
        } else {
            s.take(i).filter(p)
        },
{
    assert(s.take(i + 1) =~= s.take(i).push(s[i]));
    lemma_filter_push(s.take(i), s[i], p);
}

/// A filter keeps exactly the elements that pass.
pub proof fn lemma_filter_contains<A>(s: Seq<A>, p: spec_fn(A) -> bool)
    ensures
        forall|x: A| #[trigger] s.filter(p).contains(x) <==> s.contains(x) && p(x),
    decreases s.len(),
{
    reveal(Seq::filter);
    if s.len() == 0 {
        assert forall|x: A| #[trigger] s.filter(p).contains(x) <==> s.contains(x) && p(x) by {}
    } else {
        let rest = s.drop_last();
        let last = s.last();
        lemma_filter_contains(rest, p);
        let f = s.filter(p);
        let fr = rest.filter(p);
        assert(f == if p(last) {
            fr.push(last)
        } else {
            fr
        });
        assert forall|x: A| #[trigger] f.contains(x) <==> s.contains(x) && p(x) by {
            if f.contains(x) {
                let k = choose|k: int| 0 <= k < f.len() && f[k] == x;
                if p(last) && k == f.len() - 1 {
                    assert(s[s.len() - 1] == x);
                } else {
                    assert(fr[k] == x);
                    assert(fr.contains(x));
                    let m = choose|m: int| 0 <= m < rest.len() && rest[m] == x;
                    assert(s[m] == x);
                }
            }
            if s.contains(x) && p(x) {
                let m = choose|m: int| 0 <= m < s.len() && s[m] == x;
                if m == s.len() - 1 {
                    assert(f[f.len() - 1] == x);
                } else {
                    assert(rest[m] == x);
                    assert(rest.contains(x));
                    assert(fr.contains(x));
                    let k = choose|k: int| 0 <= k < fr.len() && fr[k] == x;
                    assert(f[k] == x);
                }
            }
        }
    }
}

/// A relation that holds of every earlier and later element of a sequence
/// holds of every earlier and later element of what a filter keeps.
pub proof fn lemma_filter_pairwise<A>(s: Seq<A>, p: spec_fn(A) -> bool, r: spec_fn(A, A) -> bool)
    requires
        forall|i: int, j: int| 0 <= i < j < s.len() ==> r(#[trigger] s[i], #[trigger] s[j]),
    ensures
        forall|i: int, j: int|
            0 <= i < j < s.filter(p).len() ==> r(
                #[trigger] s.filter(p)[i],
                #[trigger] s.filter(p)[j],
            ),
    decreases s.len(),
{
    reveal(Seq::filter);
    if s.len() > 0 {
        let rest = s.drop_last();
        let last = s.last();
        assert forall|i: int, j: int| 0 <= i < j < rest.len() implies r(
            #[trigger] rest[i],
            #[trigger] rest[j],
        ) by {
            assert(rest[i] == s[i] && rest[j] == s[j]);
        }
        lemma_filter_pairwise(rest, p, r);
        lemma_filter_contains(rest, p);
        let f = s.filter(p);
        let fr = rest.filter(p);
        assert forall|i: int, j: int| 0 <= i < j < f.len() implies r(
            #[trigger] f[i],
            #[trigger] f[j],
        ) by {
            if p(last) && j == f.len() - 1 {
                assert(fr[i] == f[i]);
                assert(fr.contains(f[i]));
                let m = choose|m: int| 0 <= m < rest.len() && rest[m] == f[i];
                assert(s[m] == f[i]);
                assert(s[s.len() - 1] == f[j]);
            } else {
                assert(fr[i] == f[i] && fr[j] == f[j]);
            }
        }
    }
}

/// A filter that every element passes changes nothing.
pub proof fn lemma_filter_all<A>(s: Seq<A>, p: spec_fn(A) -> bool)
    requires
        forall|i: int| 0 <= i < s.len() ==> p(#[trigger] s[i]),
    ensures
        s.filter(p) == s,
    decreases s.len(),
{
    reveal(Seq::filter);
    if s.len() > 0 {
        let rest = s.drop_last();
        assert forall|i: int| 0 <= i < rest.len() implies p(#[trigger] rest[i]) by {
            assert(rest[i] == s[i]);
        }
        lemma_filter_all(rest, p);
        assert(rest.push(s.last()) =~= s);
    }
}

/// A filter that no element passes keeps nothing.
pub proof fn lemma_filter_none<A>(s: Seq<A>, p: spec_fn(A) -> bool)
    requires
        forall|i: int| 0 <= i < s.len() ==> !p(#[trigger] s[i]),
    ensures
        s.filter(p).len() == 0,
    decreases s.len(),
{
    reveal(Seq::filter);
    if s.len() > 0 {
        let rest = s.drop_last();
        assert forall|i: int| 0 <= i < rest.len() implies !p(#[trigger] rest[i]) by {
            assert(rest[i] == s[i]);
        }
        lemma_filter_none(rest, p);
    }
}

/// A strictly growing sequence of integers between 1 and `n` that holds every
/// integer from 1 to `n` is 1, 2, ..., `n`.
pub proof fn lemma_growing_cover(s: Seq<int>, n: int)
    requires
        forall|i: int, j: int| 0 <= i < j < s.len() ==> #[trigger] s[i] < #[trigger] s[j],
        forall|i: int| 0 <= i < s.len() ==> 1 <= #[trigger] s[i] <= n,
        forall|v: int| 1 <= v <= n ==> #[trigger] s.contains(v),
    ensures
        s.len() == n || (n < 0 && s.len() == 0),
        forall|i: int| 0 <= i < s.len() ==> #[trigger] s[i] == i + 1,
    decreases s.len(),
{
    if s.len() == 0 {
        if n >= 1 {
            assert(s.contains(1));
        }
    } else {
        let last = s.last();
        let rest = s.drop_last();
        // the greatest element is `n`
        assert(s.contains(n)) by {
            assert(1 <= s[0] <= n);
        }
        let k = choose|k: int| 0 <= k < s.len() && s[k] == n;
        assert(k == s.len() - 1) by {
            if k < s.len() - 1 {
                assert(s[k] < s[s.len() - 1]);
            }
        }
        assert forall|i: int, j: int| 0 <= i < j < rest.len() implies #[trigger] rest[i]
            < #[trigger] rest[j] by {
            assert(rest[i] == s[i] && rest[j] == s[j]);
        }
        assert forall|i: int| 0 <= i < rest.len() implies 1 <= #[trigger] rest[i] <= n - 1 by {
            assert(rest[i] == s[i]);
            assert(s[i] < s[s.len() - 1]);
        }
        assert forall|v: int| 1 <= v <= n - 1 implies #[trigger] rest.contains(v) by {
            assert(s.contains(v));
            let m = choose|m: int| 0 <= m < s.len() && s[m] == v;
            assert(m < s.len() - 1);
            assert(rest[m] == v);
        }
        lemma_growing_cover(rest, n - 1);
        assert forall|i: int| 0 <= i < s.len() implies #[trigger] s[i] == i + 1 by {
            if i < s.len() - 1 {
                assert(rest[i] == s[i]);
            }
        }
    }
}

} // verus!
