//! General facts about filtering sequences, used by the review flow and the
//! cascade withdrawal proofs.

use vstd::prelude::*;

verus! {

/// The conjunction of two predicates, as one predicate.
pub open spec fn and_pred<A>(p: spec_fn(A) -> bool, q: spec_fn(A) -> bool) -> spec_fn(A) -> bool {
    |x: A| p(x) && q(x)
}

/// Filtering a sequence extended by one element keeps the element exactly
/// when the predicate admits it.
pub proof fn lemma_filter_push<A>(s: Seq<A>, pred: spec_fn(A) -> bool, x: A)
    ensures
        s.push(x).filter(pred) == if pred(x) {
            s.filter(pred).push(x)
        } else {
            s.filter(pred)
        },
{
    reveal(Seq::filter);
    assert(s.push(x).drop_last() =~= s);
    assert(s.push(x).last() == x);
}

/// A pointwise weaker predicate never keeps fewer elements.
pub proof fn lemma_filter_imp_len<A>(s: Seq<A>, p: spec_fn(A) -> bool, q: spec_fn(A) -> bool)
    requires
        forall|x: A| #[trigger] p(x) ==> q(x),
    ensures
        s.filter(p).len() <= s.filter(q).len(),
    decreases s.len(),
{
    reveal(Seq::filter);
    if s.len() == 0 {
    } else {
        let s0 = s.drop_last();
        let a = s.last();
        lemma_filter_imp_len(s0, p, q);
        assert(s =~= s0.push(a));
        lemma_filter_push(s0, p, a);
        lemma_filter_push(s0, q, a);
    }
}

/// A pointwise stronger predicate that loses at least one held element
/// keeps strictly fewer elements.
pub proof fn lemma_filter_strict_imp_len<A>(
    s: Seq<A>,
    p: spec_fn(A) -> bool,
    q: spec_fn(A) -> bool,
    w: A,
)
    requires
        forall|x: A| #[trigger] p(x) ==> q(x),
        s.contains(w),
        q(w),
        !p(w),
    ensures
        s.filter(p).len() < s.filter(q).len(),
    decreases s.len(),
{
    reveal(Seq::filter);
    let iw = choose|i: int| 0 <= i < s.len() && s[i] == w;
    assert(s.len() > 0);
    let s0 = s.drop_last();
    let a = s.last();
    assert(s =~= s0.push(a));
    lemma_filter_push(s0, p, a);
    lemma_filter_push(s0, q, a);
    if a == w {
        lemma_filter_imp_len(s0, p, q);
    } else {
        assert(s0.contains(w)) by {
            let i = choose|i: int| 0 <= i < s.len() && s[i] == w;
            assert(s0[i] == w);
        }
        lemma_filter_strict_imp_len(s0, p, q, w);
    }
}

/// Filtering twice is filtering once by any pointwise conjunction.
pub proof fn lemma_filter_split<A>(
    s: Seq<A>,
    p: spec_fn(A) -> bool,
    q: spec_fn(A) -> bool,
    r: spec_fn(A) -> bool,
)
    requires
        forall|x: A| #[trigger] r(x) == (p(x) && q(x)),
    ensures
        s.filter(p).filter(q) == s.filter(r),
    decreases s.len(),
{
    reveal(Seq::filter);
    if s.len() == 0 {
        assert(s.filter(p).filter(q) =~= s.filter(r));
    } else {
        let s0 = s.drop_last();
        let a = s.last();
        lemma_filter_split(s0, p, q, r);
        assert(s =~= s0.push(a));
        lemma_filter_push(s0, p, a);
        lemma_filter_push(s0, r, a);
        if p(a) {
            lemma_filter_push(s0.filter(p), q, a);
        }
        assert(r(a) == (p(a) && q(a)));
    }
}

/// A predicate admitting every element keeps the sequence unchanged.
pub proof fn lemma_filter_all<A>(s: Seq<A>, p: spec_fn(A) -> bool)
    requires
        forall|i: int| 0 <= i < s.len() ==> p(#[trigger] s[i]),
    ensures
        s.filter(p) == s,
    decreases s.len(),
{
    reveal(Seq::filter);
    if s.len() == 0 {
        assert(s.filter(p) =~= s);
    } else {
        let s0 = s.drop_last();
        let a = s.last();
        assert(forall|i: int| 0 <= i < s0.len() ==> p(#[trigger] s0[i]));
        lemma_filter_all(s0, p);
        assert(s =~= s0.push(a));
        lemma_filter_push(s0, p, a);
        assert(p(a));
        assert(s.filter(p) =~= s);
    }
}

/// A predicate admitting no element leaves the empty sequence.
pub proof fn lemma_filter_none<A>(s: Seq<A>, p: spec_fn(A) -> bool)
    requires
        forall|i: int| 0 <= i < s.len() ==> !p(#[trigger] s[i]),
    ensures
        s.filter(p) == Seq::<A>::empty(),
    decreases s.len(),
{
    reveal(Seq::filter);
    if s.len() == 0 {
        assert(s.filter(p) =~= Seq::<A>::empty());
    } else {
        let s0 = s.drop_last();
        let a = s.last();
        assert(forall|i: int| 0 <= i < s0.len() ==> !p(#[trigger] s0[i]));
        lemma_filter_none(s0, p);
        assert(s =~= s0.push(a));
        lemma_filter_push(s0, p, a);
    }
}

/// A predicate and its complement split the sequence's length exactly.
pub proof fn lemma_filter_partition_len<A>(s: Seq<A>, p: spec_fn(A) -> bool, q: spec_fn(A) -> bool)
    requires
        forall|i: int| 0 <= i < s.len() ==> q(#[trigger] s[i]) == !p(s[i]),
    ensures
        s.filter(p).len() + s.filter(q).len() == s.len(),
    decreases s.len(),
{
    reveal(Seq::filter);
    if s.len() == 0 {
    } else {
        let s0 = s.drop_last();
        let a = s.last();
        assert(forall|i: int| 0 <= i < s0.len() ==> q(#[trigger] s0[i]) == !p(s0[i]));
        lemma_filter_partition_len(s0, p, q);
        assert(s =~= s0.push(a));
        lemma_filter_push(s0, p, a);
        lemma_filter_push(s0, q, a);
        assert(q(a) == !p(a));
    }
}

/// An element is kept by a filter exactly when the sequence holds it and
/// the predicate admits it.
pub proof fn lemma_filter_membership<A>(s: Seq<A>, p: spec_fn(A) -> bool)
    ensures
        forall|x: A| s.filter(p).contains(x) <==> s.contains(x) && #[trigger] p(x),
    decreases s.len(),
{
    reveal(Seq::filter);
    if s.len() == 0 {
        assert forall|x: A| s.filter(p).contains(x) <==> s.contains(x) && #[trigger] p(x) by {
            assert(!s.contains(x));
            assert(!s.filter(p).contains(x));
        }
    } else {
        let s0 = s.drop_last();
        let a = s.last();
        lemma_filter_membership(s0, p);
        assert(s =~= s0.push(a));
        lemma_filter_push(s0, p, a);
        assert forall|x: A| s.filter(p).contains(x) <==> s.contains(x) && #[trigger] p(x) by {
            assert(s.contains(x) <==> s0.contains(x) || x == a);
            if p(a) {
                assert(s.filter(p).contains(x) <==> s0.filter(p).contains(x) || x == a);
            } else {
                assert(s.filter(p) == s0.filter(p));
            }
        }
    }
}

/// Filtering keeps a duplicate-free sequence duplicate-free.
pub proof fn lemma_filter_no_dup<A>(s: Seq<A>, p: spec_fn(A) -> bool)
    requires
        s.no_duplicates(),
    ensures
        s.filter(p).no_duplicates(),
    decreases s.len(),
{
    reveal(Seq::filter);
    if s.len() == 0 {
    } else {
        let s0 = s.drop_last();
        let a = s.last();
        assert(s0.no_duplicates());
        lemma_filter_no_dup(s0, p);
        assert(s =~= s0.push(a));
        lemma_filter_push(s0, p, a);
        if p(a) {
            assert(!s0.contains(a)) by {
                if s0.contains(a) {
                    let j = choose|j: int| 0 <= j < s0.len() && s0[j] == a;
                    assert(s[j] == s[s.len() - 1]);
                }
            }
            lemma_filter_membership(s0, p);
            assert(!s0.filter(p).contains(a));
            let f = s0.filter(p).push(a);
            assert forall|i: int, j: int| 0 <= i < j < f.len() implies f[i] != f[j] by {
                if j < f.len() - 1 {
                    assert(s0.filter(p)[i] != s0.filter(p)[j]);
                } else {
                    assert(f[j] == a);
                    assert(s0.filter(p).contains(f[i]));
                }
            }
        }
    }
}

/// Two predicates that agree on every element filter alike.
pub proof fn lemma_filter_ext<A>(s: Seq<A>, p: spec_fn(A) -> bool, q: spec_fn(A) -> bool)
    requires
        forall|i: int| 0 <= i < s.len() ==> p(#[trigger] s[i]) == q(s[i]),
    ensures
        s.filter(p) == s.filter(q),
    decreases s.len(),
{
    reveal(Seq::filter);
    if s.len() == 0 {
        assert(s.filter(p) =~= s.filter(q));
    } else {
        let s0 = s.drop_last();
        let a = s.last();
        assert(forall|i: int| 0 <= i < s0.len() ==> p(#[trigger] s0[i]) == q(s0[i]));
        lemma_filter_ext(s0, p, q);
        assert(s =~= s0.push(a));
        lemma_filter_push(s0, p, a);
        lemma_filter_push(s0, q, a);
        assert(p(a) == q(a));
    }
}

} // verus!
