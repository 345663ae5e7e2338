//! Sequence functions shared by the specifications of several modules.

use vstd::prelude::*;

verus! {

/// The first occurrence of every element of `s` that satisfies `keep`, in the
/// order of `s`.
pub open spec fn keep_first<A>(s: Seq<A>, keep: spec_fn(A) -> bool) -> Seq<A>
    decreases s.len(),
{
    if s.len() == 0 {
        Seq::empty()
    } else {
        let d = keep_first(s.drop_last(), keep);
        if keep(s.last()) && !d.contains(s.last()) {
            d.push(s.last())
        } else {
            d
        }
    }
}

/// `s` with every occurrence of `x` taken out, the rest in order.
pub open spec fn without<A>(s: Seq<A>, x: A) -> Seq<A>
    decreases s.len(),
{
    if s.len() == 0 {
        Seq::empty()
    } else if s.last() == x {
        without(s.drop_last(), x)
    } else {
        without(s.drop_last(), x).push(s.last())
    }
}

/// An element is in `s.push(e)` when it is `e` or already in `s`.
pub proof fn lemma_push_contains<A>(s: Seq<A>, e: A)
    ensures
        forall|y: A| #[trigger] s.push(e).contains(y) <==> (s.contains(y) || y == e),
{
    assert forall|y: A| #[trigger] s.push(e).contains(y) <==> (s.contains(y) || y == e) by {
        if s.push(e).contains(y) {
            let i = choose|i: int| 0 <= i < s.push(e).len() && s.push(e)[i] == y;
            if i < s.len() {
                assert(s[i] == y);
            }
        }
        if s.contains(y) {
            let i = choose|i: int| 0 <= i < s.len() && s[i] == y;
            assert(s.push(e)[i] == y);
        }
        if y == e {
            assert(s.push(e)[s.len() as int] == y);
        }
    }
}

/// `keep_first` holds each kept element of `s` exactly once, and nothing else.
pub proof fn lemma_keep_first<A>(s: Seq<A>, keep: spec_fn(A) -> bool)
    ensures
        keep_first(s, keep).no_duplicates(),
        forall|x: A| #[trigger]
            keep_first(s, keep).contains(x) <==> (s.contains(x) && keep(x)),
        keep_first(s, keep).len() <= s.len(),
    decreases s.len(),
{
    if s.len() > 0 {
        let p = s.drop_last();
        lemma_keep_first(p, keep);
        assert(s =~= p.push(s.last()));
        lemma_push_contains(p, s.last());
        lemma_push_contains(keep_first(p, keep), s.last());
    }
}

/// Keeping the first occurrences of `a + b` keeps those of `a` first; what
/// `b` adds after them does not occur in `a`.
pub proof fn lemma_keep_first_append<A>(a: Seq<A>, b: Seq<A>, keep: spec_fn(A) -> bool)
    ensures
        keep_first(a, keep).len() <= keep_first(a + b, keep).len(),
        keep_first(a + b, keep).take(keep_first(a, keep).len() as int) == keep_first(a, keep),
        forall|i: int|
            keep_first(a, keep).len() <= i < keep_first(a + b, keep).len() ==> !a.contains(
                #[trigger] keep_first(a + b, keep)[i],
            ),
    decreases b.len(),
{
    let k = keep_first(a, keep).len() as int;
    if b.len() == 0 {
        assert(a + b =~= a);
        assert(keep_first(a, keep).take(k) =~= keep_first(a, keep));
    } else {
        let ab = a + b;
        let p = a + b.drop_last();
        assert(ab.drop_last() =~= p);
        assert(ab.last() == b.last());
        lemma_keep_first_append(a, b.drop_last(), keep);
        let r = keep_first(p, keep);
        if keep(ab.last()) && !r.contains(ab.last()) {
            assert(keep_first(ab, keep).take(k) =~= r.take(k));
            assert(!a.contains(ab.last())) by {
                if a.contains(ab.last()) {
                    lemma_keep_first(a, keep);
                    assert(keep_first(a, keep).contains(ab.last()));
                    let j = choose|j: int| 0 <= j < keep_first(a, keep).len() && keep_first(a, keep)[j] == ab.last();
                    assert(r.take(k) == keep_first(a, keep));
                    assert(r.take(k)[j] == ab.last());
                    assert(r[j] == ab.last());
                }
            }
        }
    }
}

/// `without` drops exactly the occurrences of `x`.
pub proof fn lemma_without<A>(s: Seq<A>, x: A)
    ensures
        forall|y: A| #[trigger] without(s, x).contains(y) <==> (s.contains(y) && y != x),
        without(s, x).len() <= s.len(),
        !s.contains(x) ==> without(s, x) == s,
    decreases s.len(),
{
    if s.len() > 0 {
        let p = s.drop_last();
        lemma_without(p, x);
        assert(s =~= p.push(s.last()));
        lemma_push_contains(p, s.last());
        lemma_push_contains(without(p, x), s.last());
        if !s.contains(x) {
            assert(!p.contains(x));
            assert(s[s.len() - 1] != x);
            assert(s =~= p.push(s.last()));
        }
    }
}

} // verus!
