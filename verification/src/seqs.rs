//! Facts about filtering sequences and their sets of elements.

use vstd::prelude::*;

verus! {

/// Filtering a prefix one element longer adds that element when it passes.
pub proof fn lemma_take_filter_step<A>(s: Seq<A>, p: spec_fn(A) -> bool, j: int)
    requires
        0 <= j < s.len(),
    ensures
        s.take(j + 1).filter(p) == if p(s[j]) {
            s.take(j).filter(p).push(s[j])
        } else {
            s.take(j).filter(p)
        },
{
    assert(s.take(j + 1) =~= s.take(j).push(s[j]));
    s.take(j).lemma_filter_push(s[j], p);
}

/// Filtering a sequence without duplicates keeps it without duplicates, and
/// its elements are the set's elements that pass.
pub proof fn lemma_filter_no_duplicates<A>(s: Seq<A>, p: spec_fn(A) -> bool)
    requires
        s.no_duplicates(),
    ensures
        s.filter(p).no_duplicates(),
        s.filter(p).to_set() == s.to_set().filter(p),
        s.to_set().filter(p).len() == s.filter(p).len(),
    decreases s.len(),
{
    if s.len() == 0 {
        reveal(Seq::filter);
        assert(s.to_set().filter(p) =~= Set::<A>::empty());
        assert(s.filter(p).to_set() =~= Set::<A>::empty());
    } else {
        let d = s.drop_last();
        let x = s.last();
        assert(s =~= d.push(x));
        assert(d.no_duplicates());
        lemma_filter_no_duplicates(d, p);
        d.lemma_filter_push(x, p);
        assert(!d.contains(x));
        assert(!d.filter(p).contains(x)) by {
            if d.filter(p).contains(x) {
                let k = choose|k: int| 0 <= k < d.filter(p).len() && d.filter(p)[k] == x;
                assert(d.filter(p).to_set().contains(x));
                assert(d.to_set().contains(x));
            }
        }
        d.lemma_push_to_set_commute(x);
        if p(x) {
            d.filter(p).lemma_push_to_set_commute(x);
            assert(s.to_set().filter(p) =~= d.to_set().filter(p).insert(x));
        } else {
            assert(s.to_set().filter(p) =~= d.to_set().filter(p));
        }
    }
    s.filter(p).unique_seq_to_set();
}

/// A finite set is the set of some sequence's elements.
pub proof fn lemma_set_as_seq<A>(s: Set<A>) -> (q: Seq<A>)
    requires
        s.finite(),
    ensures
        q.to_set() == s,
    decreases s.len(),
{
    if s.len() == 0 {
        assert(s =~= Set::<A>::empty());
        let q = Seq::<A>::empty();
        assert(q.to_set() =~= s);
        q
    } else {
        let x = s.choose();
        let q0 = lemma_set_as_seq(s.remove(x));
        let q = q0.push(x);
        assert(q.to_set() =~= s) by {
            assert forall|y: A| q.to_set().contains(y) <==> s.contains(y) by {
                if y == x {
                    assert(q[q.len() - 1] == x);
                } else if s.contains(y) {
                    assert(q0.to_set().contains(y));
                    let i = choose|i: int| 0 <= i < q0.len() && q0[i] == y;
                    assert(q[i] == y);
                } else if q.to_set().contains(y) {
                    let i = choose|i: int| 0 <= i < q.len() && q[i] == y;
                    assert(q0[i] == y);
                }
            }
        }
        q
    }
}

} // verus!
