//! Total orders on coordinates and ids, and sorted, duplicate-free vectors.

use vstd::prelude::*;
use crate::ids::{ChunkCoord3, ChunkId};

verus! {

/// Lexicographic `<` on chunk coordinates (`x`, then `y`, then `z`), the
/// order in which `derive(Ord)` compares them.
pub open spec fn coord_lt(a: ChunkCoord3, b: ChunkCoord3) -> bool {
    a.x < b.x || (a.x == b.x && (a.y < b.y || (a.y == b.y && a.z < b.z)))
}

/// Lexicographic `<` on chunk ids (world, then coordinate).
pub open spec fn chunk_id_lt(a: ChunkId, b: ChunkId) -> bool {
    a.world_id.0 < b.world_id.0 || (a.world_id.0 == b.world_id.0 && coord_lt(a.coord, b.coord))
}

/// Exact comparison of two coordinates.
pub fn coord_less(a: &ChunkCoord3, b: &ChunkCoord3) -> (r: bool)
    ensures
        r == coord_lt(*a, *b),
{
    a.x < b.x || (a.x == b.x && (a.y < b.y || (a.y == b.y && a.z < b.z)))
}

/// Exact comparison of two chunk ids.
pub fn chunk_id_less(a: &ChunkId, b: &ChunkId) -> (r: bool)
    ensures
        r == chunk_id_lt(*a, *b),
{
    a.world_id.0 < b.world_id.0 || (a.world_id.0 == b.world_id.0 && coord_less(&a.coord, &b.coord))
}

/// Exact equality of two chunk ids.
pub fn chunk_id_eq(a: &ChunkId, b: &ChunkId) -> (r: bool)
    ensures
        r == (*a == *b),
{
    a.world_id.0 == b.world_id.0 && a.coord.x == b.coord.x && a.coord.y == b.coord.y && a.coord.z
        == b.coord.z
}

/// Exact equality of two coordinates.
pub fn coord_eq(a: &ChunkCoord3, b: &ChunkCoord3) -> (r: bool)
    ensures
        r == (*a == *b),
{
    a.x == b.x && a.y == b.y && a.z == b.z
}

/// An element type with a strict total order that executable code decides.
pub trait StrictKey: Copy + Sized {
    /// The strict order.
    spec fn key_less(self, other: Self) -> bool;

    /// The order is irreflexive, transitive and total on distinct values.
    proof fn lemma_strict_total()
        ensures
            forall|a: Self| !#[trigger] a.key_less(a),
            forall|a: Self, b: Self, c: Self|
                #[trigger] a.key_less(b) && #[trigger] b.key_less(c) ==> a.key_less(c),
            forall|a: Self, b: Self| a != b ==> #[trigger] a.key_less(b) || #[trigger] b.key_less(a),
    ;

    /// Decides the order.
    fn less(&self, other: &Self) -> (r: bool)
        ensures
            r == self.key_less(*other),
    ;
}

impl StrictKey for ChunkId {
    open spec fn key_less(self, other: Self) -> bool {
        chunk_id_lt(self, other)
    }

    proof fn lemma_strict_total() {
    }

    fn less(&self, other: &Self) -> (r: bool) {
        chunk_id_less(self, other)
    }
}

impl StrictKey for ChunkCoord3 {
    open spec fn key_less(self, other: Self) -> bool {
        coord_lt(self, other)
    }

    proof fn lemma_strict_total() {
    }

    fn less(&self, other: &Self) -> (r: bool) {
        coord_less(self, other)
    }
}

/// Every element is below every later element.
pub open spec fn strictly_sorted<T: StrictKey>(s: Seq<T>) -> bool {
    forall|i: int, j: int| 0 <= i < j < s.len() ==> (#[trigger] s[i]).key_less(#[trigger] s[j])
}

/// The elements of a finite set in increasing order.
pub open spec fn arrange<T: StrictKey>(s: Set<T>) -> Seq<T> {
    choose|q: Seq<T>| strictly_sorted(q) && q.to_set() == s
}

/// A strictly sorted sequence has no duplicates.
pub proof fn lemma_strictly_sorted_no_duplicates<T: StrictKey>(s: Seq<T>)
    requires
        strictly_sorted(s),
    ensures
        s.no_duplicates(),
{
    T::lemma_strict_total();
    assert forall|i: int, j: int| 0 <= i < s.len() && 0 <= j < s.len() && i != j implies s[i]
        != s[j] by {
        if i < j {
            assert(s[i].key_less(s[j]));
        } else {
            assert(s[j].key_less(s[i]));
        }
    }
}

/// Two strictly sorted sequences with the same elements are equal.
pub proof fn lemma_strictly_sorted_unique<T: StrictKey>(a: Seq<T>, b: Seq<T>)
    requires
        strictly_sorted(a),
        strictly_sorted(b),
        a.to_set() == b.to_set(),
    ensures
        a == b,
    decreases a.len(),
{
    T::lemma_strict_total();
    if a.len() == 0 {
        if b.len() > 0 {
            assert(b.to_set().contains(b[0]));
        }
        assert(a =~= b);
    } else if b.len() == 0 {
        assert(a.to_set().contains(a[0]));
    } else {
        assert(b.to_set().contains(a[0]));
        assert(a.to_set().contains(b[0]));
        let i = choose|i: int| 0 <= i < b.len() && b[i] == a[0];
        let j = choose|j: int| 0 <= j < a.len() && a[j] == b[0];
        if a[0] != b[0] {
            assert(i > 0);
            assert(j > 0);
            assert(b[0].key_less(b[i]));
            assert(a[0].key_less(a[j]));
        }
        let a1 = a.drop_first();
        let b1 = b.drop_first();
        assert forall|x: T| a1.to_set().contains(x) <==> b1.to_set().contains(x) by {
            if a1.to_set().contains(x) {
                let k = choose|k: int| 0 <= k < a1.len() && a1[k] == x;
                assert(a[k + 1] == x);
                assert(a[0].key_less(x));
                assert(b.to_set().contains(x));
                let m = choose|m: int| 0 <= m < b.len() && b[m] == x;
                assert(m != 0);
                assert(b1[m - 1] == x);
            }
            if b1.to_set().contains(x) {
                let k = choose|k: int| 0 <= k < b1.len() && b1[k] == x;
                assert(b[k + 1] == x);
                assert(b[0].key_less(x));
                assert(a.to_set().contains(x));
                let m = choose|m: int| 0 <= m < a.len() && a[m] == x;
                assert(m != 0);
                assert(a1[m - 1] == x);
            }
        }
        assert(a1.to_set() =~= b1.to_set());
        assert(strictly_sorted(a1)) by {
            assert forall|p: int, q: int| 0 <= p < q < a1.len() implies (#[trigger] a1[p]).key_less(
                #[trigger] a1[q],
            ) by {
                assert(a1[p] == a[p + 1]);
                assert(a1[q] == a[q + 1]);
            }
        }
        assert(strictly_sorted(b1)) by {
            assert forall|p: int, q: int| 0 <= p < q < b1.len() implies (#[trigger] b1[p]).key_less(
                #[trigger] b1[q],
            ) by {
                assert(b1[p] == b[p + 1]);
                assert(b1[q] == b[q + 1]);
            }
        }
        lemma_strictly_sorted_unique(a1, b1);
        assert(a =~= b) by {
            assert forall|k: int| 0 <= k < a.len() implies a[k] == b[k] by {
                if k > 0 {
                    assert(a[k] == a1[k - 1]);
                    assert(b[k] == b1[k - 1]);
                }
            }
        }
    }
}

/// A strictly sorted sequence is the arrangement of its elements.
pub proof fn lemma_arrange_of_sorted<T: StrictKey>(q: Seq<T>)
    requires
        strictly_sorted(q),
    ensures
        arrange(q.to_set()) == q,
{
    let a = arrange(q.to_set());
    assert(strictly_sorted(a) && a.to_set() == q.to_set());
    lemma_strictly_sorted_unique(a, q);
}

/// Every sequence's elements have an arrangement: the arrangement of its
/// set is strictly sorted and holds exactly those elements.
pub proof fn lemma_arrange_exists<T: StrictKey>(s: Seq<T>)
    ensures
        strictly_sorted(arrange(s.to_set())),
        arrange(s.to_set()).to_set() == s.to_set(),
    decreases s.len(),
{
    T::lemma_strict_total();
    if s.len() == 0 {
        let e = Seq::<T>::empty();
        assert(e.to_set() =~= s.to_set());
        assert(strictly_sorted(e));
    } else {
        let d = s.drop_last();
        let x = s.last();
        lemma_arrange_exists(d);
        let q = arrange(d.to_set());
        assert(s =~= d.push(x));
        d.lemma_push_to_set_commute(x);
        if q.to_set().contains(x) {
            assert(q.to_set() =~= s.to_set());
            assert(strictly_sorted(q) && q.to_set() == s.to_set());
        } else {
            lemma_split_point(q, x);
            let pos = choose|pos: int| #[trigger] splits(q, x, pos);
            let r = q.insert(pos, x);
            assert forall|a: int, b: int| 0 <= a < b < r.len() implies (#[trigger] r[a]).key_less(
                #[trigger] r[b],
            ) by {
                if b < pos {
                } else if b == pos {
                } else if a < pos {
                    assert(r[b] == q[b - 1]);
                    assert(q[a].key_less(x));
                    assert(x.key_less(q[b - 1]));
                } else if a == pos {
                    assert(r[b] == q[b - 1]);
                } else {
                    assert(r[a] == q[a - 1]);
                    assert(r[b] == q[b - 1]);
                }
            }
            assert forall|y: T| r.to_set().contains(y) <==> s.to_set().contains(y) by {
                if r.to_set().contains(y) {
                    let k = choose|k: int| 0 <= k < r.len() && r[k] == y;
                    if k < pos {
                        assert(q[k] == y);
                        assert(q.to_set().contains(y));
                    } else if k > pos {
                        assert(q[k - 1] == y);
                        assert(q.to_set().contains(y));
                    }
                }
                if s.to_set().contains(y) && y != x {
                    assert(q.to_set().contains(y));
                    let k = choose|k: int| 0 <= k < q.len() && q[k] == y;
                    if k < pos {
                        assert(r[k] == y);
                    } else {
                        assert(r[k + 1] == y);
                    }
                }
                if y == x {
                    assert(r[pos] == x);
                }
            }
            assert(r.to_set() =~= s.to_set());
            assert(strictly_sorted(r) && r.to_set() == s.to_set());
        }
    }
}

/// Position `pos` of `q` separates the elements below `x` from those above it.
pub open spec fn splits<T: StrictKey>(q: Seq<T>, x: T, pos: int) -> bool {
    0 <= pos <= q.len() && (forall|k: int| 0 <= k < pos ==> (#[trigger] q[k]).key_less(x)) && (
    forall|k: int| pos <= k < q.len() ==> x.key_less(#[trigger] q[k]))
}

/// In a strictly sorted sequence that does not hold `x`, some position
/// splits the elements below `x` from those above it.
proof fn lemma_split_point<T: StrictKey>(q: Seq<T>, x: T)
    requires
        strictly_sorted(q),
        !q.to_set().contains(x),
    ensures
        exists|pos: int| #[trigger] splits(q, x, pos),
    decreases q.len(),
{
    T::lemma_strict_total();
    if q.len() == 0 {
        assert(splits(q, x, 0));
    } else {
        let d = q.drop_last();
        assert(strictly_sorted(d)) by {
            assert forall|a: int, b: int| 0 <= a < b < d.len() implies (#[trigger] d[a]).key_less(
                #[trigger] d[b],
            ) by {
                assert(d[a] == q[a] && d[b] == q[b]);
            }
        }
        assert(!d.to_set().contains(x)) by {
            if d.to_set().contains(x) {
                let k = choose|k: int| 0 <= k < d.len() && d[k] == x;
                assert(q[k] == x);
                assert(q.to_set().contains(x));
            }
        }
        lemma_split_point(d, x);
        let pos = choose|pos: int| #[trigger] splits(d, x, pos);
        let last = q.last();
        assert(q.to_set().contains(last));
        assert(last != x);
        if last.key_less(x) {
            assert forall|k: int| 0 <= k < q.len() implies (#[trigger] q[k]).key_less(x) by {
                if k < q.len() - 1 {
                    assert(q[k].key_less(last));
                }
            }
            assert(splits(q, x, q.len() as int));
        } else {
            assert(x.key_less(last));
            assert forall|k: int| 0 <= k < pos implies (#[trigger] q[k]).key_less(x) by {
                assert(q[k] == d[k]);
            }
            assert forall|k: int| pos <= k < q.len() implies x.key_less(#[trigger] q[k]) by {
                if k < q.len() - 1 {
                    assert(q[k] == d[k]);
                }
            }
            assert(splits(q, x, pos));
        }
    }
}

/// Inserts `x` into a strictly sorted vector at its place; a present `x`
/// leaves the vector as it is. Returns whether `x` was inserted.
pub fn sorted_insert<T: StrictKey>(v: &mut Vec<T>, x: T) -> (inserted: bool)
    requires
        strictly_sorted(old(v)@),
    ensures
        strictly_sorted(final(v)@),
        final(v)@.to_set() == old(v)@.to_set().insert(x),
        inserted == !old(v)@.contains(x),
        inserted ==> final(v)@.len() == old(v)@.len() + 1,
        !inserted ==> final(v)@ == old(v)@,
{
    proof {
        T::lemma_strict_total();
    }
    let mut j: usize = 0;
    while j < v.len() && v[j].less(&x)
        invariant
            j <= v@.len(),
            strictly_sorted(v@),
            forall|k: int| 0 <= k < j ==> (#[trigger] v@[k]).key_less(x),
        decreases v@.len() - j,
    {
        j = j + 1;
    }
    let ghost before = v@;
    if j < v.len() && !x.less(&v[j]) {
        proof {
            assert(before[j as int] == x);
            assert(before.to_set().contains(x));
            assert(before.to_set().insert(x) =~= before.to_set());
        }
        return false;
    }
    proof {
        assert(!before.contains(x)) by {
            if before.contains(x) {
                let k = choose|k: int| 0 <= k < before.len() && before[k] == x;
                if k < j {
                    assert(before[k].key_less(x));
                } else {
                    assert(x.key_less(before[j as int]));
                    if k > j {
                        assert(before[j as int].key_less(before[k]));
                    }
                }
            }
        }
    }
    v.insert(j, x);
    proof {
        assert(v@ =~= before.insert(j as int, x));
        assert forall|a: int, b: int| 0 <= a < b < v@.len() implies (#[trigger] v@[a]).key_less(
            #[trigger] v@[b],
        ) by {
            if b < j {
            } else if b == j {
            } else if a < j {
                assert(v@[a] == before[a]);
                assert(v@[b] == before[b - 1]);
                assert(before[a].key_less(x));
                assert(x.key_less(before[j as int]));
                if j < b - 1 {
                    assert(before[j as int].key_less(before[b - 1]));
                }
            } else if a == j {
                assert(v@[b] == before[b - 1]);
                if j < b - 1 {
                    assert(before[j as int].key_less(before[b - 1]));
                }
            } else {
                assert(v@[a] == before[a - 1]);
                assert(v@[b] == before[b - 1]);
            }
        }
        assert forall|y: T| v@.to_set().contains(y) <==> before.to_set().insert(x).contains(y) by {
            if v@.to_set().contains(y) {
                let k = choose|k: int| 0 <= k < v@.len() && v@[k] == y;
                if k < j {
                    assert(before[k] == y);
                } else if k > j {
                    assert(before[k - 1] == y);
                }
            }
            if before.to_set().contains(y) && y != x {
                let k = choose|k: int| 0 <= k < before.len() && before[k] == y;
                if k < j {
                    assert(v@[k] == y);
                } else {
                    assert(v@[k + 1] == y);
                }
            }
            if y == x {
                assert(v@[j as int] == x);
            }
        }
        assert(v@.to_set() =~= before.to_set().insert(x));
    }
    true
}

} // verus!
