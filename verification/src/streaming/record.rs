//! Chunk records, and the sorted vectors that hold the controller's records
//! and pending requests.

use vstd::prelude::*;
use crate::ids::ChunkId;
use crate::order::chunk_id_lt;
use crate::demand::identity::DemandRank;
use crate::streaming::lifecycle::{ChunkAvailability, ChunkOperation};
use crate::streaming::request::{StreamRequestId, StreamRequestKind};
use crate::streaming::model::RecordModel;

verus! {

/// What the controller knows about one chunk.
#[derive(Debug, Copy, Clone, PartialEq, Eq)]
pub struct ChunkRuntimeRecord {
    pub(crate) chunk_id: ChunkId,
    pub(crate) desired: bool,
    pub(crate) rank: DemandRank,
    pub(crate) availability: ChunkAvailability,
    pub(crate) operation: ChunkOperation,
    pub(crate) blocking_failure: Option<StreamRequestKind>,
}

impl View for ChunkRuntimeRecord {
    type V = RecordModel;

    closed spec fn view(&self) -> RecordModel {
        RecordModel {
            chunk_id: self.chunk_id,
            desired: self.desired,
            rank: self.rank,
            availability: self.availability,
            operation: self.operation,
            blocking_failure: self.blocking_failure,
        }
    }
}

impl ChunkRuntimeRecord {
    /// The record of a model.
    pub(crate) fn from_model(chunk_id: ChunkId, desired: bool, rank: DemandRank, availability: ChunkAvailability, operation: ChunkOperation, blocking_failure: Option<StreamRequestKind>) -> (r: Self)
        ensures
            r@ == (RecordModel { chunk_id, desired, rank, availability, operation, blocking_failure }),
            r.chunk_id == chunk_id,
    {
        ChunkRuntimeRecord { chunk_id, desired, rank, availability, operation, blocking_failure }
    }

    /// Two records with the same model are equal.
    pub(crate) proof fn lemma_view_injective(a: Self, b: Self)
        ensures
            a@ == b@ ==> a == b,
    {
    }

    /// The record's chunk is its model's chunk.
    pub(crate) proof fn lemma_view_chunk(a: Self)
        ensures
            a@.chunk_id == a.chunk_id,
    {
    }

    /// The record's model holds its fields.
    pub(crate) proof fn lemma_view_fields(a: Self)
        ensures
            a@ == (RecordModel {
                chunk_id: a.chunk_id,
                desired: a.desired,
                rank: a.rank,
                availability: a.availability,
                operation: a.operation,
                blocking_failure: a.blocking_failure,
            }),
    {
    }

    /// The chunk.
    pub fn chunk_id(&self) -> (r: ChunkId)
        ensures
            r == self@.chunk_id,
    {
        self.chunk_id
    }

    /// Whether the effective demand wants the chunk.
    pub fn desired(&self) -> (r: bool)
        ensures
            r == self@.desired,
    {
        self.desired
    }

    /// The chunk's demand rank (or its last one).
    pub fn rank(&self) -> (r: DemandRank)
        ensures
            r == self@.rank,
    {
        self.rank
    }

    /// Whether the chunk's content is present.
    pub fn availability(&self) -> (r: ChunkAvailability)
        ensures
            r == self@.availability,
    {
        self.availability
    }

    /// The operation under way.
    pub fn operation(&self) -> (r: ChunkOperation)
        ensures
            r == self@.operation,
    {
        self.operation
    }

    /// The kind of a failed request that blocks automatic retries, if any.
    pub fn blocking_failure(&self) -> (r: Option<StreamRequestKind>)
        ensures
            r == self@.blocking_failure,
    {
        self.blocking_failure
    }
}

/// Records in strictly increasing chunk order.
pub open spec fn records_sorted(s: Seq<ChunkRuntimeRecord>) -> bool {
    forall|i: int, j: int| 0 <= i < j < s.len() ==> chunk_id_lt((#[trigger] s[i])@.chunk_id, (#[trigger] s[j])@.chunk_id)
}

/// Whether some record is about `id`.
pub open spec fn has_record(s: Seq<ChunkRuntimeRecord>, id: ChunkId) -> bool {
    exists|i: int| 0 <= i < s.len() && (#[trigger] s[i])@.chunk_id == id
}

/// The records as a map from chunk to model.
pub open spec fn record_map(s: Seq<ChunkRuntimeRecord>) -> Map<ChunkId, RecordModel> {
    Map::new(
        |id: ChunkId| has_record(s, id),
        |id: ChunkId| s[choose|i: int| 0 <= i < s.len() && (#[trigger] s[i])@.chunk_id == id]@,
    )
}

/// The chunks of a record vector, in order.
pub open spec fn record_ids(s: Seq<ChunkRuntimeRecord>) -> Seq<ChunkId> {
    Seq::new(s.len(), |i: int| s[i]@.chunk_id)
}

/// A sorted record vector holds each chunk once, and as many records as its
/// map has chunks.
pub proof fn lemma_record_ids(s: Seq<ChunkRuntimeRecord>)
    requires
        records_sorted(s),
    ensures
        record_ids(s).no_duplicates(),
        record_ids(s).to_set() == record_map(s).dom(),
        record_map(s).dom().finite(),
        record_map(s).dom().len() == s.len(),
{
    let ids = record_ids(s);
    assert(ids.no_duplicates()) by {
        assert forall|a: int, b: int| 0 <= a < ids.len() && 0 <= b < ids.len() && a != b implies ids[a] != ids[b] by {
            if a < b {
                assert(chunk_id_lt(s[a]@.chunk_id, s[b]@.chunk_id));
            } else {
                assert(chunk_id_lt(s[b]@.chunk_id, s[a]@.chunk_id));
            }
        }
    }
    assert(ids.to_set() =~= record_map(s).dom()) by {
        assert forall|id: ChunkId| ids.to_set().contains(id) <==> record_map(s).dom().contains(id) by {
            if ids.to_set().contains(id) {
                let k = choose|k: int| 0 <= k < ids.len() && ids[k] == id;
                assert(has_record(s, id));
            }
            if record_map(s).dom().contains(id) {
                let k = choose|k: int| 0 <= k < s.len() && (#[trigger] s[k])@.chunk_id == id;
                assert(ids[k] == id);
            }
        }
    }
    ids.unique_seq_to_set();
}

/// Counting the records whose model passes `p`: in the map or in the vector
/// gives the same number.
pub proof fn lemma_record_count(s: Seq<ChunkRuntimeRecord>, p: spec_fn(RecordModel) -> bool)
    requires
        records_sorted(s),
    ensures
        record_map(s).dom().filter(|id: ChunkId| p(record_map(s)[id])).len() == s.filter(
            |r: ChunkRuntimeRecord| p(r@),
        ).len(),
{
    let m = record_map(s);
    let ids = record_ids(s);
    let q = |id: ChunkId| p(m[id]);
    let pv = |r: ChunkRuntimeRecord| p(r@);
    lemma_record_ids(s);
    crate::seqs::lemma_filter_no_duplicates(ids, q);
    assert forall|k: int| 0 <= k < s.len() implies q(#[trigger] ids[k]) == pv(s[k]) by {
        lemma_record_at(s, k);
    }
    lemma_filter_lengths_match(s, ids, pv, q, s.len() as int);
    assert(s.take(s.len() as int) =~= s);
    assert(ids.take(ids.len() as int) =~= ids);
}

/// Two sequences of one length whose elements pass their predicates at the
/// same positions keep equally many in every prefix.
proof fn lemma_filter_lengths_match<A, B>(a: Seq<A>, b: Seq<B>, p: spec_fn(A) -> bool, q: spec_fn(B) -> bool, n: int)
    requires
        a.len() == b.len(),
        0 <= n <= a.len(),
        forall|k: int| 0 <= k < a.len() ==> q(#[trigger] b[k]) == p(a[k]),
    ensures
        a.take(n).filter(p).len() == b.take(n).filter(q).len(),
    decreases n,
{
    if n > 0 {
        lemma_filter_lengths_match(a, b, p, q, n - 1);
        crate::seqs::lemma_take_filter_step(a, p, n - 1);
        crate::seqs::lemma_take_filter_step(b, q, n - 1);
        assert(q(b[n - 1]) == p(a[n - 1]));
    } else {
        assert(a.take(0) =~= Seq::<A>::empty());
        assert(b.take(0) =~= Seq::<B>::empty());
        assert(Seq::<A>::empty().filter(p) =~= Seq::<A>::empty());
        assert(Seq::<B>::empty().filter(q) =~= Seq::<B>::empty());
    }
}

/// A sorted record vector maps each of its chunks to its record.
pub proof fn lemma_record_at(s: Seq<ChunkRuntimeRecord>, i: int)
    requires
        records_sorted(s),
        0 <= i < s.len(),
    ensures
        record_map(s).contains_key(s[i]@.chunk_id),
        record_map(s)[s[i]@.chunk_id] == s[i]@,
{
    let id = s[i]@.chunk_id;
    assert(has_record(s, id));
    let j = choose|j: int| 0 <= j < s.len() && (#[trigger] s[j])@.chunk_id == id;
    if j < i {
        assert(chunk_id_lt(s[j]@.chunk_id, s[i]@.chunk_id));
    } else if j > i {
        assert(chunk_id_lt(s[i]@.chunk_id, s[j]@.chunk_id));
    }
}

/// Replacing a record by one for the same chunk updates the map.
pub proof fn lemma_record_update(s: Seq<ChunkRuntimeRecord>, i: int, r: ChunkRuntimeRecord)
    requires
        records_sorted(s),
        0 <= i < s.len(),
        r@.chunk_id == s[i]@.chunk_id,
    ensures
        records_sorted(s.update(i, r)),
        record_map(s.update(i, r)) == record_map(s).insert(r@.chunk_id, r@),
{
    let t = s.update(i, r);
    assert(records_sorted(t)) by {
        assert forall|a: int, b: int| 0 <= a < b < t.len() implies chunk_id_lt((#[trigger] t[a])@.chunk_id, (#[trigger] t[b])@.chunk_id) by {
            assert(chunk_id_lt(s[a]@.chunk_id, s[b]@.chunk_id));
        }
    }
    assert forall|id: ChunkId| #[trigger] has_record(t, id) == has_record(s, id) by {
        if has_record(t, id) {
            let k = choose|k: int| 0 <= k < t.len() && (#[trigger] t[k])@.chunk_id == id;
            assert(s[k]@.chunk_id == id);
        }
        if has_record(s, id) {
            let k = choose|k: int| 0 <= k < s.len() && (#[trigger] s[k])@.chunk_id == id;
            assert(t[k]@.chunk_id == id);
        }
    }
    assert forall|id: ChunkId| #[trigger] record_map(t).contains_key(id) implies record_map(t)[id] == record_map(s).insert(r@.chunk_id, r@)[id] by {
        let k = choose|k: int| 0 <= k < t.len() && (#[trigger] t[k])@.chunk_id == id;
        lemma_record_at(t, k);
        lemma_record_at(s, k);
    }
    assert(record_map(t) =~= record_map(s).insert(r@.chunk_id, r@));
}

/// Inserting a record for a new chunk at its place updates the map.
pub proof fn lemma_record_insert(s: Seq<ChunkRuntimeRecord>, pos: int, r: ChunkRuntimeRecord)
    requires
        records_sorted(s),
        0 <= pos <= s.len(),
        forall|k: int| 0 <= k < pos ==> chunk_id_lt((#[trigger] s[k])@.chunk_id, r@.chunk_id),
        forall|k: int| pos <= k < s.len() ==> chunk_id_lt(r@.chunk_id, (#[trigger] s[k])@.chunk_id),
    ensures
        records_sorted(s.insert(pos, r)),
        record_map(s.insert(pos, r)) == record_map(s).insert(r@.chunk_id, r@),
{
    let t = s.insert(pos, r);
    assert(records_sorted(t)) by {
        assert forall|a: int, b: int| 0 <= a < b < t.len() implies chunk_id_lt((#[trigger] t[a])@.chunk_id, (#[trigger] t[b])@.chunk_id) by {
            if b < pos {
                assert(chunk_id_lt(s[a]@.chunk_id, s[b]@.chunk_id));
            } else if b == pos {
            } else if a < pos {
                assert(t[b] == s[b - 1]);
            } else if a == pos {
                assert(t[b] == s[b - 1]);
            } else {
                assert(t[a] == s[a - 1] && t[b] == s[b - 1]);
                assert(chunk_id_lt(s[a - 1]@.chunk_id, s[b - 1]@.chunk_id));
            }
        }
    }
    assert forall|id: ChunkId| #[trigger] has_record(t, id) == (has_record(s, id) || id == r@.chunk_id) by {
        if has_record(t, id) {
            let k = choose|k: int| 0 <= k < t.len() && (#[trigger] t[k])@.chunk_id == id;
            if k < pos {
                assert(s[k]@.chunk_id == id);
            } else if k > pos {
                assert(s[k - 1]@.chunk_id == id);
            }
        }
        if has_record(s, id) {
            let k = choose|k: int| 0 <= k < s.len() && (#[trigger] s[k])@.chunk_id == id;
            if k < pos {
                assert(t[k]@.chunk_id == id);
            } else {
                assert(t[k + 1]@.chunk_id == id);
            }
        }
        if id == r@.chunk_id {
            assert(t[pos]@.chunk_id == id);
        }
    }
    assert forall|id: ChunkId| #[trigger] record_map(t).contains_key(id) implies record_map(t)[id] == record_map(s).insert(r@.chunk_id, r@)[id] by {
        let k = choose|k: int| 0 <= k < t.len() && (#[trigger] t[k])@.chunk_id == id;
        lemma_record_at(t, k);
        if k < pos {
            lemma_record_at(s, k);
        } else if k > pos {
            lemma_record_at(s, k - 1);
        }
    }
    assert(record_map(t) =~= record_map(s).insert(r@.chunk_id, r@));
}

/// Appending a record for a chunk after all others updates the map.
pub proof fn lemma_record_push(s: Seq<ChunkRuntimeRecord>, r: ChunkRuntimeRecord)
    requires
        records_sorted(s),
        forall|k: int| 0 <= k < s.len() ==> chunk_id_lt((#[trigger] s[k])@.chunk_id, r@.chunk_id),
    ensures
        records_sorted(s.push(r)),
        record_map(s.push(r)) == record_map(s).insert(r@.chunk_id, r@),
        !record_map(s).contains_key(r@.chunk_id),
{
    assert(s.push(r) =~= s.insert(s.len() as int, r));
    lemma_record_insert(s, s.len() as int, r);
    if has_record(s, r@.chunk_id) {
        let k = choose|k: int| 0 <= k < s.len() && (#[trigger] s[k])@.chunk_id == r@.chunk_id;
        assert(chunk_id_lt(s[k]@.chunk_id, r@.chunk_id));
    }
}

/// Pending requests in strictly increasing id order.
pub open spec fn pending_sorted(s: Seq<(StreamRequestId, ChunkId)>) -> bool {
    forall|i: int, j: int| 0 <= i < j < s.len() ==> (#[trigger] s[i]).0@ < (#[trigger] s[j]).0@
}

/// Whether some pending request has id `id`.
pub open spec fn has_pending(s: Seq<(StreamRequestId, ChunkId)>, id: StreamRequestId) -> bool {
    exists|i: int| 0 <= i < s.len() && (#[trigger] s[i]).0 == id
}

/// The pending requests as a map from id to chunk.
pub open spec fn pending_map(s: Seq<(StreamRequestId, ChunkId)>) -> Map<StreamRequestId, ChunkId> {
    Map::new(
        |id: StreamRequestId| has_pending(s, id),
        |id: StreamRequestId| s[choose|i: int| 0 <= i < s.len() && (#[trigger] s[i]).0 == id].1,
    )
}

/// A sorted pending vector maps each of its ids to its chunk.
pub proof fn lemma_pending_at(s: Seq<(StreamRequestId, ChunkId)>, i: int)
    requires
        pending_sorted(s),
        0 <= i < s.len(),
    ensures
        pending_map(s).contains_key(s[i].0),
        pending_map(s)[s[i].0] == s[i].1,
{
    assert(has_pending(s, s[i].0));
    let j = choose|j: int| 0 <= j < s.len() && (#[trigger] s[j]).0 == s[i].0;
    if j < i {
        assert(s[j].0@ < s[i].0@);
    } else if j > i {
        assert(s[i].0@ < s[j].0@);
    }
}

/// Removing a pending request removes its id from the map.
pub proof fn lemma_pending_remove(s: Seq<(StreamRequestId, ChunkId)>, i: int)
    requires
        pending_sorted(s),
        0 <= i < s.len(),
    ensures
        pending_sorted(s.remove(i)),
        pending_map(s.remove(i)) == pending_map(s).remove(s[i].0),
{
    let t = s.remove(i);
    assert(pending_sorted(t)) by {
        assert forall|a: int, b: int| 0 <= a < b < t.len() implies (#[trigger] t[a]).0@ < (#[trigger] t[b]).0@ by {
            let aa = if a < i { a } else { a + 1 };
            let bb = if b < i { b } else { b + 1 };
            assert(t[a] == s[aa] && t[b] == s[bb]);
            assert(s[aa].0@ < s[bb].0@);
        }
    }
    assert forall|id: StreamRequestId| #[trigger] has_pending(t, id) == (has_pending(s, id) && id != s[i].0) by {
        if has_pending(t, id) {
            let k = choose|k: int| 0 <= k < t.len() && (#[trigger] t[k]).0 == id;
            let kk = if k < i { k } else { k + 1 };
            assert(t[k] == s[kk]);
            assert(s[kk].0 == id);
            if id == s[i].0 {
                assert(kk != i);
                if kk < i {
                    assert(s[kk].0@ < s[i].0@);
                } else {
                    assert(s[i].0@ < s[kk].0@);
                }
            }
        }
        if has_pending(s, id) && id != s[i].0 {
            let k = choose|k: int| 0 <= k < s.len() && (#[trigger] s[k]).0 == id;
            if k < i {
                assert(t[k].0 == id);
            } else {
                assert(k != i);
                assert(t[k - 1].0 == id);
            }
        }
    }
    assert forall|id: StreamRequestId| #[trigger] pending_map(t).contains_key(id) implies pending_map(t)[id] == pending_map(s).remove(s[i].0)[id] by {
        let k = choose|k: int| 0 <= k < t.len() && (#[trigger] t[k]).0 == id;
        lemma_pending_at(t, k);
        let kk = if k < i { k } else { k + 1 };
        assert(t[k] == s[kk]);
        lemma_pending_at(s, kk);
    }
    assert(pending_map(t) =~= pending_map(s).remove(s[i].0));
}

/// Appending a request with an id above all others adds it to the map.
pub proof fn lemma_pending_push(s: Seq<(StreamRequestId, ChunkId)>, e: (StreamRequestId, ChunkId))
    requires
        pending_sorted(s),
        forall|k: int| 0 <= k < s.len() ==> (#[trigger] s[k]).0@ < e.0@,
    ensures
        pending_sorted(s.push(e)),
        pending_map(s.push(e)) == pending_map(s).insert(e.0, e.1),
        !pending_map(s).contains_key(e.0),
{
    let t = s.push(e);
    assert(pending_sorted(t)) by {
        assert forall|a: int, b: int| 0 <= a < b < t.len() implies (#[trigger] t[a]).0@ < (#[trigger] t[b]).0@ by {
            if b < s.len() {
                assert(t[a] == s[a] && t[b] == s[b]);
            } else {
                assert(t[a] == s[a]);
            }
        }
    }
    assert forall|id: StreamRequestId| #[trigger] has_pending(t, id) == (has_pending(s, id) || id == e.0) by {
        if has_pending(t, id) {
            let k = choose|k: int| 0 <= k < t.len() && (#[trigger] t[k]).0 == id;
            if k < s.len() {
                assert(s[k].0 == id);
            }
        }
        if has_pending(s, id) {
            let k = choose|k: int| 0 <= k < s.len() && (#[trigger] s[k]).0 == id;
            assert(t[k].0 == id);
        }
        if id == e.0 {
            assert(t[s.len() as int].0 == id);
        }
    }
    if has_pending(s, e.0) {
        let k = choose|k: int| 0 <= k < s.len() && (#[trigger] s[k]).0 == e.0;
        assert(s[k].0@ < e.0@);
    }
    assert forall|id: StreamRequestId| #[trigger] pending_map(t).contains_key(id) implies pending_map(t)[id] == pending_map(s).insert(e.0, e.1)[id] by {
        let k = choose|k: int| 0 <= k < t.len() && (#[trigger] t[k]).0 == id;
        lemma_pending_at(t, k);
        if k < s.len() {
            assert(t[k] == s[k]);
            lemma_pending_at(s, k);
        }
    }
    assert(pending_map(t) =~= pending_map(s).insert(e.0, e.1));
}

} // verus!
