//! Requests to the provider.

use vstd::prelude::*;
use crate::ids::ChunkId;
use crate::demand::identity::DemandRank;

verus! {

/// Identifies one provider request; never zero.
#[derive(Debug, Copy, Clone, PartialEq, Eq, Structural, PartialOrd, Ord, Hash)]
pub struct StreamRequestId(u64);

impl View for StreamRequestId {
    type V = u64;

    closed spec fn view(&self) -> u64 {
        self.0
    }
}

impl StreamRequestId {
    /// The id with raw value `value`; it is never zero.
    pub closed spec fn spec_from(value: u64) -> StreamRequestId {
        StreamRequestId(value)
    }

    /// The id with raw value `value` has that raw value.
    pub proof fn lemma_spec_from(value: u64)
        ensures
            StreamRequestId::spec_from(value)@ == value,
    {
    }

    /// Two ids with the same raw value are equal.
    pub proof fn lemma_view_injective(a: Self, b: Self)
        ensures
            a@ == b@ ==> a == b,
    {
    }

    /// The id with raw value `value`; `None` for zero.
    pub fn try_new(value: u64) -> (r: Option<Self>)
        ensures
            r is Some <==> value != 0,
            r matches Some(id) ==> id@ == value && id == StreamRequestId::spec_from(value),
    {
        if value == 0 {
            None
        } else {
            Some(StreamRequestId(value))
        }
    }

    /// The raw value.
    pub fn get(self) -> (r: u64)
        ensures
            r == self@,
    {
        self.0
    }
}

/// What a request asks the provider to do.
#[derive(Debug, Copy, Clone, PartialEq, Eq, Structural, Hash)]
pub enum StreamRequestKind {
    Load,
    Unload,
}

/// One request to the provider.
#[derive(Debug, Copy, Clone, PartialEq, Eq, Structural)]
pub struct StreamRequest {
    pub request_id: StreamRequestId,
    pub chunk_id: ChunkId,
    pub kind: StreamRequestKind,
    pub rank: DemandRank,
}

} // verus!
