//! A chunk's availability and the operation under way on it.

use vstd::prelude::*;
use crate::streaming::request::StreamRequest;

verus! {

/// Whether the chunk's content is present.
#[derive(Debug, Copy, Clone, PartialEq, Eq, Structural)]
pub enum ChunkAvailability {
    Absent,
    Resident,
}

/// The operation under way on a chunk.
#[derive(Debug, Copy, Clone, PartialEq, Eq, Structural)]
pub enum ChunkOperation {
    Idle,
    LoadQueued,
    LoadRequested(StreamRequest),
    Loading(StreamRequest),
    UnloadQueued,
    UnloadRequested(StreamRequest),
    Unloading(StreamRequest),
}

/// The request an operation waits on, if any.
pub open spec fn spec_active_request(op: ChunkOperation) -> Option<StreamRequest> {
    match op {
        ChunkOperation::LoadRequested(r) => Some(r),
        ChunkOperation::Loading(r) => Some(r),
        ChunkOperation::UnloadRequested(r) => Some(r),
        ChunkOperation::Unloading(r) => Some(r),
        _ => None,
    }
}

impl ChunkOperation {
    /// The request the operation waits on, if any.
    pub(crate) fn active_request(&self) -> (r: Option<StreamRequest>)
        ensures
            r == spec_active_request(*self),
    {
        match self {
            ChunkOperation::LoadRequested(r) => Some(*r),
            ChunkOperation::Loading(r) => Some(*r),
            ChunkOperation::UnloadRequested(r) => Some(*r),
            ChunkOperation::Unloading(r) => Some(*r),
            _ => None,
        }
    }
}

} // verus!
