//! Events from the provider and events about chunks.

use vstd::prelude::*;
use crate::ids::ChunkId;
use crate::streaming::request::StreamRequestId;

verus! {

/// How far the provider got with a request.
#[derive(Debug, Copy, Clone, PartialEq, Eq, Structural)]
pub enum ProviderEventKind {
    Started,
    Completed,
    Failed,
}

/// A provider's report about one request.
#[derive(Debug, Copy, Clone, PartialEq, Eq, Structural)]
pub struct ProviderEvent {
    pub request_id: StreamRequestId,
    pub chunk_id: ChunkId,
    pub kind: ProviderEventKind,
}

/// What happened to a chunk.
#[derive(Debug, Copy, Clone, PartialEq, Eq, Structural)]
pub enum WorldStreamingEventKind {
    LoadQueued,
    LoadRequested,
    ProviderStarted,
    ProviderCompleted,
    ProviderFailed,
    Resident,
    UnloadQueued,
    UnloadRequested,
    Unloaded,
}

/// An event about a chunk, with the request it concerns, if any.
#[derive(Debug, Copy, Clone, PartialEq, Eq, Structural)]
pub struct WorldStreamingEvent {
    pub chunk_id: ChunkId,
    pub request_id: Option<StreamRequestId>,
    pub kind: WorldStreamingEventKind,
}

impl WorldStreamingEvent {
    /// An event that concerns no request.
    pub fn new(chunk_id: ChunkId, kind: WorldStreamingEventKind) -> (r: Self)
        ensures
            r == (WorldStreamingEvent { chunk_id, request_id: None, kind }),
    {
        WorldStreamingEvent { chunk_id, request_id: None, kind }
    }

    /// An event about a request.
    pub fn with_request(
        chunk_id: ChunkId,
        request_id: StreamRequestId,
        kind: WorldStreamingEventKind,
    ) -> (r: Self)
        ensures
            r == (WorldStreamingEvent { chunk_id, request_id: Some(request_id), kind }),
    {
        WorldStreamingEvent { chunk_id, request_id: Some(request_id), kind }
    }
}

} // verus!
