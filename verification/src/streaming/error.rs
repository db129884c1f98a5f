//! Errors of the streaming controller.

use vstd::prelude::*;
use crate::ids::ChunkId;
use crate::demand::error::SpatialDemandError;
use crate::streaming::events::ProviderEventKind;
use crate::streaming::lifecycle::{ChunkAvailability, ChunkOperation};
use crate::streaming::request::{StreamRequestId, StreamRequestKind};

verus! {

/// Why a controller call was rejected.
#[derive(Debug, Copy, Clone, PartialEq, Eq)]
pub enum WorldStreamingError {
    SpatialDemand(SpatialDemandError),
    UnknownChunk { chunk_id: ChunkId },
    UnknownRequest { request_id: StreamRequestId },
    RequestChunkMismatch { request_id: StreamRequestId, expected: ChunkId, actual: ChunkId },
    InvalidProviderEvent {
        request_id: StreamRequestId,
        event_kind: ProviderEventKind,
        availability: ChunkAvailability,
        operation: ChunkOperation,
    },
    InvalidBlockingFailureRetry {
        chunk_id: ChunkId,
        desired: bool,
        availability: ChunkAvailability,
        operation: ChunkOperation,
        blocking_failure: Option<StreamRequestKind>,
    },
}

} // verus!
