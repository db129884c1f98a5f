//! Host-neutral spatial identity, checked grid arithmetic, deterministic
//! spatial hashing, multi-source spatial demand planning and a budgeted,
//! content-agnostic chunk streaming controller.
//!
//! Everything in this crate works on integer coordinates. Conversions from
//! metric (floating-point) positions into chunk coordinates belong to the
//! embedding application; the logic here starts from the chunk coordinates
//! that such a conversion produced.

pub mod ids;
pub mod hash;
pub mod order;
pub mod seqs;
pub mod render;
pub mod error;
pub mod grid;
pub mod clipmap;
pub mod ring;
pub mod demand;
pub mod streaming;
pub mod adapter;
pub mod index;
pub mod text;
pub mod repository;

pub use error::SpatialMathError;
pub use hash::{
    SpatialHashSeed, SpatialHashValue, finalize_u64 as finalize_spatial_hash,
    hash_cell2 as spatial_hash_cell2, hash_cell3 as spatial_hash_cell3,
    hash_i64s as spatial_hash_i64s, mix_i64 as mix_spatial_hash_i64,
    mix_u64 as mix_spatial_hash_u64,
};
pub use ids::{ChunkCoord3, ChunkId, RegionCoord3, RegionId, WorldId};
pub use grid::{GridLevel, GridPartitionConfig, HierarchicalChunkId, HierarchicalGridConfig};
pub use clipmap::{
    ClipmapConfig, ClipmapCoord3, ClipmapLevel, ClipmapWindow,
    window_for_center as clipmap_window_for_center,
};
pub use ring::{RingBufferConfig, RingSlot3, slot_for_coord as ring_slot_for_coord};
pub use demand::error::SpatialDemandError;
pub use demand::focus::DemandFocus;
pub use demand::identity::{DemandAxis, DemandClass, DemandLimitKind, DemandRank, DemandSourceId};
pub use demand::limits::DemandLimits;
pub use demand::planner::SpatialDemandPlanner;
pub use demand::snapshot::{
    DemandPressureDiagnostics, DemandedChunk, EffectiveDemandSnapshot, SpatialDemandDelta,
};
pub use demand::source::{DemandSourceChange, DemandSourceSnapshot};
pub use streaming::controller::{
    StreamingTick, StreamingTickOutput, WorldStreamingConfig, WorldStreamingController,
    reserve_request_ids,
};
pub use streaming::error::WorldStreamingError;
pub use streaming::events::{
    ProviderEvent, ProviderEventKind, WorldStreamingEvent, WorldStreamingEventKind,
};
pub use streaming::lifecycle::{ChunkAvailability, ChunkOperation};
pub use streaming::model::{StreamingBudgets, StreamingCapacity, StreamingPressureDiagnostics};
pub use streaming::priority::ChunkPriority;
pub use streaming::record::ChunkRuntimeRecord;
pub use streaming::request::{StreamRequest, StreamRequestId, StreamRequestKind};
pub use adapter::{chunk_coord_from_xyz, chunk_id_from_xyz, provider_event_from_godot};
pub use index::QueryResult;
