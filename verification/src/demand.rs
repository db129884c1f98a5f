//! Multi-source spatial demand: sources publish a focus box and pinned
//! chunks, and the planner merges them into one ranked, bounded set of
//! effective chunk demand.

pub mod error;
pub mod identity;
pub mod limits;
pub mod focus;
pub mod source;
pub mod snapshot;
pub mod geometry;
pub mod model;
pub mod planner;
pub mod laws;
