//! Budgeted, content-agnostic chunk availability control: effective demand
//! turns into load and unload requests for an outside provider, whose
//! progress events drive each chunk's lifecycle.

pub mod request;
pub mod events;
pub mod lifecycle;
pub mod priority;
pub mod error;
pub mod model;
pub mod record;
pub mod invariants;
pub mod availability;
pub mod shape;
pub mod demanded;
pub mod controller;
