//! Core model of a compositor workspace: application/window bookkeeping,
//! gesture-driven show-all / show-desktop transitions, exposé tiling layout,
//! and the app-switcher ordering logic.
//!
//! The surrounding compositor (surface protocol, scene graph, icon lookup)
//! is treated as a collaborator at the edge: it hands this crate plain
//! values (surface ids, geometry in pixels, app identifiers) and receives
//! plain values back (layout rectangles, interpolated positions, per-mille
//! progress). All state transitions here are verified.

pub mod dnd;
pub mod dock;
pub mod geometry;
pub mod gesture;
pub mod ingest;
pub mod layout;
pub mod model;
pub mod switcher;
pub mod workspace;
