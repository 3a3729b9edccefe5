//! The frame-execution core of a map renderer: a render graph of ordered nodes, sortable
//! per-frame draw phases, a resource registry, the staged frame schedule, and the overlay
//! and debug text features that plug into them.

pub mod debug;
pub mod font;
pub mod graph;
pub mod overlay;
pub mod pass;
pub mod phase;
pub mod schedule;
pub mod text;
pub mod world;
