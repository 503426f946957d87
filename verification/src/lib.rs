//! A decaying variant of Conway's Game of Life on a fixed-size grid.
//!
//! The engine advances a board of cells one discrete tick at a time.  Each
//! tick applies four phases in strict order — count, spawn, decay, kill —
//! so that every generation is computed from a consistent snapshot of the
//! previous one.  A cell that loses support does not die at once: it enters
//! a decay countdown and is killed only when its budget reaches zero.
//!
//! Two adjacency patterns are supported: the 8-way planar (Moore)
//! neighborhood for two-dimensional boards, and 6-way face adjacency for
//! volumetric boards.  Rule thresholds are explicit configuration, not
//! baked-in constants.

pub mod config;
pub mod setup;
pub mod laws;
pub mod rules;
pub mod ticks_processor;
pub mod types;
