//! Declarative machine-convergence engine.
//!
//! A configuration names machines, typed resources and their dependency
//! edges; the library computes a deterministic execution order, diffs the
//! desired state against a per-machine lock keyed by content hashes, and
//! yields the per-resource actions an applier must take.  Everything that
//! can be stated as a function from plain values to plain values lives
//! here, with its contract; file, process and network work is left to the
//! surrounding binary.

pub mod codegen;
pub mod drift;
pub mod eventlog;
pub mod exec;
pub mod events;
pub mod graph;
pub mod hashes;
pub mod omap;
pub mod planner;
pub mod recipe;
pub mod resources;
pub mod state;
pub mod strutil;
pub mod template;
pub mod types;
pub mod validate;
