//! MicroFlow: a workflow engine that runs a directed acyclic graph of compute
//! nodes over a machine with scarce model capacity.
//!
//! The crate holds the node lifecycle state machine, the capacity-bounded model
//! pool with least-recently-used eviction and adapter hot-swap, the graph
//! validator and executor, and the bookkeeping of the script worker pool.

pub mod engine;
pub mod ffi;
pub mod model;
pub mod parameter;
pub mod python_library;
pub mod python_runtime;
pub mod types;
pub mod vram;
pub mod workflow;
