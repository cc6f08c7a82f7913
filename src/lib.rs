//! Coordination core of a bulk directory migration: the control-plane
//! protocol, the worker registry, per-connection handling and the
//! orchestrator that moves each directory from scan to migrate.
use vstd::prelude::*;

pub mod config;
pub mod connection;
pub mod protocol;
pub mod registry;
pub mod text;
pub mod tui;
pub mod worker;

pub use config::Config;
pub use protocol::WorkerMessage;
pub use registry::{WorkerRegistry, WorkerState};
pub use worker::{WorkerManager, WorkerStatus};

verus! {

} // verus!
