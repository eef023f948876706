//! Scheduler errors and signals.
use vstd::prelude::*;
use crate::persistence::record::RunStats;

verus! {

/// Errors that can occur during scheduling.
#[derive(Debug)]
pub enum SchedulerError {
    /// A node was not found in the registry.
    NodeNotFound(String),
    /// An internal scheduler error occurred.
    Internal(String),
    /// The run was cancelled.
    Cancelled,
    /// The run was paused and can be resumed by the caller.
    Paused(RunStats),
    /// A durable checkpoint does not match the scheduler identity.
    CheckpointMismatch,
    /// A node activation failed and the run was aborted.
    NodeFailed {
        /// The failed node.
        node_id: String,
        /// The round containing the failed activation.
        round: u32,
        /// The node error text.
        error: String,
    },
}

/// Signals sent to the scheduler from the outside.
#[derive(Debug, Clone, Copy, PartialEq, Eq, Structural)]
pub enum SchedulerSignal {
    /// Cancel the run gracefully.
    Cancel,
    /// Pause processing at the next scheduler boundary.
    Pause,
    /// Resume processing after a pause.
    Resume,
}

} // verus!
