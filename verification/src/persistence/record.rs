//! Run lifecycle records, statistics and revisions.
use vstd::prelude::*;

verus! {

/// Monotonically increasing revision used for optimistic concurrency
/// control.
#[derive(Debug, Clone, Copy, PartialEq, Eq, Structural, PartialOrd, Ord, Hash)]
pub struct Revision(pub i64);

impl Default for Revision {
    fn default() -> (r: Self)
        ensures
            r.0 == 0,
    {
        Revision(0)
    }
}

/// Lifecycle state persisted for a run.
#[derive(Debug, Clone, Copy, PartialEq, Eq, Structural)]
pub enum RunStatus {
    /// A record exists but execution has not started.
    Created,
    /// Execution is in progress.
    Running,
    /// Execution was paused by an external signal.
    Paused,
    /// Execution completed normally.
    Completed,
    /// Execution failed.
    Failed,
    /// Execution was cancelled.
    Cancelled,
}

impl RunStatus {
    /// The name under which the status is stored (`snake_case`).
    pub fn as_str(&self) -> (r: &'static str)
        ensures
            r@ == match self {
                RunStatus::Created => "created"@,
                RunStatus::Running => "running"@,
                RunStatus::Paused => "paused"@,
                RunStatus::Completed => "completed"@,
                RunStatus::Failed => "failed"@,
                RunStatus::Cancelled => "cancelled"@,
            },
    {
        match self {
            RunStatus::Created => "created",
            RunStatus::Running => "running",
            RunStatus::Paused => "paused",
            RunStatus::Completed => "completed",
            RunStatus::Failed => "failed",
            RunStatus::Cancelled => "cancelled",
        }
    }
}

/// Accumulated run statistics.
///
/// The two real-valued measures, the cost in USD and the elapsed seconds,
/// are kept as the bit patterns of IEEE-754 doubles: the engine carries them
/// but never computes with them here.
#[derive(Debug, Clone, Copy, PartialEq, Eq, Structural)]
pub struct RunStats {
    /// Total cost so far, as the bits of an `f64` number of USD.
    pub total_cost_usd_bits: u64,
    /// Total tokens consumed so far.
    pub total_tokens: u64,
    /// Total prompt/input tokens consumed so far.
    pub total_input_tokens: u64,
    /// Total completion/output tokens consumed so far.
    pub total_output_tokens: u64,
    /// Wall-clock time so far, as the bits of an `f64` number of seconds.
    pub elapsed_secs_bits: u64,
    /// Rounds completed.
    pub rounds_completed: u32,
}

/// All-zero statistics: no cost, no tokens, no time, no rounds.
pub open spec fn zero_stats() -> RunStats {
    RunStats {
        total_cost_usd_bits: 0,
        total_tokens: 0,
        total_input_tokens: 0,
        total_output_tokens: 0,
        elapsed_secs_bits: 0,
        rounds_completed: 0,
    }
}

impl Default for RunStats {
    fn default() -> (r: Self)
        ensures
            r == zero_stats(),
    {
        RunStats {
            total_cost_usd_bits: 0,
            total_tokens: 0,
            total_input_tokens: 0,
            total_output_tokens: 0,
            elapsed_secs_bits: 0,
            rounds_completed: 0,
        }
    }
}

/// Durable metadata for one graph execution.
#[derive(Debug, PartialEq)]
pub struct RunRecord {
    /// Stable run identifier (a UUID as a 128-bit integer).
    pub id: u128,
    /// Graph manifest path used by the run.
    pub graph: String,
    /// Initial goal supplied to the run.
    pub goal: serde_json::Value,
    /// Current lifecycle status.
    pub status: RunStatus,
    /// Revision used for optimistic concurrency control.
    pub revision: Revision,
    /// Most recent scheduler statistics, when available.
    pub stats: Option<RunStats>,
    /// Human-readable failure or cancellation reason.
    pub error: Option<String>,
}

impl Clone for RunRecord {
    fn clone(&self) -> (res: Self)
        ensures
            res == *self,
    {
        RunRecord {
            id: self.id,
            graph: self.graph.clone(),
            goal: crate::graph::artifact::copy_json(&self.goal),
            status: self.status,
            revision: self.revision,
            stats: self.stats,
            error: match &self.error {
                Some(e) => Some(e.clone()),
                None => None,
            },
        }
    }
}

impl RunRecord {
    /// A new record in the `Created` state, at revision zero, with no
    /// statistics and no error.
    pub fn new(id: u128, graph: String, goal: serde_json::Value) -> (r: Self)
        ensures
            r.id == id,
            r.graph == graph,
            r.goal == goal,
            r.status == RunStatus::Created,
            r.revision == Revision(0),
            r.stats is None,
            r.error is None,
    {
        RunRecord {
            id,
            graph,
            goal,
            status: RunStatus::Created,
            revision: Revision(0),
            stats: None,
            error: None,
        }
    }
}

/// Filter used when listing persisted runs.
#[derive(Debug, Clone, Copy, PartialEq, Eq, Structural)]
pub struct RunFilter {
    /// Restrict results to one lifecycle status.
    pub status: Option<RunStatus>,
    /// Maximum number of records to return.
    pub limit: Option<usize>,
}

impl Default for RunFilter {
    fn default() -> (r: Self)
        ensures
            r.status is None,
            r.limit is None,
    {
        RunFilter { status: None, limit: None }
    }
}

} // verus!
