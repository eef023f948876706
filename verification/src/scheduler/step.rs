//! The decisions of a run's event loop: what a signal, a cancellation, a
//! finished or failed activation, or the end of all work leads to.
use vstd::prelude::*;
use vstd::string::*;
use crate::graph::node::Emit;
use crate::persistence::checkpoint::CheckpointReason;
use crate::scheduler::error::{SchedulerError, SchedulerSignal};
use crate::scheduler::state::{
    complete_failure_model, complete_missing, complete_step, first_with_id, flights_of, Activation, RunState,
};
use crate::text::{decimal, decimal_text};

verus! {

/// Something the event loop of a run observed.
#[derive(Debug)]
pub enum RunEvent {
    /// A signal arrived from outside.
    Signal(SchedulerSignal),
    /// The run's cancellation was triggered (by a signal or a budget).
    Cancelled,
    /// Activation `id` finished with its emissions.
    Completed { id: u64, emits: Vec<Emit> },
    /// Activation `id` of `node_id` in `round` failed with `error`.
    Failed { id: u64, node_id: String, round: u32, error: String },
    /// No activation can report any more.
    Closed,
}

/// What the event loop does next.
#[derive(Debug)]
pub enum RunAction {
    /// Keep running: dispatch `dispatch`; when the round advanced, the
    /// rounds from the first to the last of `completed_rounds` are complete
    /// and a `RoundCompleted` checkpoint is saved.
    Continue { dispatch: Vec<Activation>, completed_rounds: Option<(u32, u32)> },
    /// Save a checkpoint for `reason`, then stop: paused (the run can be
    /// resumed) or cancelled.
    Halt { reason: CheckpointReason, paused: bool },
    /// Stop with `error`, saving nothing.
    Fail(SchedulerError),
    /// Save a `Completion` checkpoint and finish.
    Finish,
}

/// The message for a result of an activation that is not outstanding.
pub open spec fn not_outstanding_text(id: u64) -> Seq<char> {
    "activation "@ + decimal_text(id as nat) + " is not outstanding"@
}

/// Activation `id` is outstanding, in a round that has a next one.
pub open spec fn completable(st: RunState, id: u64) -> bool {
    exists|k: int| first_with_id(st.model().flight, id, k) && st.model().flight[k].round < u32::MAX
}

/// The rounds completed when the round moves from `before` to `after`.
pub open spec fn rounds_between(before: u32, after: u32) -> Option<(u32, u32)> {
    if after > before {
        Some(((before + 1) as u32, after))
    } else {
        None
    }
}

impl RunState {
    /// Take one event of the run's loop and decide what comes next. A
    /// pause or a cancellation halts with its checkpoint and leaves the
    /// state as it is; a failed activation fails the run with
    /// `NodeFailed`; a finished one is completed (see `complete`), after
    /// checking that it is outstanding; the end of all work finishes the
    /// run.
    pub fn step(&mut self, event: RunEvent) -> (r: RunAction)
        ensures
            final(self).nodes() == old(self).nodes(),
            final(self).edges() == old(self).edges(),
            match event {
                RunEvent::Signal(SchedulerSignal::Cancel) | RunEvent::Cancelled => (r matches RunAction::Halt {
                    reason,
                    paused,
                } && reason == CheckpointReason::Cancellation && !paused) && final(self).model() == old(
                    self,
                ).model(),
                RunEvent::Signal(SchedulerSignal::Pause) => (r matches RunAction::Halt { reason, paused }
                    && reason == CheckpointReason::Pause && paused) && final(self).model() == old(self).model(),
                RunEvent::Signal(SchedulerSignal::Resume) => (r matches RunAction::Continue {
                    dispatch,
                    completed_rounds,
                } && dispatch@.len() == 0 && completed_rounds is None) && final(self).model() == old(
                    self,
                ).model(),
                RunEvent::Closed => r is Finish && final(self).model() == old(self).model(),
                RunEvent::Failed { id, node_id, round, error } => (r matches RunAction::Fail(
                    SchedulerError::NodeFailed { node_id: n, round: rd, error: e },
                ) && n == node_id && rd == round && e == error) && final(self).model() == old(self).model(),
                RunEvent::Completed { id, emits } => if !completable(*old(self), id) {
                    (r matches RunAction::Fail(SchedulerError::Internal(m)) && m@ == not_outstanding_text(id))
                        && final(self).model() == old(self).model()
                } else {
                    forall|k: int|
                        first_with_id(old(self).model().flight, id, k) ==> match complete_step(
                            old(self).nodes(),
                            old(self).edges(),
                            old(self).model(),
                            k,
                            old(self).model().flight[k].node,
                            emits@,
                        ) {
                            None => (r matches RunAction::Fail(SchedulerError::NodeNotFound(n)) && n@
                                == complete_missing(
                                old(self).nodes(),
                                old(self).edges(),
                                old(self).model(),
                                k,
                                old(self).model().flight[k].node,
                                emits@,
                            )) && final(self).model() == complete_failure_model(
                                old(self).nodes(),
                                old(self).edges(),
                                old(self).model(),
                                k,
                                old(self).model().flight[k].node,
                                emits@,
                            ),
                            Some((m, fs)) => (r matches RunAction::Continue { dispatch, completed_rounds }
                                && flights_of(dispatch@) == fs && completed_rounds == rounds_between(
                                old(self).model().round,
                                m.round,
                            )) && final(self).model() == m,
                        }
                },
            },
    {
        match event {
            RunEvent::Signal(SchedulerSignal::Cancel) => RunAction::Halt {
                reason: CheckpointReason::Cancellation,
                paused: false,
            },
            RunEvent::Cancelled => RunAction::Halt { reason: CheckpointReason::Cancellation, paused: false },
            RunEvent::Signal(SchedulerSignal::Pause) => RunAction::Halt { reason: CheckpointReason::Pause, paused: true },
            RunEvent::Signal(SchedulerSignal::Resume) => RunAction::Continue {
                dispatch: Vec::new(),
                completed_rounds: None,
            },
            RunEvent::Closed => RunAction::Finish,
            RunEvent::Failed { id: _, node_id, round, error } => RunAction::Fail(
                SchedulerError::NodeFailed { node_id, round, error },
            ),
            RunEvent::Completed { id, emits } => {
                let ok = match self.outstanding_round(id) {
                    Some(rd) => rd < u32::MAX,
                    None => false,
                };
                if !ok {
                    let mut m = String::from_str("activation ");
                    m.append(decimal(id).as_str());
                    m.append(" is not outstanding");
                    return RunAction::Fail(SchedulerError::Internal(m));
                }
                proof {
                    assert forall|k: int| first_with_id(self.model().flight, id, k) implies self.model().flight[k].round
                        < u32::MAX by {
                        let k2 = choose|k2: int|
                            first_with_id(self.model().flight, id, k2) && self.model().flight[k2].round < u32::MAX;
                        if k < k2 {
                        } else if k2 < k {
                        }
                    }
                }
                let before = self.current_round();
                match self.complete(id, emits) {
                    Ok(dispatch) => {
                        let after = self.current_round();
                        let completed_rounds = if after > before {
                            Some((before + 1, after))
                        } else {
                            None
                        };
                        RunAction::Continue { dispatch, completed_rounds }
                    },
                    Err(e) => RunAction::Fail(e),
                }
            },
        }
    }
}

} // verus!
