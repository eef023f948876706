//! Scheduler checkpoints for durable recovery.
use vstd::prelude::*;
use vstd::string::*;
use crate::graph::artifact::Artifact;
use crate::graph::node::PortMsg;
use crate::persistence::record::{zero_stats, Revision, RunStats};
use crate::persistence::store::PersistenceError;

verus! {

/// Why a scheduler checkpoint was written.
#[derive(Debug, Clone, Copy, PartialEq, Eq, Structural)]
pub enum CheckpointReason {
    /// After a completed scheduler round.
    RoundCompleted,
    /// After a requested pause.
    Pause,
    /// After cancellation.
    Cancellation,
    /// Before terminal completion.
    Completion,
    /// After accepting external input.
    InputAccepted,
}

/// An input artifact waiting for a node activation.
#[derive(Debug, PartialEq)]
pub struct PendingInput {
    /// Target node.
    pub node_id: String,
    /// Scheduler round containing the input.
    pub round: u32,
    /// Target input port.
    pub port: String,
    /// Artifact waiting at the port.
    pub artifact: Artifact,
}

/// A ready activation captured at a scheduler boundary.
#[derive(Debug, PartialEq)]
pub struct ActivationSnapshot {
    /// Node to activate.
    pub node_id: String,
    /// Scheduler round containing the activation.
    pub round: u32,
    /// Joined input messages.
    pub inputs: Vec<PortMsg>,
}

/// An artifact emitted by a node on a port with no outbound edge.
#[derive(Debug, PartialEq)]
pub struct RunOutput {
    /// Node that emitted the artifact.
    pub node_id: String,
    /// Output port that emitted the artifact.
    pub port: String,
    /// Scheduler round in which it was emitted.
    pub round: u32,
    /// The terminal artifact.
    pub artifact: Artifact,
}

impl Clone for PendingInput {
    fn clone(&self) -> (res: Self)
        ensures
            res == *self,
    {
        PendingInput {
            node_id: self.node_id.clone(),
            round: self.round,
            port: self.port.clone(),
            artifact: self.artifact.clone(),
        }
    }
}

impl Clone for ActivationSnapshot {
    fn clone(&self) -> (res: Self)
        ensures
            res.node_id == self.node_id,
            res.round == self.round,
            res.inputs@ == self.inputs@,
    {
        let mut inputs: Vec<PortMsg> = Vec::new();
        let mut i: usize = 0;
        while i < self.inputs.len()
            invariant
                0 <= i <= self.inputs.len(),
                inputs@ == self.inputs@.subrange(0, i as int),
            decreases self.inputs.len() - i,
        {
            inputs.push(self.inputs[i].clone());
            assert(inputs@ =~= self.inputs@.subrange(0, i + 1));
            i = i + 1;
        }
        assert(inputs@ =~= self.inputs@);
        ActivationSnapshot { node_id: self.node_id.clone(), round: self.round, inputs }
    }
}

impl Clone for RunOutput {
    fn clone(&self) -> (res: Self)
        ensures
            res == *self,
    {
        RunOutput {
            node_id: self.node_id.clone(),
            port: self.port.clone(),
            round: self.round,
            artifact: self.artifact.clone(),
        }
    }
}

/// Serializable scheduler state used for durable recovery.
#[derive(Debug, PartialEq)]
pub struct RunCheckpoint {
    /// Run this checkpoint belongs to (a UUID as a 128-bit integer).
    pub run_id: u128,
    /// Monotonic checkpoint revision.
    pub revision: Revision,
    /// Hash of the graph topology used to create the checkpoint.
    pub graph_hash: String,
    /// Hash of the runtime configuration used to create the checkpoint.
    pub config_hash: String,
    /// Current synchronized scheduler round.
    pub round: u32,
    /// Outstanding activation count by round, in increasing round order.
    pub round_pending: Vec<(u32, usize)>,
    /// Artifacts buffered for nodes that are not yet ready.
    pub pending_inputs: Vec<PendingInput>,
    /// Activations ready to dispatch at the checkpoint boundary.
    pub ready_activations: Vec<ActivationSnapshot>,
    /// Statistics accumulated through this boundary.
    pub stats: RunStats,
    /// Terminal artifacts emitted through this boundary.
    pub outputs: Vec<RunOutput>,
    /// Why this checkpoint was written.
    pub reason: CheckpointReason,
}

/// `a` is a copy of snapshot `b`.
pub open spec fn same_snapshot(a: ActivationSnapshot, b: ActivationSnapshot) -> bool {
    a.node_id == b.node_id && a.round == b.round && a.inputs@ == b.inputs@
}

/// `a` is a copy of checkpoint `b`.
pub open spec fn same_checkpoint(a: RunCheckpoint, b: RunCheckpoint) -> bool {
    &&& a.run_id == b.run_id
    &&& a.revision == b.revision
    &&& a.graph_hash == b.graph_hash
    &&& a.config_hash == b.config_hash
    &&& a.round == b.round
    &&& a.round_pending@ == b.round_pending@
    &&& a.pending_inputs@ == b.pending_inputs@
    &&& a.ready_activations@.len() == b.ready_activations@.len()
    &&& forall|i: int|
        0 <= i < a.ready_activations@.len() ==> same_snapshot(
            #[trigger] a.ready_activations@[i],
            b.ready_activations@[i],
        )
    &&& a.stats == b.stats
    &&& a.outputs@ == b.outputs@
    &&& a.reason == b.reason
}

impl Clone for RunCheckpoint {
    fn clone(&self) -> (res: Self)
        ensures
            same_checkpoint(res, *self),
    {
        let mut round_pending: Vec<(u32, usize)> = Vec::new();
        let mut i: usize = 0;
        while i < self.round_pending.len()
            invariant
                0 <= i <= self.round_pending@.len(),
                round_pending@ == self.round_pending@.subrange(0, i as int),
            decreases self.round_pending@.len() - i,
        {
            round_pending.push(self.round_pending[i]);
            assert(round_pending@ =~= self.round_pending@.subrange(0, i + 1));
            i = i + 1;
        }
        assert(round_pending@ =~= self.round_pending@);
        let mut pending_inputs: Vec<PendingInput> = Vec::new();
        let mut i: usize = 0;
        while i < self.pending_inputs.len()
            invariant
                0 <= i <= self.pending_inputs@.len(),
                pending_inputs@ == self.pending_inputs@.subrange(0, i as int),
            decreases self.pending_inputs@.len() - i,
        {
            pending_inputs.push(self.pending_inputs[i].clone());
            assert(pending_inputs@ =~= self.pending_inputs@.subrange(0, i + 1));
            i = i + 1;
        }
        assert(pending_inputs@ =~= self.pending_inputs@);
        let mut ready: Vec<ActivationSnapshot> = Vec::new();
        let mut i: usize = 0;
        while i < self.ready_activations.len()
            invariant
                0 <= i <= self.ready_activations@.len(),
                ready@.len() == i,
                forall|j: int| 0 <= j < i ==> same_snapshot(#[trigger] ready@[j], self.ready_activations@[j]),
            decreases self.ready_activations@.len() - i,
        {
            ready.push(self.ready_activations[i].clone());
            i = i + 1;
        }
        let mut outputs: Vec<RunOutput> = Vec::new();
        let mut i: usize = 0;
        while i < self.outputs.len()
            invariant
                0 <= i <= self.outputs@.len(),
                outputs@ == self.outputs@.subrange(0, i as int),
            decreases self.outputs@.len() - i,
        {
            outputs.push(self.outputs[i].clone());
            assert(outputs@ =~= self.outputs@.subrange(0, i + 1));
            i = i + 1;
        }
        assert(outputs@ =~= self.outputs@);
        RunCheckpoint {
            run_id: self.run_id,
            revision: self.revision,
            graph_hash: self.graph_hash.clone(),
            config_hash: self.config_hash.clone(),
            round: self.round,
            round_pending,
            pending_inputs,
            ready_activations: ready,
            stats: self.stats,
            outputs,
            reason: self.reason,
        }
    }
}

/// Some pending input targets `node`'s `port` in `round`.
pub open spec fn input_pending(pending: Seq<PendingInput>, node: Seq<char>, port: Seq<char>, round: u32) -> bool {
    exists|i: int|
        0 <= i < pending.len() && pending[i].node_id@ == node && pending[i].port@ == port
            && pending[i].round == round
}

impl RunCheckpoint {
    /// An empty checkpoint at revision zero and round zero.
    pub fn new(run_id: u128, graph_hash: String, config_hash: String) -> (c: Self)
        ensures
            c.run_id == run_id,
            c.revision == Revision(0),
            c.graph_hash == graph_hash,
            c.config_hash == config_hash,
            c.round == 0,
            c.round_pending@.len() == 0,
            c.pending_inputs@.len() == 0,
            c.ready_activations@.len() == 0,
            c.stats == zero_stats(),
            c.outputs@.len() == 0,
            c.reason == CheckpointReason::RoundCompleted,
    {
        RunCheckpoint {
            run_id,
            revision: Revision(0),
            graph_hash,
            config_hash,
            round: 0,
            round_pending: Vec::new(),
            pending_inputs: Vec::new(),
            ready_activations: Vec::new(),
            stats: RunStats::default(),
            outputs: Vec::new(),
            reason: CheckpointReason::RoundCompleted,
        }
    }

    /// Add an external artifact for `node_id`'s `port` in the checkpoint's
    /// current round. An input already waiting on the same node, port and
    /// round is never replaced: the call then fails and changes nothing.
    pub fn inject_input(&mut self, node_id: String, port: String, artifact: Artifact) -> (r: Result<
        (),
        PersistenceError,
    >)
        ensures
            input_pending(old(self).pending_inputs@, node_id@, port@, old(self).round) <==> r is Err,
            r matches Err(e) ==> (e matches PersistenceError::InputConflict { node_id: n, port: p }
                && n@ == node_id@ && p@ == port@) && *final(self) == *old(self),
            r is Ok ==> final(self).pending_inputs@ == old(self).pending_inputs@.push(
                PendingInput { node_id, round: old(self).round, port, artifact },
            ),
            r is Ok ==> *final(self) == (RunCheckpoint {
                pending_inputs: final(self).pending_inputs,
                ..*old(self)
            }),
    {
        let mut i: usize = 0;
        while i < self.pending_inputs.len()
            invariant
                0 <= i <= self.pending_inputs.len(),
                forall|j: int|
                    0 <= j < i ==> !(self.pending_inputs@[j].node_id@ == node_id@
                        && self.pending_inputs@[j].port@ == port@ && self.pending_inputs@[j].round
                        == self.round),
            decreases self.pending_inputs.len() - i,
        {
            let p = &self.pending_inputs[i];
            if p.node_id == node_id && p.port == port && p.round == self.round {
                return Err(PersistenceError::InputConflict { node_id, port });
            }
            i = i + 1;
        }
        let round = self.round;
        self.pending_inputs.push(PendingInput { node_id, round, port, artifact });
        Ok(())
    }
}

} // verus!
