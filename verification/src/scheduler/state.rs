//! The scheduler's state machine.
//!
//! A node fires once per round, when every one of its required input ports
//! holds an artifact for that round; it is then handed all inputs that have
//! arrived for the round, in port declaration order. Forward edges deliver
//! within the round of the emitting activation, feedback edges into the
//! next round. A round is complete when no activation of it is outstanding;
//! the current round then advances to the next round that has work.
use vstd::prelude::*;
use vstd::string::*;
use crate::graph::artifact::Artifact;
use crate::graph::edge::Edge;
use crate::graph::node::{Emit, PortMsg};
use crate::graph::port::{required_names, PortSpec, PortSpecEntry};
use crate::persistence::checkpoint::{ActivationSnapshot, CheckpointReason, PendingInput, RunCheckpoint, RunOutput};
use crate::persistence::record::{Revision, RunStats};
use crate::scheduler::error::SchedulerError;
use crate::scheduler::resume::{
    lemma_complete_settled, lemma_inject_settled, lemma_restore_settled, settled,
};

verus! {

/// The key of a buffered input: node, round and port.
pub type InputKey = (Seq<char>, u32, Seq<char>);

/// The declared ports of one node of the running graph.
pub struct NodePorts {
    /// The node's identifier.
    pub node_id: String,
    /// The node's port specification.
    pub ports: PortSpec,
}

/// An activation ready to run: a node, its round, and its joined inputs.
#[derive(Debug)]
pub struct Activation {
    /// Identifier of the activation, unique within a run.
    pub id: u64,
    /// The node to run.
    pub node_id: String,
    /// The round the activation belongs to.
    pub round: u32,
    /// The joined inputs, one per populated input port.
    pub inputs: Vec<PortMsg>,
}

/// The abstract form of an outstanding activation.
pub struct Flight {
    pub id: u64,
    pub node: String,
    pub round: u32,
    pub inputs: Seq<PortMsg>,
}

/// The abstract state of a run: buffered inputs by (node, round, port),
/// outstanding activations in dispatch order, the next activation
/// identifier, the current round, and the terminal outputs so far.
pub struct CoreModel {
    pub buffered: Map<InputKey, Artifact>,
    pub flight: Seq<Flight>,
    pub next_id: u64,
    pub round: u32,
    pub outputs: Seq<RunOutput>,
}

/// The abstract form of an activation.
pub open spec fn flight_of(a: Activation) -> Flight {
    Flight { id: a.id, node: a.node_id, round: a.round, inputs: a.inputs@ }
}

/// The abstract form of a list of activations.
pub open spec fn flights_of(v: Seq<Activation>) -> Seq<Flight> {
    v.map_values(|a: Activation| flight_of(a))
}

/// The key of a pending input.
pub open spec fn key_of(p: PendingInput) -> InputKey {
    (p.node_id@, p.round, p.port@)
}

/// Each key occurs at most once in `buf`.
pub open spec fn keys_unique(buf: Seq<PendingInput>) -> bool {
    forall|i: int, j: int| 0 <= i < buf.len() && 0 <= j < buf.len() && i != j ==> key_of(buf[i]) != key_of(
        buf[j],
    )
}

/// The buffered inputs as a map from key to artifact.
pub open spec fn buffer_map(buf: Seq<PendingInput>) -> Map<InputKey, Artifact> {
    Map::new(
        |k: InputKey| exists|i: int| 0 <= i < buf.len() && key_of(buf[i]) == k,
        |k: InputKey| buf[choose|i: int| 0 <= i < buf.len() && key_of(buf[i]) == k].artifact,
    )
}

/// Node `i` is the first entry of `nodes` for node `id`.
pub open spec fn first_ports(nodes: Seq<NodePorts>, id: Seq<char>, i: int) -> bool {
    &&& 0 <= i < nodes.len()
    &&& nodes[i].node_id@ == id
    &&& forall|j: int| 0 <= j < i ==> nodes[j].node_id@ != id
}

/// The ports declared for node `id`, if it is part of the run.
pub open spec fn ports_of(nodes: Seq<NodePorts>, id: Seq<char>) -> Option<PortSpec> {
    if exists|i: int| 0 <= i < nodes.len() && nodes[i].node_id@ == id {
        Some(nodes[choose|i: int| first_ports(nodes, id, i)].ports)
    } else {
        None
    }
}

/// Every name in `reqs` has an input buffered for `node` in `round`.
pub open spec fn all_present(b: Map<InputKey, Artifact>, node: Seq<char>, round: u32, reqs: Seq<Seq<char>>) -> bool {
    forall|i: int| 0 <= i < reqs.len() ==> #[trigger] b.contains_key((node, round, reqs[i]))
}

/// A node with ports `ps` is ready in `round`: it has at least one required
/// input, and all of them are buffered.
pub open spec fn is_ready(b: Map<InputKey, Artifact>, node: Seq<char>, round: u32, ps: PortSpec) -> bool {
    required_names(ps.inputs@).len() > 0 && all_present(b, node, round, required_names(ps.inputs@))
}

/// The joined inputs of `node` in `round`: for each declared input port in
/// order, the artifact buffered for it, if any.
pub open spec fn joined(b: Map<InputKey, Artifact>, node: Seq<char>, round: u32, inputs: Seq<PortSpecEntry>) -> Seq<
    PortMsg,
>
    decreases inputs.len(),
{
    if inputs.len() == 0 {
        Seq::empty()
    } else {
        let rest = joined(b, node, round, inputs.drop_last());
        let p = inputs.last();
        if b.contains_key((node, round, p.name@)) {
            rest.push(PortMsg { port: p.name, artifact: b[(node, round, p.name@)] })
        } else {
            rest
        }
    }
}

/// `b` without the inputs of `node` in `round`.
pub open spec fn without_bucket(b: Map<InputKey, Artifact>, node: Seq<char>, round: u32) -> Map<
    InputKey,
    Artifact,
> {
    Map::new(|k: InputKey| b.contains_key(k) && !(k.0 == node && k.1 == round), |k: InputKey| b[k])
}

/// The identifier that follows `id` (it saturates at the maximum).
pub open spec fn next_id_after(id: u64) -> u64 {
    if id == u64::MAX {
        id
    } else {
        (id + 1) as u64
    }
}

/// Buffer `a` for `node`'s `port` in `round` and fire the node if it is now
/// ready. `None` when the node is not part of the run.
pub open spec fn deliver_step(
    nodes: Seq<NodePorts>,
    m: CoreModel,
    node: String,
    port: Seq<char>,
    a: Artifact,
    round: u32,
) -> Option<(CoreModel, Option<Flight>)> {
    match ports_of(nodes, node@) {
        None => None,
        Some(ps) => {
            let b = m.buffered.insert((node@, round, port), a);
            if is_ready(b, node@, round, ps) {
                let f = Flight {
                    id: m.next_id,
                    node,
                    round,
                    inputs: joined(b, node@, round, ps.inputs@),
                };
                Some(
                    (
                        CoreModel {
                            buffered: without_bucket(b, node@, round),
                            flight: m.flight.push(f),
                            next_id: next_id_after(m.next_id),
                            ..m
                        },
                        Some(f),
                    ),
                )
            } else {
                Some((CoreModel { buffered: b, ..m }, None))
            }
        },
    }
}

/// The state after delivering `a` to `node`'s `port` in `round` fails
/// because the node is not part of the run: the artifact stays buffered.
pub open spec fn failed_delivery(m: CoreModel, node: Seq<char>, port: Seq<char>, a: Artifact, round: u32) -> CoreModel {
    CoreModel { buffered: m.buffered.insert((node, round, port), a), ..m }
}

/// Some edge leaves `from` on its output port `port`.
pub open spec fn routes(edges: Seq<Edge>, from: Seq<char>, port: Seq<char>) -> bool {
    exists|i: int| 0 <= i < edges.len() && #[trigger] edges[i].from_node@ == from && edges[i].from_port@ == port
}

/// The round an artifact travelling along `e` belongs to, when it was
/// emitted in `round`.
pub open spec fn target_round(e: Edge, round: u32) -> u32 {
    if e.feedback {
        (round + 1) as u32
    } else {
        round
    }
}

/// Deliver artifact `a`, emitted by `from` on `port` in `round`, along the
/// first `n` edges in order: every edge that leaves that port delivers a copy
/// to its target. The activations dispatched are collected in order. `None`
/// when an edge leads to a node that is not part of the run.
pub open spec fn route_prefix(
    nodes: Seq<NodePorts>,
    edges: Seq<Edge>,
    m: CoreModel,
    from: Seq<char>,
    port: Seq<char>,
    a: Artifact,
    round: u32,
    n: int,
) -> Option<(CoreModel, Seq<Flight>)>
    decreases n,
{
    if n <= 0 {
        Some((m, Seq::empty()))
    } else {
        match route_prefix(nodes, edges, m, from, port, a, round, n - 1) {
            None => None,
            Some((m1, fs)) => {
                let e = edges[n - 1];
                if e.from_node@ == from && e.from_port@ == port {
                    match deliver_step(nodes, m1, e.to_node, e.to_port@, a, target_round(e, round)) {
                        None => None,
                        Some((m2, f)) => Some(
                            (
                                m2,
                                match f {
                                    Some(g) => fs.push(g),
                                    None => fs,
                                },
                            ),
                        ),
                    }
                } else {
                    Some((m1, fs))
                }
            },
        }
    }
}

/// Handle one emission of `from` in `round`: when no edge leaves its port it
/// is recorded as a terminal output; then it is routed along the edges.
pub open spec fn emit_step(
    nodes: Seq<NodePorts>,
    edges: Seq<Edge>,
    m: CoreModel,
    from: String,
    round: u32,
    e: Emit,
) -> Option<(CoreModel, Seq<Flight>)> {
    let m0 = if routes(edges, from@, e.port@) {
        m
    } else {
        CoreModel {
            outputs: m.outputs.push(RunOutput { node_id: from, port: e.port, round, artifact: e.artifact }),
            ..m
        }
    };
    route_prefix(nodes, edges, m0, from@, e.port@, e.artifact, round, edges.len() as int)
}

/// Handle the emissions of `from` in `round`, in order.
pub open spec fn emits_step(
    nodes: Seq<NodePorts>,
    edges: Seq<Edge>,
    m: CoreModel,
    from: String,
    round: u32,
    emits: Seq<Emit>,
) -> Option<(CoreModel, Seq<Flight>)>
    decreases emits.len(),
{
    if emits.len() == 0 {
        Some((m, Seq::empty()))
    } else {
        match emits_step(nodes, edges, m, from, round, emits.drop_last()) {
            None => None,
            Some((m1, fs)) => match emit_step(nodes, edges, m1, from, round, emits.last()) {
                None => None,
                Some((m2, gs)) => Some((m2, fs + gs)),
            },
        }
    }
}

/// `k` is the first outstanding activation with identifier `id`.
pub open spec fn first_with_id(fl: Seq<Flight>, id: u64, k: int) -> bool {
    &&& 0 <= k < fl.len()
    &&& fl[k].id == id
    &&& forall|j: int| 0 <= j < k ==> fl[j].id != id
}

/// The smallest round among outstanding activations.
pub open spec fn min_round(fl: Seq<Flight>) -> u32
    decreases fl.len(),
{
    if fl.len() <= 1 {
        fl[0].round
    } else {
        let r = min_round(fl.drop_last());
        if fl.last().round < r {
            fl.last().round
        } else {
            r
        }
    }
}

/// The round after outstanding work changed: the earliest round that still
/// has an outstanding activation, or the current one when nothing is left.
pub open spec fn advanced_round(fl: Seq<Flight>, round: u32) -> u32 {
    if fl.len() == 0 {
        round
    } else {
        min_round(fl)
    }
}

/// The state after activation `fl[k]` completed with `emits`: it is no
/// longer outstanding, its emissions are handled in order, and the round
/// advances to the earliest one with outstanding work.
pub open spec fn complete_step(nodes: Seq<NodePorts>, edges: Seq<Edge>, m: CoreModel, k: int, from: String, emits: Seq<
    Emit,
>) -> Option<(CoreModel, Seq<Flight>)> {
    let m0 = CoreModel { flight: m.flight.remove(k), ..m };
    match emits_step(nodes, edges, m0, from, m.flight[k].round, emits) {
        None => None,
        Some((m1, fs)) => Some((CoreModel { round: advanced_round(m1.flight, m1.round), ..m1 }, fs)),
    }
}

/// The node, not part of the run, at which routing an emission along the
/// first `n` edges stops: the target of the first edge leaving its port
/// that leads outside the run (meaningful when the routing fails).
pub open spec fn route_missing(
    nodes: Seq<NodePorts>,
    edges: Seq<Edge>,
    m: CoreModel,
    from: Seq<char>,
    port: Seq<char>,
    a: Artifact,
    round: u32,
    n: int,
) -> Seq<char>
    decreases n,
{
    if n <= 0 {
        Seq::empty()
    } else {
        match route_prefix(nodes, edges, m, from, port, a, round, n - 1) {
            None => route_missing(nodes, edges, m, from, port, a, round, n - 1),
            Some(_) => edges[n - 1].to_node@,
        }
    }
}

/// The node at which handling emission `e` of `from` in `round` stops.
pub open spec fn emit_missing(
    nodes: Seq<NodePorts>,
    edges: Seq<Edge>,
    m: CoreModel,
    from: String,
    round: u32,
    e: Emit,
) -> Seq<char> {
    let m0 = if routes(edges, from@, e.port@) {
        m
    } else {
        CoreModel {
            outputs: m.outputs.push(RunOutput { node_id: from, port: e.port, round, artifact: e.artifact }),
            ..m
        }
    };
    route_missing(nodes, edges, m0, from@, e.port@, e.artifact, round, edges.len() as int)
}

/// The node at which handling the emissions `emits` stops: that of the
/// first emission whose routing fails.
pub open spec fn emits_missing(
    nodes: Seq<NodePorts>,
    edges: Seq<Edge>,
    m: CoreModel,
    from: String,
    round: u32,
    emits: Seq<Emit>,
) -> Seq<char>
    decreases emits.len(),
{
    if emits.len() == 0 {
        Seq::empty()
    } else {
        match emits_step(nodes, edges, m, from, round, emits.drop_last()) {
            None => emits_missing(nodes, edges, m, from, round, emits.drop_last()),
            Some((m1, _)) => emit_missing(nodes, edges, m1, from, round, emits.last()),
        }
    }
}

/// The node at which completing activation `m.flight[k]` with `emits`
/// stops, when it fails.
pub open spec fn complete_missing(
    nodes: Seq<NodePorts>,
    edges: Seq<Edge>,
    m: CoreModel,
    k: int,
    from: String,
    emits: Seq<Emit>,
) -> Seq<char> {
    emits_missing(nodes, edges, CoreModel { flight: m.flight.remove(k), ..m }, from, m.flight[k].round, emits)
}

/// The state in which routing an emission along the first `n` edges stops
/// when it fails: the deliveries before the failing one are made, and the
/// failing one leaves its artifact buffered.
pub open spec fn route_failure_model(
    nodes: Seq<NodePorts>,
    edges: Seq<Edge>,
    m: CoreModel,
    from: Seq<char>,
    port: Seq<char>,
    a: Artifact,
    round: u32,
    n: int,
) -> CoreModel
    decreases n,
{
    if n <= 0 {
        m
    } else {
        match route_prefix(nodes, edges, m, from, port, a, round, n - 1) {
            None => route_failure_model(nodes, edges, m, from, port, a, round, n - 1),
            Some((m1, _)) => failed_delivery(
                m1,
                edges[n - 1].to_node@,
                edges[n - 1].to_port@,
                a,
                target_round(edges[n - 1], round),
            ),
        }
    }
}

/// The state in which handling emission `e` of `from` in `round` stops
/// when it fails.
pub open spec fn emit_failure_model(
    nodes: Seq<NodePorts>,
    edges: Seq<Edge>,
    m: CoreModel,
    from: String,
    round: u32,
    e: Emit,
) -> CoreModel {
    let m0 = if routes(edges, from@, e.port@) {
        m
    } else {
        CoreModel {
            outputs: m.outputs.push(RunOutput { node_id: from, port: e.port, round, artifact: e.artifact }),
            ..m
        }
    };
    route_failure_model(nodes, edges, m0, from@, e.port@, e.artifact, round, edges.len() as int)
}

/// The state in which handling the emissions `emits` stops when one of
/// them fails: that of the first emission whose routing fails.
pub open spec fn emits_failure_model(
    nodes: Seq<NodePorts>,
    edges: Seq<Edge>,
    m: CoreModel,
    from: String,
    round: u32,
    emits: Seq<Emit>,
) -> CoreModel
    decreases emits.len(),
{
    if emits.len() == 0 {
        m
    } else {
        match emits_step(nodes, edges, m, from, round, emits.drop_last()) {
            None => emits_failure_model(nodes, edges, m, from, round, emits.drop_last()),
            Some((m1, _)) => emit_failure_model(nodes, edges, m1, from, round, emits.last()),
        }
    }
}

/// The state left when completing activation `m.flight[k]` with `emits`
/// fails: the activation is no longer outstanding, the emissions before the
/// failing delivery are handled, and the round does not advance.
pub open spec fn complete_failure_model(
    nodes: Seq<NodePorts>,
    edges: Seq<Edge>,
    m: CoreModel,
    k: int,
    from: String,
    emits: Seq<Emit>,
) -> CoreModel {
    emits_failure_model(nodes, edges, CoreModel { flight: m.flight.remove(k), ..m }, from, m.flight[k].round, emits)
}

/// The smallest round is one of the rounds, and no round is smaller.
pub proof fn lemma_min_round(fl: Seq<Flight>)
    requires
        fl.len() > 0,
    ensures
        exists|i: int| 0 <= i < fl.len() && fl[i].round == min_round(fl),
        forall|i: int| 0 <= i < fl.len() ==> min_round(fl) <= #[trigger] fl[i].round,
    decreases fl.len(),
{
    if fl.len() > 1 {
        lemma_min_round(fl.drop_last());
        let w = choose|i: int| 0 <= i < fl.drop_last().len() && fl.drop_last()[i].round == min_round(fl.drop_last());
        if fl.last().round < min_round(fl.drop_last()) {
            assert(fl[fl.len() - 1].round == min_round(fl));
        } else {
            assert(fl[w].round == min_round(fl));
        }
        assert forall|i: int| 0 <= i < fl.len() implies min_round(fl) <= #[trigger] fl[i].round by {
            if i < fl.len() - 1 {
                assert(fl[i] == fl.drop_last()[i]);
            }
        }
    } else {
        assert(fl[0].round == min_round(fl));
    }
}

proof fn lemma_route_none(
    nodes: Seq<NodePorts>,
    edges: Seq<Edge>,
    m: CoreModel,
    from: Seq<char>,
    port: Seq<char>,
    a: Artifact,
    round: u32,
    n: int,
    t: int,
)
    requires
        route_prefix(nodes, edges, m, from, port, a, round, n) is None,
        n <= t,
    ensures
        route_prefix(nodes, edges, m, from, port, a, round, t) is None,
        route_missing(nodes, edges, m, from, port, a, round, t) == route_missing(
            nodes,
            edges,
            m,
            from,
            port,
            a,
            round,
            n,
        ),
        route_failure_model(nodes, edges, m, from, port, a, round, t) == route_failure_model(
            nodes,
            edges,
            m,
            from,
            port,
            a,
            round,
            n,
        ),
    decreases t - n,
{
    if n < t {
        lemma_route_none(nodes, edges, m, from, port, a, round, n, t - 1);
    }
}

proof fn lemma_emits_none(nodes: Seq<NodePorts>, edges: Seq<Edge>, m: CoreModel, from: String, round: u32, emits: Seq<Emit>, n: int)
    requires
        0 <= n <= emits.len(),
        emits_step(nodes, edges, m, from, round, emits.subrange(0, n)) is None,
    ensures
        emits_step(nodes, edges, m, from, round, emits) is None,
        emits_missing(nodes, edges, m, from, round, emits) == emits_missing(
            nodes,
            edges,
            m,
            from,
            round,
            emits.subrange(0, n),
        ),
        emits_failure_model(nodes, edges, m, from, round, emits) == emits_failure_model(
            nodes,
            edges,
            m,
            from,
            round,
            emits.subrange(0, n),
        ),
    decreases emits.len() - n,
{
    if n < emits.len() {
        assert(emits.subrange(0, n + 1).drop_last() =~= emits.subrange(0, n));
        lemma_emits_none(nodes, edges, m, from, round, emits, n + 1);
    } else {
        assert(emits.subrange(0, n) =~= emits);
    }
}

/// The first declared input port of `ps` (empty when it declares none).
pub open spec fn first_input(ps: PortSpec) -> Seq<char> {
    if ps.inputs@.len() > 0 {
        ps.inputs@[0].name@
    } else {
        Seq::empty()
    }
}

/// Inject `a` into `node`'s first input port in the current round. A node
/// that is not part of the run is skipped.
pub open spec fn inject_step(nodes: Seq<NodePorts>, m: CoreModel, node: String, a: Artifact) -> (CoreModel, Option<
    Flight,
>) {
    match ports_of(nodes, node@) {
        None => (m, None),
        Some(ps) => match deliver_step(nodes, m, node, first_input(ps), a, m.round) {
            Some(r) => r,
            None => (m, None),
        },
    }
}

/// The number of outstanding activations of round `r`.
pub open spec fn count_round(fl: Seq<Flight>, r: u32) -> nat
    decreases fl.len(),
{
    if fl.len() == 0 {
        0
    } else {
        count_round(fl.drop_last(), r) + if fl.last().round == r {
            1nat
        } else {
            0nat
        }
    }
}

/// `v` lists, once per round, how many activations of `fl` are
/// outstanding in that round; every round with outstanding work is listed.
pub open spec fn pending_counts(fl: Seq<Flight>, v: Seq<(u32, usize)>) -> bool {
    &&& forall|i: int, j: int| 0 <= i < j < v.len() ==> v[i].0 != v[j].0
    &&& forall|i: int| 0 <= i < v.len() ==> v[i].1 == count_round(fl, v[i].0) && v[i].1 > 0
    &&& forall|j: int| 0 <= j < fl.len() ==> exists|i: int| 0 <= i < v.len() && v[i].0 == (#[trigger] fl[j]).round
}

/// The sum of the counts in `v`.
pub open spec fn sum_counts(v: Seq<(u32, usize)>) -> nat
    decreases v.len(),
{
    if v.len() == 0 {
        0
    } else {
        sum_counts(v.drop_last()) + v.last().1 as nat
    }
}

/// Snapshot `s` records outstanding activation `f`.
pub open spec fn snapshot_of(s: ActivationSnapshot, f: Flight) -> bool {
    s.node_id == f.node && s.round == f.round && s.inputs@ == f.inputs
}

/// A fresh state in round `round`, with nothing buffered or outstanding.
pub open spec fn initial_model(round: u32, outputs: Seq<RunOutput>) -> CoreModel {
    CoreModel { buffered: Map::empty(), flight: Seq::empty(), next_id: 0, round, outputs }
}

/// Buffer a checkpointed input again. One of the current round or a later
/// one is delivered as usual; one of an earlier round goes back into its
/// bucket, and `None` when that completes the bucket (an incomplete join of a
/// past round cannot fire) or names a node that is not part of the run.
pub open spec fn rebuffer_step(
    nodes: Seq<NodePorts>,
    m: CoreModel,
    node: String,
    port: Seq<char>,
    a: Artifact,
    round: u32,
) -> Option<(CoreModel, Option<Flight>)> {
    if round >= m.round {
        deliver_step(nodes, m, node, port, a, round)
    } else {
        match ports_of(nodes, node@) {
            None => None,
            Some(ps) => {
                let b = m.buffered.insert((node@, round, port), a);
                if is_ready(b, node@, round, ps) {
                    None
                } else {
                    Some((CoreModel { buffered: b, ..m }, None))
                }
            },
        }
    }
}

/// Deliver the checkpointed inputs `pending` in order.
pub open spec fn redeliver(nodes: Seq<NodePorts>, m: CoreModel, pending: Seq<PendingInput>) -> Option<
    (CoreModel, Seq<Flight>),
>
    decreases pending.len(),
{
    if pending.len() == 0 {
        Some((m, Seq::empty()))
    } else {
        match redeliver(nodes, m, pending.drop_last()) {
            None => None,
            Some((m1, fs)) => {
                let p = pending.last();
                match rebuffer_step(nodes, m1, p.node_id, p.port@, p.artifact, p.round) {
                    None => None,
                    Some((m2, f)) => Some(
                        (
                            m2,
                            match f {
                                Some(g) => fs.push(g),
                                None => fs,
                            },
                        ),
                    ),
                }
            },
        }
    }
}

/// Dispatch the checkpointed ready activations `ready` in order, each under
/// a fresh identifier. `None` when one names a node that is not part of the
/// run or belongs to a round before the current one.
pub open spec fn respawn(nodes: Seq<NodePorts>, m: CoreModel, ready: Seq<ActivationSnapshot>) -> Option<
    (CoreModel, Seq<Flight>),
>
    decreases ready.len(),
{
    if ready.len() == 0 {
        Some((m, Seq::empty()))
    } else {
        match respawn(nodes, m, ready.drop_last()) {
            None => None,
            Some((m1, fs)) => {
                let s = ready.last();
                if ports_of(nodes, s.node_id@) is None || s.round < m1.round {
                    None
                } else {
                    let f = Flight { id: m1.next_id, node: s.node_id, round: s.round, inputs: s.inputs@ };
                    Some(
                        (
                            CoreModel { flight: m1.flight.push(f), next_id: next_id_after(m1.next_id), ..m1 },
                            fs.push(f),
                        ),
                    )
                }
            },
        }
    }
}

/// Resume from a checkpoint taken in `round`: start fresh with its outputs,
/// deliver its buffered inputs again, then dispatch its ready activations.
pub open spec fn restore_step(
    nodes: Seq<NodePorts>,
    round: u32,
    pending: Seq<PendingInput>,
    ready: Seq<ActivationSnapshot>,
    outputs: Seq<RunOutput>,
) -> Option<(CoreModel, Seq<Flight>)> {
    match redeliver(nodes, initial_model(round, outputs), pending) {
        None => None,
        Some((m1, fs)) => match respawn(nodes, m1, ready) {
            None => None,
            Some((m2, gs)) => Some((m2, fs + gs)),
        },
    }
}

/// Why a checkpointed item naming `node` is refused: `Some(node)` when the
/// node is not part of the run, `None` when the checkpoint does not fit
/// the run (a stale round).
pub open spec fn missing_node(nodes: Seq<NodePorts>, node: Seq<char>) -> Option<Seq<char>> {
    if ports_of(nodes, node) is None {
        Some(node)
    } else {
        None
    }
}

/// `e` is the error for the refusal `f`: `NodeNotFound` of the missing
/// node, or `CheckpointMismatch`.
pub open spec fn refusal_error(e: SchedulerError, f: Option<Seq<char>>) -> bool {
    match f {
        Some(n) => e matches SchedulerError::NodeNotFound(x) && x@ == n,
        None => e is CheckpointMismatch,
    }
}

/// Why delivering the checkpointed inputs `pending` again is refused: the
/// refusal of the first input that cannot be delivered.
pub open spec fn redeliver_refusal(nodes: Seq<NodePorts>, m: CoreModel, pending: Seq<PendingInput>) -> Option<
    Seq<char>,
>
    decreases pending.len(),
{
    if pending.len() == 0 {
        None
    } else {
        match redeliver(nodes, m, pending.drop_last()) {
            None => redeliver_refusal(nodes, m, pending.drop_last()),
            Some(_) => missing_node(nodes, pending.last().node_id@),
        }
    }
}

/// Why dispatching the checkpointed activations `ready` again is refused:
/// the refusal of the first one that cannot be dispatched.
pub open spec fn respawn_refusal(nodes: Seq<NodePorts>, m: CoreModel, ready: Seq<ActivationSnapshot>) -> Option<
    Seq<char>,
>
    decreases ready.len(),
{
    if ready.len() == 0 {
        None
    } else {
        match respawn(nodes, m, ready.drop_last()) {
            None => respawn_refusal(nodes, m, ready.drop_last()),
            Some(_) => missing_node(nodes, ready.last().node_id@),
        }
    }
}

/// Why resuming from a checkpoint is refused: that of its buffered inputs,
/// or else that of its ready activations.
pub open spec fn restore_refusal(
    nodes: Seq<NodePorts>,
    round: u32,
    pending: Seq<PendingInput>,
    ready: Seq<ActivationSnapshot>,
    outputs: Seq<RunOutput>,
) -> Option<Seq<char>> {
    match redeliver(nodes, initial_model(round, outputs), pending) {
        None => redeliver_refusal(nodes, initial_model(round, outputs), pending),
        Some((m1, _)) => respawn_refusal(nodes, m1, ready),
    }
}

/// With unique keys, the entry at `i` is what the map holds for its key.
pub proof fn lemma_buffer_at(buf: Seq<PendingInput>, i: int)
    requires
        keys_unique(buf),
        0 <= i < buf.len(),
    ensures
        buffer_map(buf).contains_key(key_of(buf[i])),
        buffer_map(buf)[key_of(buf[i])] == buf[i].artifact,
{
    let k = key_of(buf[i]);
    assert(buffer_map(buf).contains_key(k));
    let j = choose|j: int| 0 <= j < buf.len() && key_of(buf[j]) == k;
    assert(j == i);
}

/// The run's mutable scheduling state.
pub struct RunState {
    nodes: Vec<NodePorts>,
    edges: Vec<Edge>,
    buffer: Vec<PendingInput>,
    in_flight: Vec<Activation>,
    next_id: u64,
    round: u32,
    outputs: Vec<RunOutput>,
}

impl RunState {
    /// Buffered inputs are keyed uniquely, and no outstanding activation
    /// belongs to a round before the current one.
    #[verifier::type_invariant]
    closed spec fn well_formed(self) -> bool {
        &&& keys_unique(self.buffer@)
        &&& forall|i: int| 0 <= i < self.in_flight@.len() ==> #[trigger] self.in_flight@[i].round >= self.round
    }

    /// The abstract state.
    pub closed spec fn model(self) -> CoreModel {
        CoreModel {
            buffered: buffer_map(self.buffer@),
            flight: flights_of(self.in_flight@),
            next_id: self.next_id,
            round: self.round,
            outputs: self.outputs@,
        }
    }

    /// The nodes of the run and their ports.
    pub closed spec fn nodes(self) -> Seq<NodePorts> {
        self.nodes@
    }

    /// The edges of the run's graph.
    pub closed spec fn edges(self) -> Seq<Edge> {
        self.edges@
    }
}

impl RunState {
    /// The position of the first entry for node `id`.
    fn node_index(&self, id: &String) -> (r: Option<usize>)
        ensures
            match r {
                Some(i) => first_ports(self.nodes@, id@, i as int) && ports_of(self.nodes@, id@) == Some(
                    self.nodes@[i as int].ports,
                ),
                None => ports_of(self.nodes@, id@) is None,
            },
    {
        let mut i: usize = 0;
        while i < self.nodes.len()
            invariant
                0 <= i <= self.nodes.len(),
                forall|j: int| 0 <= j < i ==> self.nodes@[j].node_id@ != id@,
            decreases self.nodes.len() - i,
        {
            if self.nodes[i].node_id == *id {
                proof {
                    assert(first_ports(self.nodes@, id@, i as int));
                    let k = choose|k: int| first_ports(self.nodes@, id@, k);
                    assert(k == i) by {
                        if k < i {
                        } else if k > i {
                        }
                    }
                }
                return Some(i);
            }
            i = i + 1;
        }
        None
    }

    /// The position of the buffered input with key (`node`, `round`, `port`).
    fn buffer_index(&self, node: &String, round: u32, port: &String) -> (r: Option<usize>)
        ensures
            match r {
                Some(i) => i < self.buffer@.len() && key_of(self.buffer@[i as int]) == (node@, round, port@)
                    && self.model().buffered.contains_key((node@, round, port@))
                    && self.model().buffered[(node@, round, port@)] == self.buffer@[i as int].artifact,
                None => !self.model().buffered.contains_key((node@, round, port@)),
            },
    {
        proof {
            use_type_invariant(self);
        }
        let mut i: usize = 0;
        while i < self.buffer.len()
            invariant
                0 <= i <= self.buffer.len(),
                keys_unique(self.buffer@),
                forall|j: int| 0 <= j < i ==> key_of(self.buffer@[j]) != (node@, round, port@),
            decreases self.buffer.len() - i,
        {
            let p = &self.buffer[i];
            if p.node_id == *node && p.round == round && p.port == *port {
                proof {
                    lemma_buffer_at(self.buffer@, i as int);
                }
                return Some(i);
            }
            i = i + 1;
        }
        None
    }

    /// Buffer `artifact` under (`node`, `round`, `port`), replacing an input
    /// already buffered there.
    fn put_input(&mut self, node: String, round: u32, port: String, artifact: Artifact)
        ensures
            final(self).model() == (CoreModel {
                buffered: old(self).model().buffered.insert((node@, round, port@), artifact),
                ..old(self).model()
            }),
            final(self).nodes() == old(self).nodes(),
            final(self).edges() == old(self).edges(),
    {
        proof {
            use_type_invariant(&*self);
        }
        let ghost old_buf = self.buffer@;
        let ghost k = (node@, round, port@);
        let found = self.buffer_index(&node, round, &port);
        let mut buf = Vec::new();
        std::mem::swap(&mut buf, &mut self.buffer);
        match found {
            Some(i) => {
                buf.set(i, PendingInput { node_id: node, round, port, artifact });
            },
            None => {
                buf.push(PendingInput { node_id: node, round, port, artifact });
            },
        }
        proof {
            let nb = buf@;
            let at: int = match found {
                Some(i) => i as int,
                None => old_buf.len() as int,
            };
            assert(key_of(nb[at]) == k);
            assert(keys_unique(nb)) by {
                assert forall|a: int, b: int| 0 <= a < nb.len() && 0 <= b < nb.len() && a != b implies key_of(
                    nb[a],
                ) != key_of(nb[b]) by {
                    if a != at && b != at {
                        assert(nb[a] == old_buf[a] && nb[b] == old_buf[b]);
                    } else if a == at {
                        if b < old_buf.len() {
                            assert(nb[b] == old_buf[b]);
                        }
                    } else {
                        if a < old_buf.len() {
                            assert(nb[a] == old_buf[a]);
                        }
                    }
                }
            }
            lemma_buffer_at(nb, at);
            let expect = buffer_map(old_buf).insert(k, artifact);
            assert forall|q: InputKey| #[trigger] buffer_map(nb).contains_key(q) == expect.contains_key(q) && (
            buffer_map(nb).contains_key(q) ==> buffer_map(nb)[q] == expect[q]) by {
                if q == k {
                } else {
                    if exists|j: int| 0 <= j < nb.len() && key_of(nb[j]) == q {
                        let j = choose|j: int| 0 <= j < nb.len() && key_of(nb[j]) == q;
                        assert(j != at);
                        assert(nb[j] == old_buf[j]);
                        lemma_buffer_at(nb, j);
                        lemma_buffer_at(old_buf, j);
                    }
                    if exists|j: int| 0 <= j < old_buf.len() && key_of(old_buf[j]) == q {
                        let j = choose|j: int| 0 <= j < old_buf.len() && key_of(old_buf[j]) == q;
                        assert(j != at);
                        assert(nb[j] == old_buf[j]);
                    }
                }
            }
            assert(buffer_map(nb) =~= expect);
        }
        self.buffer = buf;
    }

    /// Remove every input buffered for `node` in `round`.
    fn take_bucket(&mut self, node: &String, round: u32)
        ensures
            final(self).model() == (CoreModel {
                buffered: without_bucket(old(self).model().buffered, node@, round),
                ..old(self).model()
            }),
            final(self).nodes() == old(self).nodes(),
            final(self).edges() == old(self).edges(),
    {
        proof {
            use_type_invariant(&*self);
        }
        let ghost old_buf = self.buffer@;
        let mut kept: Vec<PendingInput> = Vec::new();
        let ghost mut src: Seq<int> = Seq::empty();
        let mut i: usize = 0;
        while i < self.buffer.len()
            invariant
                0 <= i <= self.buffer.len(),
                self.buffer@ == old_buf,
                keys_unique(old_buf),
                src.len() == kept@.len(),
                forall|j: int| 0 <= j < src.len() ==> 0 <= #[trigger] src[j] < i,
                forall|a: int, b: int| 0 <= a < b < src.len() ==> src[a] < src[b],
                forall|j: int| 0 <= j < src.len() ==> kept@[j] == old_buf[#[trigger] src[j]],
                forall|j: int| 0 <= j < kept@.len() ==> !(#[trigger] kept@[j].node_id@ == node@ && kept@[j].round == round),
                forall|t: int|
                    0 <= t < i && !(old_buf[t].node_id@ == node@ && old_buf[t].round == round) ==> exists|j: int|
                        0 <= j < src.len() && #[trigger] src[j] == t,
            decreases self.buffer.len() - i,
        {
            let p = &self.buffer[i];
            if !(p.node_id == *node && p.round == round) {
                let ghost old_src = src;
                let ghost old_kept = kept@;
                kept.push(p.clone());
                proof {
                    src = src.push(i as int);
                    assert forall|j: int| 0 <= j < src.len() implies kept@[j] == old_buf[#[trigger] src[j]] by {
                        if j < old_src.len() {
                            assert(kept@[j] == old_kept[j]);
                            assert(src[j] == old_src[j]);
                        }
                    }
                    assert forall|t: int|
                        0 <= t < i + 1 && !(old_buf[t].node_id@ == node@ && old_buf[t].round == round) implies exists|j: int|
                            0 <= j < src.len() && #[trigger] src[j] == t by {
                        if t == i {
                            assert(src[src.len() - 1] == t);
                        } else {
                            let j = choose|j: int| 0 <= j < old_src.len() && #[trigger] old_src[j] == t;
                            assert(src[j] == t);
                        }
                    }
                }
            }
            i = i + 1;
        }
        proof {
            let nb = kept@;
            assert(keys_unique(nb)) by {
                assert forall|a: int, b: int| 0 <= a < nb.len() && 0 <= b < nb.len() && a != b implies key_of(
                    nb[a],
                ) != key_of(nb[b]) by {
                    assert(nb[a] == old_buf[src[a]]);
                    assert(nb[b] == old_buf[src[b]]);
                    if a < b {
                        assert(src[a] < src[b]);
                    } else {
                        assert(src[b] < src[a]);
                    }
                }
            }
            let expect = without_bucket(buffer_map(old_buf), node@, round);
            assert forall|q: InputKey| #[trigger] buffer_map(nb).contains_key(q) == expect.contains_key(q) && (
            buffer_map(nb).contains_key(q) ==> buffer_map(nb)[q] == expect[q]) by {
                if exists|j: int| 0 <= j < nb.len() && key_of(nb[j]) == q {
                    let j = choose|j: int| 0 <= j < nb.len() && key_of(nb[j]) == q;
                    assert(nb[j] == old_buf[src[j]]);
                    lemma_buffer_at(nb, j);
                    lemma_buffer_at(old_buf, src[j]);
                }
                if exists|t: int| 0 <= t < old_buf.len() && key_of(old_buf[t]) == q {
                    let t = choose|t: int| 0 <= t < old_buf.len() && key_of(old_buf[t]) == q;
                    if !(q.0 == node@ && q.1 == round) {
                        let j = choose|j: int| 0 <= j < src.len() && #[trigger] src[j] == t;
                        assert(nb[j] == old_buf[t]);
                    }
                }
            }
            assert(buffer_map(nb) =~= expect);
        }
        self.buffer = kept;
    }
}

/// A copy of a list of input messages.
fn copy_inputs(v: &Vec<PortMsg>) -> (r: Vec<PortMsg>)
    ensures
        r@ == v@,
{
    let mut out: Vec<PortMsg> = Vec::new();
    let mut i: usize = 0;
    while i < v.len()
        invariant
            0 <= i <= v.len(),
            out@ == v@.subrange(0, i as int),
        decreases v.len() - i,
    {
        out.push(v[i].clone());
        assert(out@ =~= v@.subrange(0, i + 1));
        i = i + 1;
    }
    assert(out@ =~= v@);
    out
}

impl Activation {
    /// A copy of this activation.
    pub fn duplicate(&self) -> (r: Self)
        ensures
            flight_of(r) == flight_of(*self),
    {
        Activation {
            id: self.id,
            node_id: self.node_id.clone(),
            round: self.round,
            inputs: copy_inputs(&self.inputs),
        }
    }

    /// The activation as a checkpoint snapshot (its identifier dropped).
    pub fn snapshot(&self) -> (r: ActivationSnapshot)
        ensures
            r.node_id == self.node_id,
            r.round == self.round,
            r.inputs@ == self.inputs@,
    {
        ActivationSnapshot {
            node_id: self.node_id.clone(),
            round: self.round,
            inputs: copy_inputs(&self.inputs),
        }
    }
}

impl RunState {
    /// Whether node `nodes[i]` is ready in `round`.
    fn ready_at(&self, i: usize, node: &String, round: u32) -> (r: bool)
        requires
            i < self.nodes@.len(),
        ensures
            r == is_ready(self.model().buffered, node@, round, self.nodes@[i as int].ports),
    {
        let reqs = self.nodes[i].ports.required_inputs();
        let ghost rs = reqs@.map_values(|s: String| s@);
        assert(rs == required_names(self.nodes@[i as int].ports.inputs@));
        if reqs.len() == 0 {
            assert(rs.len() == 0);
            return false;
        }
        let mut j: usize = 0;
        while j < reqs.len()
            invariant
                0 <= j <= reqs.len(),
                i < self.nodes@.len(),
                rs == reqs@.map_values(|s: String| s@),
                rs == required_names(self.nodes@[i as int].ports.inputs@),
                rs.len() > 0,
                forall|t: int| 0 <= t < j ==> #[trigger] self.model().buffered.contains_key((node@, round, rs[t])),
            decreases reqs.len() - j,
        {
            if self.buffer_index(node, round, &reqs[j]).is_none() {
                assert(!self.model().buffered.contains_key((node@, round, rs[j as int])));
                return false;
            }
            j = j + 1;
        }
        true
    }

    /// The joined inputs of node `nodes[i]` in `round`.
    fn join_inputs(&self, i: usize, node: &String, round: u32) -> (r: Vec<PortMsg>)
        requires
            i < self.nodes@.len(),
        ensures
            r@ == joined(self.model().buffered, node@, round, self.nodes@[i as int].ports.inputs@),
    {
        let ins = &self.nodes[i].ports.inputs;
        let mut out: Vec<PortMsg> = Vec::new();
        let mut j: usize = 0;
        while j < ins.len()
            invariant
                0 <= j <= ins@.len(),
                ins@ == self.nodes@[i as int].ports.inputs@,
                out@ == joined(self.model().buffered, node@, round, ins@.subrange(0, j as int)),
            decreases ins@.len() - j,
        {
            assert(ins@.subrange(0, j + 1).drop_last() =~= ins@.subrange(0, j as int));
            match self.buffer_index(node, round, &ins[j].name) {
                Some(k) => {
                    out.push(PortMsg { port: ins[j].name.clone(), artifact: self.buffer[k].artifact.clone() });
                },
                None => {},
            }
            j = j + 1;
        }
        assert(ins@.subrange(0, ins@.len() as int) =~= ins@);
        out
    }

    /// Record `a` as outstanding.
    fn add_flight(&mut self, a: Activation)
        requires
            a.round >= old(self).model().round,
        ensures
            final(self).model() == (CoreModel {
                flight: old(self).model().flight.push(flight_of(a)),
                ..old(self).model()
            }),
            final(self).nodes() == old(self).nodes(),
            final(self).edges() == old(self).edges(),
    {
        proof {
            use_type_invariant(&*self);
        }
        let mut fl = Vec::new();
        std::mem::swap(&mut fl, &mut self.in_flight);
        let ghost pre = fl@;
        fl.push(a);
        proof {
            assert(fl@.map_values(|x: Activation| flight_of(x)) =~= pre.map_values(|x: Activation| flight_of(x)).push(
                flight_of(a),
            ));
            assert forall|t: int| 0 <= t < fl@.len() implies #[trigger] fl@[t].round >= self.round by {
                if t < pre.len() {
                    assert(fl@[t] == pre[t]);
                }
            }
        }
        self.in_flight = fl;
    }

    /// Buffer `artifact` for `node`'s `port` in `round`; when the node is
    /// then ready, dispatch it with its joined inputs.
    fn deliver(&mut self, node: &String, port: &String, artifact: Artifact, round: u32) -> (r: Result<
        Option<Activation>,
        SchedulerError,
    >)
        requires
            round >= old(self).model().round,
        ensures
            final(self).nodes() == old(self).nodes(),
            final(self).edges() == old(self).edges(),
            match deliver_step(old(self).nodes(), old(self).model(), *node, port@, artifact, round) {
                None => (r matches Err(SchedulerError::NodeNotFound(n)) && n@ == node@) && final(self).model()
                    == failed_delivery(old(self).model(), node@, port@, artifact, round),
                Some((m, f)) => r matches Ok(o) && final(self).model() == m && match (o, f) {
                    (Some(a), Some(g)) => flight_of(a) == g,
                    (None, None) => true,
                    _ => false,
                },
            },
    {
        let found = self.node_index(node);
        self.put_input(node.clone(), round, port.clone(), artifact);
        let i = match found {
            None => {
                return Err(SchedulerError::NodeNotFound(node.clone()));
            },
            Some(i) => i,
        };
        if !self.ready_at(i, node, round) {
            return Ok(None);
        }
        let inputs = self.join_inputs(i, node, round);
        self.take_bucket(node, round);
        proof {
            use_type_invariant(&*self);
        }
        let id = self.next_id;
        self.next_id = self.next_id.saturating_add(1);
        let act = Activation { id, node_id: node.clone(), round, inputs };
        let copy = act.duplicate();
        self.add_flight(copy);
        Ok(Some(act))
    }
}

impl RunState {
    /// Buffer a checkpointed input again: as `deliver` in the current round
    /// or a later one; an input of an earlier round goes back into its bucket
    /// and is refused when it completes that bucket.
    fn rebuffer(&mut self, node: &String, port: &String, artifact: Artifact, round: u32) -> (r: Result<
        Option<Activation>,
        SchedulerError,
    >)
        ensures
            final(self).nodes() == old(self).nodes(),
            final(self).edges() == old(self).edges(),
            match rebuffer_step(old(self).nodes(), old(self).model(), *node, port@, artifact, round) {
                None => r matches Err(e) && refusal_error(e, missing_node(old(self).nodes(), node@)),
                Some((m, f)) => r matches Ok(o) && final(self).model() == m && match (o, f) {
                    (Some(a), Some(g)) => flight_of(a) == g,
                    (None, None) => true,
                    _ => false,
                },
            },
    {
        if round >= self.round {
            return self.deliver(node, port, artifact, round);
        }
        let i = match self.node_index(node) {
            None => {
                return Err(SchedulerError::NodeNotFound(node.clone()));
            },
            Some(i) => i,
        };
        self.put_input(node.clone(), round, port.clone(), artifact);
        if self.ready_at(i, node, round) {
            return Err(SchedulerError::CheckpointMismatch);
        }
        Ok(None)
    }
}

impl RunState {
    /// Whether an edge leaves `from` on port `port`.
    fn has_route(&self, from: &String, port: &String) -> (r: bool)
        ensures
            r == routes(self.edges(), from@, port@),
    {
        let mut i: usize = 0;
        while i < self.edges.len()
            invariant
                0 <= i <= self.edges@.len(),
                forall|j: int| 0 <= j < i ==> !(#[trigger] self.edges@[j].from_node@ == from@ && self.edges@[j].from_port@ == port@),
            decreases self.edges@.len() - i,
        {
            if self.edges[i].from_node == *from && self.edges[i].from_port == *port {
                assert(self.edges@[i as int].from_node@ == from@);
                return true;
            }
            i = i + 1;
        }
        false
    }

    /// Record a terminal output.
    fn push_output(&mut self, o: RunOutput)
        ensures
            final(self).model() == (CoreModel { outputs: old(self).model().outputs.push(o), ..old(self).model() }),
            final(self).nodes() == old(self).nodes(),
            final(self).edges() == old(self).edges(),
    {
        proof {
            use_type_invariant(&*self);
        }
        let mut outs = Vec::new();
        std::mem::swap(&mut outs, &mut self.outputs);
        outs.push(o);
        self.outputs = outs;
    }

    /// Route one emission of `from` in `round` along the run's edges,
    /// collecting the activations it dispatches into `out`.
    fn route_emit(&mut self, from: &String, emit: &Emit, round: u32, out: &mut Vec<Activation>) -> (r: Result<
        (),
        SchedulerError,
    >)
        requires
            old(self).model().round <= round < u32::MAX,
        ensures
            final(self).nodes() == old(self).nodes(),
            final(self).edges() == old(self).edges(),
            match route_prefix(
                old(self).nodes(),
                old(self).edges(),
                old(self).model(),
                from@,
                emit.port@,
                emit.artifact,
                round,
                old(self).edges().len() as int,
            ) {
                None => r matches Err(SchedulerError::NodeNotFound(n)) && n@ == route_missing(
                    old(self).nodes(),
                    old(self).edges(),
                    old(self).model(),
                    from@,
                    emit.port@,
                    emit.artifact,
                    round,
                    old(self).edges().len() as int,
                ) && final(self).model() == route_failure_model(
                    old(self).nodes(),
                    old(self).edges(),
                    old(self).model(),
                    from@,
                    emit.port@,
                    emit.artifact,
                    round,
                    old(self).edges().len() as int,
                ),
                Some((m, fs)) => r is Ok && final(self).model() == m && final(self).model().round == old(
                    self,
                ).model().round && flights_of(final(out)@) == flights_of(old(out)@) + fs,
            },
    {
        let ghost n0 = self.nodes();
        let ghost e0 = self.edges();
        let ghost m0 = self.model();
        let ghost o0 = out@;
        let ghost mut fs: Seq<Flight> = Seq::empty();
        assert(flights_of(o0) + fs =~= flights_of(o0));
        let mut i: usize = 0;
        while i < self.edges.len()
            invariant
                0 <= i <= self.edges@.len(),
                self.nodes() == n0,
                self.edges() == e0,
                n0 == old(self).nodes(),
                e0 == old(self).edges(),
                m0 == old(self).model(),
                o0 == old(out)@,
                self.model().round == m0.round,
                m0.round <= round < u32::MAX,
                route_prefix(n0, e0, m0, from@, emit.port@, emit.artifact, round, i as int) == Some(
                    (self.model(), fs),
                ),
                flights_of(out@) == flights_of(o0) + fs,
            decreases self.edges@.len() - i,
        {
            if self.edges[i].from_node == *from && self.edges[i].from_port == emit.port {
                let to_node = self.edges[i].to_node.clone();
                let to_port = self.edges[i].to_port.clone();
                let target = if self.edges[i].feedback {
                    round + 1
                } else {
                    round
                };
                assert(target == target_round(e0[i as int], round));
                let res = self.deliver(&to_node, &to_port, emit.artifact.clone(), target);
                match res {
                    Err(e) => {
                        proof {
                            lemma_route_none(n0, e0, m0, from@, emit.port@, emit.artifact, round, i + 1, e0.len() as int);
                        }
                        return Err(e);
                    },
                    Ok(Some(a)) => {
                        let ghost fa = flight_of(a);
                        let ghost before = out@;
                        out.push(a);
                        proof {
                            assert(flights_of(out@) =~= flights_of(before).push(fa));
                            assert(flights_of(o0) + fs.push(fa) =~= (flights_of(o0) + fs).push(fa));
                            fs = fs.push(fa);
                        }
                    },
                    Ok(None) => {},
                }
            }
            i = i + 1;
        }
        Ok(())
    }

    /// The position of the first outstanding activation with identifier `id`.
    fn flight_index(&self, id: u64) -> (r: usize)
        requires
            exists|k: int| first_with_id(self.model().flight, id, k),
        ensures
            first_with_id(self.model().flight, id, r as int),
    {
        let ghost fl = self.model().flight;
        let mut i: usize = 0;
        while i < self.in_flight.len()
            invariant
                0 <= i <= self.in_flight@.len(),
                fl == flights_of(self.in_flight@),
                exists|k: int| first_with_id(fl, id, k),
                forall|j: int| 0 <= j < i ==> (#[trigger] fl[j]).id != id,
            decreases self.in_flight@.len() - i,
        {
            assert(fl[i as int] == flight_of(self.in_flight@[i as int]));
            if self.in_flight[i].id == id {
                return i;
            }
            i = i + 1;
        }
        proof {
            let k = choose|k: int| first_with_id(fl, id, k);
            assert(fl[k].id != id);
        }
        0
    }

    /// Take the outstanding activation at position `k`.
    fn remove_flight(&mut self, k: usize) -> (r: Activation)
        requires
            k < old(self).model().flight.len(),
        ensures
            flight_of(r) == old(self).model().flight[k as int],
            r.round >= old(self).model().round,
            final(self).model() == (CoreModel {
                flight: old(self).model().flight.remove(k as int),
                ..old(self).model()
            }),
            final(self).nodes() == old(self).nodes(),
            final(self).edges() == old(self).edges(),
    {
        proof {
            use_type_invariant(&*self);
        }
        let mut fl = Vec::new();
        std::mem::swap(&mut fl, &mut self.in_flight);
        let ghost pre = fl@;
        let a = fl.remove(k);
        proof {
            assert(flights_of(fl@) =~= flights_of(pre).remove(k as int));
            assert(flights_of(pre)[k as int] == flight_of(pre[k as int]));
            assert forall|t: int| 0 <= t < fl@.len() implies #[trigger] fl@[t].round >= self.round by {
                if t < k {
                    assert(fl@[t] == pre[t]);
                } else {
                    assert(fl@[t] == pre[t + 1]);
                }
            }
        }
        self.in_flight = fl;
        a
    }

    /// Advance the current round to the earliest one with outstanding work.
    fn advance(&mut self)
        ensures
            final(self).model() == (CoreModel {
                round: advanced_round(old(self).model().flight, old(self).model().round),
                ..old(self).model()
            }),
            final(self).model().round >= old(self).model().round,
            final(self).nodes() == old(self).nodes(),
            final(self).edges() == old(self).edges(),
    {
        proof {
            use_type_invariant(&*self);
        }
        if self.in_flight.len() == 0 {
            return;
        }
        let ghost fl = flights_of(self.in_flight@);
        let mut mr = self.in_flight[0].round;
        proof {
            assert(fl.subrange(0, 1) =~= seq![fl[0]]);
        }
        let mut j: usize = 1;
        while j < self.in_flight.len()
            invariant
                1 <= j <= self.in_flight@.len(),
                fl == flights_of(self.in_flight@),
                mr == min_round(fl.subrange(0, j as int)),
            decreases self.in_flight@.len() - j,
        {
            proof {
                assert(fl.subrange(0, j + 1).drop_last() =~= fl.subrange(0, j as int));
                assert(fl[j as int] == flight_of(self.in_flight@[j as int]));
            }
            if self.in_flight[j].round < mr {
                mr = self.in_flight[j].round;
            }
            j = j + 1;
        }
        proof {
            assert(fl.subrange(0, fl.len() as int) =~= fl);
            assert(mr == min_round(fl));
            lemma_min_round(fl);
            let w = choose|w: int| 0 <= w < fl.len() && fl[w].round == min_round(fl);
            assert(fl[w] == flight_of(self.in_flight@[w]));
            assert(self.in_flight@[w].round >= self.round);
            assert forall|t: int| 0 <= t < self.in_flight@.len() implies #[trigger] self.in_flight@[t].round >= mr by {
                assert(fl[t] == flight_of(self.in_flight@[t]));
                assert(min_round(fl) <= fl[t].round);
            }
        }
        self.round = mr;
    }
}

impl RunState {
    /// A fresh run over `nodes` and `edges`, in round zero.
    pub fn new(nodes: Vec<NodePorts>, edges: Vec<Edge>) -> (r: Self)
        ensures
            r.model() == initial_model(0, Seq::empty()),
            r.nodes() == nodes@,
            r.edges() == edges@,
            settled(r.nodes(), r.model()),
    {
        let r = RunState {
            nodes,
            edges,
            buffer: Vec::new(),
            in_flight: Vec::new(),
            next_id: 0,
            round: 0,
            outputs: Vec::new(),
        };
        assert(buffer_map(r.buffer@) =~= Map::empty());
        assert(flights_of(r.in_flight@) =~= Seq::empty());
        r
    }

    /// The current round.
    pub fn current_round(&self) -> (r: u32)
        ensures
            r == self.model().round,
    {
        self.round
    }

    /// The number of outstanding activations.
    pub fn outstanding(&self) -> (r: usize)
        ensures
            r == self.model().flight.len(),
    {
        self.in_flight.len()
    }

    /// The round of the outstanding activation `id`, if there is one.
    pub fn outstanding_round(&self, id: u64) -> (r: Option<u32>)
        ensures
            match r {
                Some(rd) => exists|k: int| first_with_id(self.model().flight, id, k) && self.model().flight[k].round == rd,
                None => !exists|k: int| first_with_id(self.model().flight, id, k),
            },
    {
        let ghost fl = self.model().flight;
        let mut i: usize = 0;
        while i < self.in_flight.len()
            invariant
                0 <= i <= self.in_flight@.len(),
                fl == flights_of(self.in_flight@),
                forall|j: int| 0 <= j < i ==> (#[trigger] fl[j]).id != id,
            decreases self.in_flight@.len() - i,
        {
            assert(fl[i as int] == flight_of(self.in_flight@[i as int]));
            if self.in_flight[i].id == id {
                assert(first_with_id(fl, id, i as int));
                assert(self.model().flight[i as int].round == self.in_flight@[i as int].round);
                return Some(self.in_flight[i].round);
            }
            i = i + 1;
        }
        None
    }

    /// The terminal outputs recorded so far.
    pub fn outputs(&self) -> (r: Vec<RunOutput>)
        ensures
            r@ == self.model().outputs,
    {
        let mut out: Vec<RunOutput> = Vec::new();
        let mut i: usize = 0;
        while i < self.outputs.len()
            invariant
                0 <= i <= self.outputs@.len(),
                out@ == self.outputs@.subrange(0, i as int),
            decreases self.outputs@.len() - i,
        {
            out.push(self.outputs[i].clone());
            assert(out@ =~= self.outputs@.subrange(0, i + 1));
            i = i + 1;
        }
        assert(out@ =~= self.outputs@);
        out
    }

    /// The buffered inputs, each key once.
    pub fn pending_inputs(&self) -> (r: Vec<PendingInput>)
        ensures
            keys_unique(r@),
            buffer_map(r@) == self.model().buffered,
    {
        proof {
            use_type_invariant(self);
        }
        let mut out: Vec<PendingInput> = Vec::new();
        let mut i: usize = 0;
        while i < self.buffer.len()
            invariant
                0 <= i <= self.buffer@.len(),
                out@ == self.buffer@.subrange(0, i as int),
            decreases self.buffer@.len() - i,
        {
            out.push(self.buffer[i].clone());
            assert(out@ =~= self.buffer@.subrange(0, i + 1));
            i = i + 1;
        }
        assert(out@ =~= self.buffer@);
        out
    }

    /// Snapshots of the outstanding activations, in dispatch order.
    pub fn ready_snapshots(&self) -> (r: Vec<ActivationSnapshot>)
        ensures
            r@.len() == self.model().flight.len(),
            forall|i: int| 0 <= i < r@.len() ==> snapshot_of(#[trigger] r@[i], self.model().flight[i]),
    {
        let ghost fl = self.model().flight;
        let mut out: Vec<ActivationSnapshot> = Vec::new();
        let mut i: usize = 0;
        while i < self.in_flight.len()
            invariant
                0 <= i <= self.in_flight@.len(),
                fl == flights_of(self.in_flight@),
                out@.len() == i,
                forall|j: int| 0 <= j < i ==> snapshot_of(#[trigger] out@[j], fl[j]),
            decreases self.in_flight@.len() - i,
        {
            assert(fl[i as int] == flight_of(self.in_flight@[i as int]));
            out.push(self.in_flight[i].snapshot());
            i = i + 1;
        }
        out
    }

    /// How many activations are outstanding in each round.
    pub fn round_pending(&self) -> (r: Vec<(u32, usize)>)
        ensures
            pending_counts(self.model().flight, r@),
    {
        let ghost fl = self.model().flight;
        let mut out: Vec<(u32, usize)> = Vec::new();
        let mut i: usize = 0;
        while i < self.in_flight.len()
            invariant
                0 <= i <= self.in_flight@.len(),
                fl == flights_of(self.in_flight@),
                out@.len() <= i,
                pending_counts(fl.subrange(0, i as int), out@),
            decreases self.in_flight@.len() - i,
        {
            let rd = self.in_flight[i].round;
            let ghost pre = fl.subrange(0, i as int);
            let ghost cur = fl.subrange(0, i + 1);
            let ghost old_out = out@;
            proof {
                assert(cur.drop_last() =~= pre);
                assert(fl[i as int] == flight_of(self.in_flight@[i as int]));
                assert(cur.last().round == rd);
                assert forall|q: u32| #[trigger] count_round(cur, q) == count_round(pre, q) + if q == rd {
                    1nat
                } else {
                    0nat
                } by {}
            }
            let mut k: usize = 0;
            while k < out.len()
                invariant
                    0 <= k <= out@.len(),
                    forall|t: int| 0 <= t < k ==> (#[trigger] out@[t]).0 != rd,
                ensures
                    0 <= k <= out@.len(),
                    forall|t: int| 0 <= t < k ==> (#[trigger] out@[t]).0 != rd,
                    k < out@.len() ==> out@[k as int].0 == rd,
                decreases out@.len() - k,
            {
                if out[k].0 == rd {
                    break;
                }
                k = k + 1;
            }
            if k < out.len() {
                let c = out[k].1;
                assert(c == count_round(pre, rd));
                assert(count_round(pre, rd) <= pre.len()) by {
                    lemma_count_le(pre, rd);
                }
                out.set(k, (rd, c + 1));
                proof {
                    assert forall|a: int, b: int| 0 <= a < b < out@.len() implies out@[a].0 != out@[b].0 by {
                        assert(out@[a].0 == old_out[a].0);
                        assert(out@[b].0 == old_out[b].0);
                    }
                    assert forall|a: int| 0 <= a < out@.len() implies out@[a].1 == count_round(cur, out@[a].0)
                        && out@[a].1 > 0 by {
                        if a != k {
                            assert(out@[a] == old_out[a]);
                            assert(count_round(cur, out@[a].0) == count_round(pre, out@[a].0));
                        }
                    }
                    assert forall|j: int| 0 <= j < cur.len() implies exists|a: int|
                        0 <= a < out@.len() && out@[a].0 == (#[trigger] cur[j]).round by {
                        if j < i {
                            assert(cur[j] == pre[j]);
                            let a = choose|a: int| 0 <= a < old_out.len() && old_out[a].0 == pre[j].round;
                            assert(out@[a].0 == old_out[a].0);
                        } else {
                            assert(out@[k as int].0 == cur[j].round);
                        }
                    }
                }
            } else {
                out.push((rd, 1));
                proof {
                    assert(count_round(pre, rd) == 0) by {
                        if count_round(pre, rd) > 0 {
                            lemma_count_pos(pre, rd);
                            let j = choose|j: int| 0 <= j < pre.len() && pre[j].round == rd;
                            let a = choose|a: int| 0 <= a < old_out.len() && old_out[a].0 == (#[trigger] pre[j]).round;
                            assert(old_out[a].0 != rd);
                        }
                    }
                    assert forall|a: int, b: int| 0 <= a < b < out@.len() implies out@[a].0 != out@[b].0 by {
                        assert(out@[a] == old_out[a]);
                        if b < old_out.len() {
                            assert(out@[b] == old_out[b]);
                        }
                    }
                    assert forall|a: int| 0 <= a < out@.len() implies out@[a].1 == count_round(cur, out@[a].0)
                        && out@[a].1 > 0 by {
                        if a < old_out.len() {
                            assert(out@[a] == old_out[a]);
                            assert(count_round(cur, out@[a].0) == count_round(pre, out@[a].0));
                        }
                    }
                    assert forall|j: int| 0 <= j < cur.len() implies exists|a: int|
                        0 <= a < out@.len() && out@[a].0 == (#[trigger] cur[j]).round by {
                        if j < i {
                            assert(cur[j] == pre[j]);
                            let a = choose|a: int| 0 <= a < old_out.len() && old_out[a].0 == pre[j].round;
                            assert(out@[a].0 == old_out[a].0);
                        } else {
                            assert(out@[old_out.len() as int].0 == cur[j].round);
                        }
                    }
                }
            }
            i = i + 1;
        }
        assert(fl.subrange(0, fl.len() as int) =~= fl);
        out
    }
}

/// A round's count never exceeds the number of activations.
proof fn lemma_count_le(fl: Seq<Flight>, r: u32)
    ensures
        count_round(fl, r) <= fl.len(),
    decreases fl.len(),
{
    if fl.len() > 0 {
        lemma_count_le(fl.drop_last(), r);
    }
}

/// A round with a positive count has an activation.
proof fn lemma_count_pos(fl: Seq<Flight>, r: u32)
    requires
        count_round(fl, r) > 0,
    ensures
        exists|j: int| 0 <= j < fl.len() && fl[j].round == r,
    decreases fl.len(),
{
    if fl.last().round != r {
        lemma_count_pos(fl.drop_last(), r);
        let j = choose|j: int| 0 <= j < fl.drop_last().len() && fl.drop_last()[j].round == r;
        assert(fl[j] == fl.drop_last()[j]);
    } else {
        assert(fl[fl.len() - 1].round == r);
    }
}

impl RunState {
    /// Inject `artifact` into the first declared input port of `node` in
    /// the current round; the node fires when that completes its required
    /// inputs. A node that is not part of the run is skipped.
    pub fn inject(&mut self, node: &String, artifact: Artifact) -> (r: Option<Activation>)
        ensures
            final(self).nodes() == old(self).nodes(),
            final(self).edges() == old(self).edges(),
            ({
                let (m, f) = inject_step(old(self).nodes(), old(self).model(), *node, artifact);
                &&& final(self).model() == m
                &&& match (r, f) {
                    (Some(a), Some(g)) => flight_of(a) == g,
                    (None, None) => true,
                    _ => false,
                }
            }),
            settled(old(self).nodes(), old(self).model()) ==> settled(final(self).nodes(), final(self).model()),
    {
        proof {
            if settled(self.nodes(), self.model()) {
                lemma_inject_settled(self.nodes(), self.model(), *node, artifact);
            }
        }
        let i = match self.node_index(node) {
            None => {
                return None;
            },
            Some(i) => i,
        };
        let port = if self.nodes[i].ports.inputs.len() > 0 {
            self.nodes[i].ports.inputs[0].name.clone()
        } else {
            String::new()
        };
        assert(port@ == first_input(self.nodes@[i as int].ports));
        let round = self.round;
        match self.deliver(node, &port, artifact, round) {
            Ok(a) => a,
            Err(_) => None,
        }
    }

    /// Complete the outstanding activation `id` with its emissions: it is no
    /// longer outstanding; each emission on a port without outbound edges is
    /// recorded as a terminal output, and each is delivered along the edges
    /// that leave its port (feedback edges into the next round); then the
    /// current round advances to the earliest one with outstanding work.
    /// Returns the activations that became ready, in dispatch order, or
    /// `NodeNotFound` of the first target outside the run that an emission
    /// is routed to; the work done before that failure stays done, and the
    /// artifact sent to the missing node stays buffered for it.
    pub fn complete(&mut self, id: u64, emits: Vec<Emit>) -> (r: Result<Vec<Activation>, SchedulerError>)
        requires
            exists|k: int| first_with_id(old(self).model().flight, id, k),
            forall|k: int|
                first_with_id(old(self).model().flight, id, k) ==> old(self).model().flight[k].round < u32::MAX,
        ensures
            final(self).nodes() == old(self).nodes(),
            final(self).edges() == old(self).edges(),
            r is Ok ==> final(self).model().round >= old(self).model().round,
            r is Ok && settled(old(self).nodes(), old(self).model()) ==> settled(
                final(self).nodes(),
                final(self).model(),
            ),
            forall|k: int|
                first_with_id(old(self).model().flight, id, k) ==> match complete_step(
                    old(self).nodes(),
                    old(self).edges(),
                    old(self).model(),
                    k,
                    old(self).model().flight[k].node,
                    emits@,
                ) {
                    None => r matches Err(SchedulerError::NodeNotFound(n)) && n@ == complete_missing(
                        old(self).nodes(),
                        old(self).edges(),
                        old(self).model(),
                        k,
                        old(self).model().flight[k].node,
                        emits@,
                    ) && final(self).model() == complete_failure_model(
                        old(self).nodes(),
                        old(self).edges(),
                        old(self).model(),
                        k,
                        old(self).model().flight[k].node,
                        emits@,
                    ),
                    Some((m, fs)) => r matches Ok(v) && final(self).model() == m && flights_of(v@) == fs,
                },
    {
        let ghost mstart = self.model();
        let k = self.flight_index(id);
        proof {
            assert forall|k2: int| first_with_id(mstart.flight, id, k2) implies k2 == k by {
                if k2 < k {
                } else if k2 > k {
                }
            }
        }
        let act = self.remove_flight(k);
        let ghost n0 = self.nodes();
        let ghost e0 = self.edges();
        let ghost m0 = self.model();
        let from = act.node_id;
        let round = act.round;
        let mut out: Vec<Activation> = Vec::new();
        let ghost mut fs: Seq<Flight> = Seq::empty();
        assert(emits@.subrange(0, 0) =~= Seq::<Emit>::empty());
        let mut j: usize = 0;
        while j < emits.len()
            invariant
                0 <= j <= emits@.len(),
                n0 == old(self).nodes(),
                e0 == old(self).edges(),
                mstart == old(self).model(),
                m0 == (CoreModel { flight: mstart.flight.remove(k as int), ..mstart }),
                0 <= k < mstart.flight.len(),
                from == mstart.flight[k as int].node,
                round == mstart.flight[k as int].round,
                forall|k2: int| first_with_id(mstart.flight, id, k2) ==> k2 == k,
                self.nodes() == n0,
                self.edges() == e0,
                self.model().round == m0.round,
                m0.round <= round < u32::MAX,
                emits_step(n0, e0, m0, from, round, emits@.subrange(0, j as int)) == Some((self.model(), fs)),
                flights_of(out@) == fs,
            decreases emits@.len() - j,
        {
            let e = &emits[j];
            proof {
                assert(emits@.subrange(0, j + 1).drop_last() =~= emits@.subrange(0, j as int));
                assert(emits@.subrange(0, j + 1).last() == emits@[j as int]);
            }
            if !self.has_route(&from, &e.port) {
                self.push_output(
                    RunOutput { node_id: from.clone(), port: e.port.clone(), round, artifact: e.artifact.clone() },
                );
            }
            let ghost before = out@;
            match self.route_emit(&from, e, round, &mut out) {
                Err(x) => {
                    proof {
                        lemma_emits_none(n0, e0, m0, from, round, emits@, j + 1);
                    }
                    return Err(x);
                },
                Ok(()) => {},
            }
            proof {
                let gs = flights_of(out@).subrange(before.len() as int, out@.len() as int);
                assert(flights_of(out@) =~= flights_of(before) + gs);
                fs = fs + gs;
            }
            j = j + 1;
        }
        assert(emits@.subrange(0, emits@.len() as int) =~= emits@);
        self.advance();
        proof {
            if settled(n0, mstart) {
                lemma_complete_settled(n0, e0, mstart, k as int, emits@);
            }
        }
        Ok(out)
    }
}

impl RunState {
    /// Dispatch the checkpointed activation `s` under a fresh identifier.
    fn spawn_snapshot(&mut self, s: &ActivationSnapshot) -> (r: Result<Activation, SchedulerError>)
        ensures
            final(self).nodes() == old(self).nodes(),
            final(self).edges() == old(self).edges(),
            (ports_of(old(self).nodes(), s.node_id@) is None || s.round < old(self).model().round) ==> (r matches Err(
                e,
            ) && refusal_error(e, missing_node(old(self).nodes(), s.node_id@))) && final(self).model() == old(
                self,
            ).model(),
            (ports_of(old(self).nodes(), s.node_id@) is Some && s.round >= old(self).model().round) ==> ({
                let f = Flight {
                    id: old(self).model().next_id,
                    node: s.node_id,
                    round: s.round,
                    inputs: s.inputs@,
                };
                &&& r matches Ok(a)
                &&& flight_of(a) == f
                &&& final(self).model() == (CoreModel {
                    flight: old(self).model().flight.push(f),
                    next_id: next_id_after(old(self).model().next_id),
                    ..old(self).model()
                })
            }),
    {
        if self.node_index(&s.node_id).is_none() {
            return Err(SchedulerError::NodeNotFound(s.node_id.clone()));
        }
        if s.round < self.round {
            return Err(SchedulerError::CheckpointMismatch);
        }
        proof {
            use_type_invariant(&*self);
        }
        let id = self.next_id;
        self.next_id = self.next_id.saturating_add(1);
        let act = Activation { id, node_id: s.node_id.clone(), round: s.round, inputs: copy_inputs(&s.inputs) };
        let copy = act.duplicate();
        self.add_flight(copy);
        Ok(act)
    }

    /// Resume a run from a checkpoint taken in `round`: its outputs are kept,
    /// its buffered inputs are delivered again in order (firing the nodes
    /// they complete; an input of an earlier round only refills its bucket),
    /// and its ready activations are dispatched again under fresh
    /// identifiers. Returns the state and every activation dispatched. The
    /// first item that cannot be taken back is refused: with `NodeNotFound`
    /// when it names a node outside the run, else with `CheckpointMismatch`,
    /// which is what an input of a round before `round` that completes its
    /// bucket, and a ready activation of such a round, are refused with (no
    /// work may lie behind the current round).
    pub fn restore(
        nodes: Vec<NodePorts>,
        edges: Vec<Edge>,
        round: u32,
        pending: Vec<PendingInput>,
        ready: Vec<ActivationSnapshot>,
        outputs: Vec<RunOutput>,
    ) -> (r: Result<(RunState, Vec<Activation>), SchedulerError>)
        ensures
            match restore_step(nodes@, round, pending@, ready@, outputs@) {
                None => r matches Err(e) && refusal_error(e, restore_refusal(nodes@, round, pending@, ready@, outputs@)),
                Some((m, fs)) => r matches Ok((st, v)) && st.model() == m && st.nodes() == nodes@
                    && st.edges() == edges@ && flights_of(v@) == fs,
            },
            r matches Ok((st, _)) ==> settled(st.nodes(), st.model()),
    {
        let ghost n0 = nodes@;
        let ghost e0 = edges@;
        let ghost m0 = initial_model(round, outputs@);
        let mut st = RunState {
            nodes,
            edges,
            buffer: Vec::new(),
            in_flight: Vec::new(),
            next_id: 0,
            round,
            outputs,
        };
        assert(buffer_map(st.buffer@) =~= Map::empty());
        assert(flights_of(st.in_flight@) =~= Seq::empty());
        assert(st.model() == m0);
        let mut out: Vec<Activation> = Vec::new();
        let ghost mut fs: Seq<Flight> = Seq::empty();
        assert(pending@.subrange(0, 0) =~= Seq::<PendingInput>::empty());
        let mut i: usize = 0;
        while i < pending.len()
            invariant
                0 <= i <= pending@.len(),
                n0 == nodes@,
                m0 == initial_model(round, outputs@),
                st.nodes() == n0,
                st.edges() == e0,
                st.model().round == round,
                redeliver(n0, m0, pending@.subrange(0, i as int)) == Some((st.model(), fs)),
                flights_of(out@) == fs,
            decreases pending@.len() - i,
        {
            let p = &pending[i];
            proof {
                assert(pending@.subrange(0, i + 1).drop_last() =~= pending@.subrange(0, i as int));
                assert(pending@.subrange(0, i + 1).last() == pending@[i as int]);
            }
            match st.rebuffer(&p.node_id, &p.port, p.artifact.clone(), p.round) {
                Err(e) => {
                    proof {
                        lemma_redeliver_none(n0, m0, pending@, i + 1);
                    }
                    return Err(e);
                },
                Ok(Some(a)) => {
                    let ghost fa = flight_of(a);
                    let ghost before = out@;
                    out.push(a);
                    proof {
                        assert(flights_of(out@) =~= flights_of(before).push(fa));
                        fs = fs.push(fa);
                    }
                },
                Ok(None) => {},
            }
            i = i + 1;
        }
        assert(pending@.subrange(0, pending@.len() as int) =~= pending@);
        let ghost m1 = st.model();
        let ghost fs1 = fs;
        let ghost mut gs: Seq<Flight> = Seq::empty();
        assert(ready@.subrange(0, 0) =~= Seq::<ActivationSnapshot>::empty());
        let mut j: usize = 0;
        while j < ready.len()
            invariant
                0 <= j <= ready@.len(),
                n0 == nodes@,
                m0 == initial_model(round, outputs@),
                redeliver(n0, m0, pending@) == Some((m1, fs1)),
                st.nodes() == n0,
                st.edges() == e0,
                st.model().round == round,
                respawn(n0, m1, ready@.subrange(0, j as int)) == Some((st.model(), gs)),
                flights_of(out@) == fs1 + gs,
            decreases ready@.len() - j,
        {
            let sn = &ready[j];
            proof {
                assert(ready@.subrange(0, j + 1).drop_last() =~= ready@.subrange(0, j as int));
                assert(ready@.subrange(0, j + 1).last() == ready@[j as int]);
            }
            match st.spawn_snapshot(sn) {
                Err(e) => {
                    proof {
                        lemma_respawn_none(n0, m1, ready@, j + 1);
                    }
                    return Err(e);
                },
                Ok(a) => {
                    let ghost fa = flight_of(a);
                    let ghost before = out@;
                    out.push(a);
                    proof {
                        assert(flights_of(out@) =~= flights_of(before).push(fa));
                        assert(fs1 + gs.push(fa) =~= (fs1 + gs).push(fa));
                        gs = gs.push(fa);
                    }
                },
            }
            j = j + 1;
        }
        assert(ready@.subrange(0, ready@.len() as int) =~= ready@);
        proof {
            lemma_restore_settled(n0, round, pending@, ready@, outputs@);
        }
        Ok((st, out))
    }
}

proof fn lemma_redeliver_none(nodes: Seq<NodePorts>, m: CoreModel, pending: Seq<PendingInput>, n: int)
    requires
        0 <= n <= pending.len(),
        redeliver(nodes, m, pending.subrange(0, n)) is None,
    ensures
        redeliver(nodes, m, pending) is None,
        redeliver_refusal(nodes, m, pending) == redeliver_refusal(nodes, m, pending.subrange(0, n)),
    decreases pending.len() - n,
{
    if n < pending.len() {
        assert(pending.subrange(0, n + 1).drop_last() =~= pending.subrange(0, n));
        lemma_redeliver_none(nodes, m, pending, n + 1);
    } else {
        assert(pending.subrange(0, n) =~= pending);
    }
}

proof fn lemma_respawn_none(nodes: Seq<NodePorts>, m: CoreModel, ready: Seq<ActivationSnapshot>, n: int)
    requires
        0 <= n <= ready.len(),
        respawn(nodes, m, ready.subrange(0, n)) is None,
    ensures
        respawn(nodes, m, ready) is None,
        respawn_refusal(nodes, m, ready) == respawn_refusal(nodes, m, ready.subrange(0, n)),
    decreases ready.len() - n,
{
    if n < ready.len() {
        assert(ready.subrange(0, n + 1).drop_last() =~= ready.subrange(0, n));
        lemma_respawn_none(nodes, m, ready, n + 1);
    } else {
        assert(ready.subrange(0, n) =~= ready);
    }
}

impl RunState {
    /// The checkpoint of this state for run `run_id`: the current round,
    /// the outstanding work per round, the buffered inputs, the outstanding
    /// activations as ready snapshots, and the outputs so far.
    pub fn checkpoint(
        &self,
        run_id: u128,
        revision: Revision,
        graph_hash: String,
        config_hash: String,
        stats: RunStats,
        reason: CheckpointReason,
    ) -> (c: RunCheckpoint)
        ensures
            c.run_id == run_id,
            c.revision == revision,
            c.graph_hash == graph_hash,
            c.config_hash == config_hash,
            c.stats == stats,
            c.reason == reason,
            c.round == self.model().round,
            pending_counts(self.model().flight, c.round_pending@),
            keys_unique(c.pending_inputs@),
            buffer_map(c.pending_inputs@) == self.model().buffered,
            c.ready_activations@.len() == self.model().flight.len(),
            forall|i: int|
                0 <= i < c.ready_activations@.len() ==> snapshot_of(
                    #[trigger] c.ready_activations@[i],
                    self.model().flight[i],
                ),
            c.outputs@ == self.model().outputs,
    {
        RunCheckpoint {
            run_id,
            revision,
            graph_hash,
            config_hash,
            round: self.round,
            round_pending: self.round_pending(),
            pending_inputs: self.pending_inputs(),
            ready_activations: self.ready_snapshots(),
            stats,
            outputs: self.outputs(),
            reason,
        }
    }
}

/// The total number of outstanding activations over all rounds.
pub fn total_pending(round_pending: &[(u32, usize)]) -> (r: usize)
    requires
        sum_counts(round_pending@) <= usize::MAX,
    ensures
        r == sum_counts(round_pending@),
{
    let mut total: usize = 0;
    let mut i: usize = 0;
    while i < round_pending.len()
        invariant
            0 <= i <= round_pending@.len(),
            sum_counts(round_pending@) <= usize::MAX,
            total == sum_counts(round_pending@.subrange(0, i as int)),
        decreases round_pending@.len() - i,
    {
        proof {
            assert(round_pending@.subrange(0, i + 1).drop_last() =~= round_pending@.subrange(0, i as int));
            lemma_sum_prefix(round_pending@, i + 1);
        }
        total = total + round_pending[i].1;
        i = i + 1;
    }
    assert(round_pending@.subrange(0, round_pending@.len() as int) =~= round_pending@);
    total
}

/// A prefix sums to no more than the whole.
proof fn lemma_sum_prefix(v: Seq<(u32, usize)>, n: int)
    requires
        0 <= n <= v.len(),
    ensures
        sum_counts(v.subrange(0, n)) <= sum_counts(v),
    decreases v.len() - n,
{
    if n < v.len() {
        lemma_sum_prefix(v, n + 1);
        assert(v.subrange(0, n + 1).drop_last() =~= v.subrange(0, n));
    } else {
        assert(v.subrange(0, n) =~= v);
    }
}

/// Each count is part of the sum.
proof fn lemma_sum_ge(v: Seq<(u32, usize)>, i: int)
    requires
        0 <= i < v.len(),
    ensures
        v[i].1 <= sum_counts(v),
    decreases v.len(),
{
    if i < v.len() - 1 {
        lemma_sum_ge(v.drop_last(), i);
    }
}

/// Per-round pending counts add up to zero exactly when no activation is
/// outstanding: the run is drained when its total pending count is zero.
pub proof fn lemma_drained_iff_no_pending(fl: Seq<Flight>, v: Seq<(u32, usize)>)
    requires
        pending_counts(fl, v),
    ensures
        sum_counts(v) == 0 <==> fl.len() == 0,
{
    if fl.len() > 0 {
        let a = choose|a: int| 0 <= a < v.len() && v[a].0 == (#[trigger] fl[0]).round;
        lemma_sum_ge(v, a);
    } else {
        if v.len() > 0 {
            assert(v[0].1 == count_round(fl, v[0].0));
        }
    }
}

} // verus!
