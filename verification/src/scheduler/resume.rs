//! What every state of a run keeps, and what resuming from a checkpoint of
//! it gives back.
use vstd::prelude::*;
use crate::graph::artifact::Artifact;
use crate::graph::edge::Edge;
use crate::graph::node::Emit;
use crate::graph::port::{required_names, PortSpec};
use crate::persistence::checkpoint::{ActivationSnapshot, PendingInput};
use crate::scheduler::state::{
    buffer_map, complete_step, deliver_step, emit_step, emits_step, initial_model, inject_step, is_ready, key_of,
    keys_unique, lemma_buffer_at, lemma_min_round, ports_of, rebuffer_step, redeliver, respawn, restore_step,
    route_prefix, routes, snapshot_of, target_round, CoreModel, Flight, InputKey, NodePorts,
};

verus! {

/// Every buffered input and every outstanding activation belongs to a node
/// of the run, no buffered bucket holds all the required inputs of its node
/// (a complete bucket fires at once), and no outstanding activation belongs
/// to a round before the current one.
pub open spec fn settled(nodes: Seq<NodePorts>, m: CoreModel) -> bool {
    &&& forall|k: InputKey| #[trigger]
        m.buffered.contains_key(k) ==> (ports_of(nodes, k.0) matches Some(ps) && !is_ready(m.buffered, k.0, k.1, ps))
    &&& forall|i: int|
        0 <= i < m.flight.len() ==> ports_of(nodes, (#[trigger] m.flight[i]).node@) is Some && m.flight[i].round
            >= m.round
}

/// Two activations do the same work: same node, round and inputs.
pub open spec fn same_work(f: Flight, g: Flight) -> bool {
    f.node == g.node && f.round == g.round && f.inputs == g.inputs
}

/// A bucket that is ready stays ready when it gains inputs.
pub proof fn lemma_ready_grows(
    b1: Map<InputKey, Artifact>,
    b2: Map<InputKey, Artifact>,
    node: Seq<char>,
    round: u32,
    ps: PortSpec,
)
    requires
        forall|p: Seq<char>| b1.contains_key((node, round, p)) ==> b2.contains_key((node, round, p)),
        is_ready(b1, node, round, ps),
    ensures
        is_ready(b2, node, round, ps),
{
    let reqs = required_names(ps.inputs@);
    assert forall|i: int| 0 <= i < reqs.len() implies #[trigger] b2.contains_key((node, round, reqs[i])) by {
        assert(b1.contains_key((node, round, reqs[i])));
    }
}

/// Delivering an input in the current round or a later one keeps a state
/// settled, its round and its outputs.
pub proof fn lemma_deliver_settled(
    nodes: Seq<NodePorts>,
    m: CoreModel,
    node: String,
    port: Seq<char>,
    a: Artifact,
    round: u32,
)
    requires
        settled(nodes, m),
        round >= m.round,
        deliver_step(nodes, m, node, port, a, round) is Some,
    ensures
        settled(nodes, deliver_step(nodes, m, node, port, a, round).unwrap().0),
        deliver_step(nodes, m, node, port, a, round).unwrap().0.round == m.round,
        deliver_step(nodes, m, node, port, a, round).unwrap().0.outputs == m.outputs,
{
    let ps = ports_of(nodes, node@).unwrap();
    let b = m.buffered.insert((node@, round, port), a);
    let m2 = deliver_step(nodes, m, node, port, a, round).unwrap().0;
    assert forall|k: InputKey| #[trigger] m2.buffered.contains_key(k) implies (ports_of(nodes, k.0) matches Some(
        qs,
    ) && !is_ready(m2.buffered, k.0, k.1, qs)) by {
        if !(k.0 == node@ && k.1 == round) {
            assert(m.buffered.contains_key(k));
            let qs = ports_of(nodes, k.0).unwrap();
            if is_ready(m2.buffered, k.0, k.1, qs) {
                lemma_ready_grows(m2.buffered, m.buffered, k.0, k.1, qs);
            }
        }
    }
    assert forall|i: int| 0 <= i < m2.flight.len() implies ports_of(nodes, (#[trigger] m2.flight[i]).node@) is Some
        && m2.flight[i].round >= m2.round by {
        if i < m.flight.len() {
            assert(m2.flight[i] == m.flight[i]);
        }
    }
}

/// Routing an emission of a round no earlier than the current one keeps a
/// state settled and its round.
pub proof fn lemma_route_settled(
    nodes: Seq<NodePorts>,
    edges: Seq<Edge>,
    m: CoreModel,
    from: Seq<char>,
    port: Seq<char>,
    a: Artifact,
    round: u32,
    n: int,
)
    requires
        settled(nodes, m),
        m.round <= round < u32::MAX,
        route_prefix(nodes, edges, m, from, port, a, round, n) is Some,
    ensures
        settled(nodes, route_prefix(nodes, edges, m, from, port, a, round, n).unwrap().0),
        route_prefix(nodes, edges, m, from, port, a, round, n).unwrap().0.round == m.round,
    decreases n,
{
    if n > 0 {
        lemma_route_settled(nodes, edges, m, from, port, a, round, n - 1);
        let m1 = route_prefix(nodes, edges, m, from, port, a, round, n - 1).unwrap().0;
        let e = edges[n - 1];
        if e.from_node@ == from && e.from_port@ == port {
            lemma_deliver_settled(nodes, m1, e.to_node, e.to_port@, a, target_round(e, round));
        }
    }
}

/// Handling emissions of a round no earlier than the current one keeps a
/// state settled and its round.
pub proof fn lemma_emits_settled(
    nodes: Seq<NodePorts>,
    edges: Seq<Edge>,
    m: CoreModel,
    from: String,
    round: u32,
    emits: Seq<Emit>,
)
    requires
        settled(nodes, m),
        m.round <= round < u32::MAX,
        emits_step(nodes, edges, m, from, round, emits) is Some,
    ensures
        settled(nodes, emits_step(nodes, edges, m, from, round, emits).unwrap().0),
        emits_step(nodes, edges, m, from, round, emits).unwrap().0.round == m.round,
    decreases emits.len(),
{
    if emits.len() > 0 {
        lemma_emits_settled(nodes, edges, m, from, round, emits.drop_last());
        let m1 = emits_step(nodes, edges, m, from, round, emits.drop_last()).unwrap().0;
        let e = emits.last();
        let m0 = if routes(edges, from@, e.port@) {
            m1
        } else {
            CoreModel {
                outputs: m1.outputs.push(
                    crate::persistence::checkpoint::RunOutput {
                        node_id: from,
                        port: e.port,
                        round,
                        artifact: e.artifact,
                    },
                ),
                ..m1
            }
        };
        assert(settled(nodes, m0));
        lemma_route_settled(nodes, edges, m0, from@, e.port@, e.artifact, round, edges.len() as int);
        assert(emit_step(nodes, edges, m1, from, round, e) == route_prefix(
            nodes,
            edges,
            m0,
            from@,
            e.port@,
            e.artifact,
            round,
            edges.len() as int,
        ));
    }
}

/// Completing an outstanding activation keeps a state settled.
pub proof fn lemma_complete_settled(
    nodes: Seq<NodePorts>,
    edges: Seq<Edge>,
    m: CoreModel,
    k: int,
    emits: Seq<Emit>,
)
    requires
        settled(nodes, m),
        0 <= k < m.flight.len(),
        m.flight[k].round < u32::MAX,
        complete_step(nodes, edges, m, k, m.flight[k].node, emits) is Some,
    ensures
        settled(nodes, complete_step(nodes, edges, m, k, m.flight[k].node, emits).unwrap().0),
{
    let m0 = CoreModel { flight: m.flight.remove(k), ..m };
    assert forall|i: int| 0 <= i < m0.flight.len() implies ports_of(nodes, (#[trigger] m0.flight[i]).node@) is Some
        && m0.flight[i].round >= m0.round by {
        if i < k {
            assert(m0.flight[i] == m.flight[i]);
        } else {
            assert(m0.flight[i] == m.flight[i + 1]);
        }
    }
    assert(settled(nodes, m0));
    lemma_emits_settled(nodes, edges, m0, m.flight[k].node, m.flight[k].round, emits);
    let m1 = emits_step(nodes, edges, m0, m.flight[k].node, m.flight[k].round, emits).unwrap().0;
    if m1.flight.len() > 0 {
        lemma_min_round(m1.flight);
    }
}

/// Injecting an input keeps a state settled.
pub proof fn lemma_inject_settled(nodes: Seq<NodePorts>, m: CoreModel, node: String, a: Artifact)
    requires
        settled(nodes, m),
    ensures
        settled(nodes, inject_step(nodes, m, node, a).0),
{
    if let Some(ps) = ports_of(nodes, node@) {
        if deliver_step(nodes, m, node, crate::scheduler::state::first_input(ps), a, m.round) is Some {
            lemma_deliver_settled(nodes, m, node, crate::scheduler::state::first_input(ps), a, m.round);
        }
    }
}

/// Buffering a checkpointed input again keeps a state settled, its round
/// and its outputs.
pub proof fn lemma_rebuffer_settled(
    nodes: Seq<NodePorts>,
    m: CoreModel,
    node: String,
    port: Seq<char>,
    a: Artifact,
    round: u32,
)
    requires
        settled(nodes, m),
        rebuffer_step(nodes, m, node, port, a, round) is Some,
    ensures
        settled(nodes, rebuffer_step(nodes, m, node, port, a, round).unwrap().0),
        rebuffer_step(nodes, m, node, port, a, round).unwrap().0.round == m.round,
        rebuffer_step(nodes, m, node, port, a, round).unwrap().0.outputs == m.outputs,
{
    if round >= m.round {
        lemma_deliver_settled(nodes, m, node, port, a, round);
    } else {
        let m2 = rebuffer_step(nodes, m, node, port, a, round).unwrap().0;
        assert forall|k: InputKey| #[trigger] m2.buffered.contains_key(k) implies (ports_of(nodes, k.0) matches Some(
            qs,
        ) && !is_ready(m2.buffered, k.0, k.1, qs)) by {
            if !(k.0 == node@ && k.1 == round) {
                assert(m.buffered.contains_key(k));
                let qs = ports_of(nodes, k.0).unwrap();
                if is_ready(m2.buffered, k.0, k.1, qs) {
                    lemma_ready_grows(m2.buffered, m.buffered, k.0, k.1, qs);
                }
            }
        }
    }
}

/// Buffering checkpointed inputs again keeps a state settled, its round and
/// its outputs, and dispatches exactly the activations it adds.
pub proof fn lemma_redeliver_settled(nodes: Seq<NodePorts>, m: CoreModel, pending: Seq<PendingInput>)
    requires
        settled(nodes, m),
        redeliver(nodes, m, pending) is Some,
    ensures
        settled(nodes, redeliver(nodes, m, pending).unwrap().0),
        redeliver(nodes, m, pending).unwrap().0.round == m.round,
        redeliver(nodes, m, pending).unwrap().0.outputs == m.outputs,
    decreases pending.len(),
{
    if pending.len() > 0 {
        lemma_redeliver_settled(nodes, m, pending.drop_last());
        let m1 = redeliver(nodes, m, pending.drop_last()).unwrap().0;
        let p = pending.last();
        lemma_rebuffer_settled(nodes, m1, p.node_id, p.port@, p.artifact, p.round);
    }
}

/// Dispatching checkpointed activations again keeps a state settled, its
/// buffered inputs, its round and its outputs, and adds exactly the
/// activations it returns.
pub proof fn lemma_respawn_settled(nodes: Seq<NodePorts>, m: CoreModel, ready: Seq<ActivationSnapshot>)
    requires
        settled(nodes, m),
        respawn(nodes, m, ready) is Some,
    ensures
        settled(nodes, respawn(nodes, m, ready).unwrap().0),
        respawn(nodes, m, ready).unwrap().0.round == m.round,
        respawn(nodes, m, ready).unwrap().0.outputs == m.outputs,
        respawn(nodes, m, ready).unwrap().0.buffered == m.buffered,
        respawn(nodes, m, ready).unwrap().0.flight == m.flight + respawn(nodes, m, ready).unwrap().1,
    decreases ready.len(),
{
    if ready.len() > 0 {
        lemma_respawn_settled(nodes, m, ready.drop_last());
        let (m1, fs) = respawn(nodes, m, ready.drop_last()).unwrap();
        let (m2, gs) = respawn(nodes, m, ready).unwrap();
        assert(m2.flight == m1.flight.push(gs.last()));
        assert(gs == fs.push(gs.last()));
        assert(m.flight + fs.push(gs.last()) =~= (m.flight + fs).push(gs.last()));
        assert forall|i: int| 0 <= i < m2.flight.len() implies ports_of(nodes, (#[trigger] m2.flight[i]).node@)
            is Some && m2.flight[i].round >= m2.round by {
            if i < m1.flight.len() {
                assert(m2.flight[i] == m1.flight[i]);
            }
        }
    }
}

/// A state restored from a checkpoint is settled.
pub proof fn lemma_restore_settled(
    nodes: Seq<NodePorts>,
    round: u32,
    pending: Seq<PendingInput>,
    ready: Seq<ActivationSnapshot>,
    outputs: Seq<crate::persistence::checkpoint::RunOutput>,
)
    requires
        restore_step(nodes, round, pending, ready, outputs) is Some,
    ensures
        settled(nodes, restore_step(nodes, round, pending, ready, outputs).unwrap().0),
        restore_step(nodes, round, pending, ready, outputs).unwrap().0.round == round,
{
    let m0 = initial_model(round, outputs);
    assert(settled(nodes, m0));
    lemma_redeliver_settled(nodes, m0, pending);
    let m1 = redeliver(nodes, m0, pending).unwrap().0;
    lemma_respawn_settled(nodes, m1, ready);
}

/// With unique keys, one more entry adds its key and artifact.
proof fn lemma_buffer_push(s: Seq<PendingInput>, p: PendingInput)
    requires
        keys_unique(s.push(p)),
    ensures
        buffer_map(s.push(p)) == buffer_map(s).insert(key_of(p), p.artifact),
{
    let t = s.push(p);
    assert(keys_unique(s)) by {
        assert forall|i: int, j: int| 0 <= i < s.len() && 0 <= j < s.len() && i != j implies key_of(s[i]) != key_of(
            s[j],
        ) by {
            assert(t[i] == s[i] && t[j] == s[j]);
        }
    }
    lemma_buffer_at(t, s.len() as int);
    let e = buffer_map(s).insert(key_of(p), p.artifact);
    assert forall|k: InputKey| #[trigger] buffer_map(t).contains_key(k) == e.contains_key(k) && (buffer_map(
        t,
    ).contains_key(k) ==> buffer_map(t)[k] == e[k]) by {
        if k != key_of(p) {
            if buffer_map(s).contains_key(k) {
                let i = choose|i: int| 0 <= i < s.len() && key_of(s[i]) == k;
                assert(t[i] == s[i]);
                lemma_buffer_at(t, i);
                lemma_buffer_at(s, i);
            }
            if buffer_map(t).contains_key(k) {
                let i = choose|i: int| 0 <= i < t.len() && key_of(t[i]) == k;
                assert(i < s.len());
                assert(t[i] == s[i]);
            }
        }
    }
    assert(buffer_map(t) =~= e);
}

/// Buffering the first `j` recorded inputs of a settled state again, from a
/// fresh state in its round, fires nothing and buffers exactly them.
proof fn lemma_redeliver_rebuilds(nodes: Seq<NodePorts>, m: CoreModel, pending: Seq<PendingInput>, j: int)
    requires
        settled(nodes, m),
        keys_unique(pending),
        buffer_map(pending) == m.buffered,
        0 <= j <= pending.len(),
    ensures
        redeliver(nodes, initial_model(m.round, m.outputs), pending.subrange(0, j)) == Some(
            (
                CoreModel { buffered: buffer_map(pending.subrange(0, j)), ..initial_model(m.round, m.outputs) },
                Seq::<Flight>::empty(),
            ),
        ),
    decreases j,
{
    if j == 0 {
        assert(buffer_map(pending.subrange(0, 0)) =~= Map::empty());
    } else {
        lemma_redeliver_rebuilds(nodes, m, pending, j - 1);
        let sub = pending.subrange(0, j);
        let pre = pending.subrange(0, j - 1);
        let p = pending[j - 1];
        assert(sub.drop_last() =~= pre);
        assert(sub =~= pre.push(p));
        assert(keys_unique(sub)) by {
            assert forall|a: int, b: int| 0 <= a < sub.len() && 0 <= b < sub.len() && a != b implies key_of(sub[a])
                != key_of(sub[b]) by {
                assert(sub[a] == pending[a] && sub[b] == pending[b]);
            }
        }
        lemma_buffer_push(pre, p);
        lemma_buffer_at(pending, j - 1);
        let kp = key_of(p);
        let ps = ports_of(nodes, kp.0).unwrap();
        let b = buffer_map(pre).insert(kp, p.artifact);
        if is_ready(b, kp.0, kp.1, ps) {
            assert forall|q: Seq<char>| b.contains_key((kp.0, kp.1, q)) implies m.buffered.contains_key(
                (kp.0, kp.1, q),
            ) by {
                if (kp.0, kp.1, q) != kp {
                    let i = choose|i: int| 0 <= i < pre.len() && key_of(pre[i]) == (kp.0, kp.1, q);
                    assert(pre[i] == pending[i]);
                    lemma_buffer_at(pending, i);
                }
            }
            lemma_ready_grows(b, m.buffered, kp.0, kp.1, ps);
        }
    }
}

/// Dispatching the first `j` snapshots of a settled state's outstanding
/// activations again, in its round, succeeds and does the same work.
proof fn lemma_respawn_rebuilds(
    nodes: Seq<NodePorts>,
    m: CoreModel,
    m1: CoreModel,
    ready: Seq<ActivationSnapshot>,
    j: int,
)
    requires
        settled(nodes, m),
        m1.round == m.round,
        ready.len() == m.flight.len(),
        forall|i: int| 0 <= i < ready.len() ==> snapshot_of(#[trigger] ready[i], m.flight[i]),
        0 <= j <= ready.len(),
    ensures
        match respawn(nodes, m1, ready.subrange(0, j)) {
            Some((m2, gs)) => m2.round == m1.round && gs.len() == j && forall|i: int|
                0 <= i < j ==> same_work(#[trigger] gs[i], m.flight[i]),
            None => false,
        },
    decreases j,
{
    if j > 0 {
        lemma_respawn_rebuilds(nodes, m, m1, ready, j - 1);
        let sub = ready.subrange(0, j);
        assert(sub.drop_last() =~= ready.subrange(0, j - 1));
        assert(sub.last() == ready[j - 1]);
        let f = m.flight[j - 1];
        assert(snapshot_of(ready[j - 1], f));
        assert(ports_of(nodes, f.node@) is Some);
        let (m2, gs) = respawn(nodes, m1, sub).unwrap();
        let (mm, hs) = respawn(nodes, m1, ready.subrange(0, j - 1)).unwrap();
        assert(gs == hs.push(gs.last()));
        assert forall|i: int| 0 <= i < j implies same_work(#[trigger] gs[i], m.flight[i]) by {
            if i < j - 1 {
                assert(gs[i] == hs[i]);
            }
        }
    }
}

/// Resuming from a checkpoint gives back the run's work. Restoring a settled
/// state from its buffered inputs (each key once), its outstanding
/// activations as snapshots in order, its round and its outputs succeeds;
/// the restored state has the same buffered inputs, round and outputs, and
/// for each outstanding activation, in order, one that does the same work;
/// those are exactly the activations dispatched.
pub proof fn law_restore_resumes_checkpoint(
    nodes: Seq<NodePorts>,
    m: CoreModel,
    pending: Seq<PendingInput>,
    ready: Seq<ActivationSnapshot>,
)
    requires
        settled(nodes, m),
        keys_unique(pending),
        buffer_map(pending) == m.buffered,
        ready.len() == m.flight.len(),
        forall|i: int| 0 <= i < ready.len() ==> snapshot_of(#[trigger] ready[i], m.flight[i]),
    ensures
        match restore_step(nodes, m.round, pending, ready, m.outputs) {
            Some((m2, fs)) => {
                &&& m2.buffered == m.buffered
                &&& m2.round == m.round
                &&& m2.outputs == m.outputs
                &&& m2.flight == fs
                &&& fs.len() == m.flight.len()
                &&& forall|i: int| 0 <= i < fs.len() ==> same_work(#[trigger] fs[i], m.flight[i])
            },
            None => false,
        },
{
    lemma_redeliver_rebuilds(nodes, m, pending, pending.len() as int);
    assert(pending.subrange(0, pending.len() as int) =~= pending);
    let m1 = CoreModel { buffered: m.buffered, ..initial_model(m.round, m.outputs) };
    lemma_respawn_rebuilds(nodes, m, m1, ready, ready.len() as int);
    assert(ready.subrange(0, ready.len() as int) =~= ready);
    assert(settled(nodes, m1));
    lemma_respawn_settled(nodes, m1, ready);
    let (m2, gs) = respawn(nodes, m1, ready).unwrap();
    assert(Seq::<Flight>::empty() + gs =~= gs);
    assert(m1.flight + gs =~= gs);
}

} // verus!
