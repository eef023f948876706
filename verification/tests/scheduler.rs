use eureka::graph::artifact::Artifact;
use eureka::graph::edge::Edge;
use eureka::graph::node::Emit;
use eureka::graph::port::{PortDef, PortSpec};
use eureka::persistence::checkpoint::{ActivationSnapshot, CheckpointReason, PendingInput};
use eureka::scheduler::error::SchedulerError;
use eureka::persistence::record::{Revision, RunStats};
use eureka::scheduler::state::{total_pending, NodePorts, RunState};

fn def(port: &str, kind: &str, required: Option<bool>) -> PortDef {
    PortDef { port: port.into(), kind: kind.into(), required }
}

fn node(id: &str, inputs: &[PortDef], outputs: &[PortDef]) -> NodePorts {
    NodePorts { node_id: id.into(), ports: PortSpec::from_defs(inputs, outputs) }
}

fn art(kind: &str, n: i64) -> Artifact {
    Artifact { kind: kind.into(), data: serde_json::Value::from(n) }
}

fn chain() -> RunState {
    RunState::new(
        vec![
            node("gen", &[def("goal", "Goal", None)], &[def("out", "H", None)]),
            node("ref", &[def("in", "H", None)], &[def("out", "R", None)]),
        ],
        vec![Edge::new("gen", "out", "ref", "in")],
    )
}

#[test]
fn goal_flows_through_a_chain_to_a_terminal_output() {
    let mut st = chain();
    let a = st.inject(&"gen".to_string(), art("Goal", 1)).expect("gen fires");
    assert_eq!((a.id, a.round, a.node_id.as_str()), (0, 0, "gen"));
    assert_eq!(a.inputs.len(), 1);
    assert_eq!(a.inputs[0].port, "goal");
    assert_eq!(st.outstanding(), 1);

    let next = st.complete(a.id, vec![Emit::new("out", art("H", 2))]).unwrap();
    assert_eq!(next.len(), 1);
    assert_eq!((next[0].id, next[0].node_id.as_str(), next[0].round), (1, "ref", 0));
    assert_eq!(next[0].inputs[0].artifact, art("H", 2));
    assert!(st.outputs().is_empty());

    let done = st.complete(next[0].id, vec![Emit::new("out", art("R", 3))]).unwrap();
    assert!(done.is_empty());
    assert_eq!(st.outstanding(), 0);
    let outs = st.outputs();
    assert_eq!(outs.len(), 1);
    assert_eq!((outs[0].node_id.as_str(), outs[0].port.as_str(), outs[0].round), ("ref", "out", 0));
    assert_eq!(outs[0].artifact, art("R", 3));
}

#[test]
fn injecting_into_an_unknown_node_is_skipped() {
    let mut st = chain();
    assert!(st.inject(&"nobody".to_string(), art("Goal", 1)).is_none());
    assert_eq!(st.outstanding(), 0);
    assert!(st.pending_inputs().is_empty());
}

#[test]
fn a_join_fires_once_all_required_inputs_arrived() {
    let mut st = RunState::new(
        vec![
            node("a", &[def("goal", "Goal", None)], &[def("out", "X", None)]),
            node("b", &[def("goal", "Goal", None)], &[def("out", "Y", None)]),
            node(
                "j",
                &[def("x", "X", None), def("opt", "Z", Some(false)), def("y", "Y", None)],
                &[def("out", "W", None)],
            ),
        ],
        vec![Edge::new("a", "out", "j", "x"), Edge::new("b", "out", "j", "y")],
    );
    let a = st.inject(&"a".to_string(), art("Goal", 0)).unwrap();
    let b = st.inject(&"b".to_string(), art("Goal", 0)).unwrap();
    assert!(st.complete(a.id, vec![Emit::new("out", art("X", 1))]).unwrap().is_empty());
    assert_eq!(st.pending_inputs().len(), 1);
    let fired = st.complete(b.id, vec![Emit::new("out", art("Y", 2))]).unwrap();
    assert_eq!(fired.len(), 1);
    let ports: Vec<&str> = fired[0].inputs.iter().map(|m| m.port.as_str()).collect();
    assert_eq!(ports, vec!["x", "y"]);
    assert!(st.pending_inputs().is_empty());
}

#[test]
fn feedback_edges_deliver_into_the_next_round() {
    let mut st = RunState::new(
        vec![
            node("gen", &[def("goal", "Goal", None)], &[def("out", "H", None)]),
            node("gov", &[def("in", "H", None)], &[def("again", "Goal", None)]),
        ],
        vec![Edge::new("gen", "out", "gov", "in"), Edge::new("gov", "again", "gen", "goal").feedback()],
    );
    let g = st.inject(&"gen".to_string(), art("Goal", 0)).unwrap();
    let v = st.complete(g.id, vec![Emit::new("out", art("H", 1))]).unwrap().remove(0);
    assert_eq!(st.current_round(), 0);
    let again = st.complete(v.id, vec![Emit::new("again", art("Goal", 2))]).unwrap();
    assert_eq!(again.len(), 1);
    assert_eq!((again[0].node_id.as_str(), again[0].round), ("gen", 1));
    assert_eq!(st.current_round(), 1);
    assert_eq!(st.round_pending(), vec![(1u32, 1usize)]);
}

#[test]
fn routing_to_a_missing_node_is_an_error() {
    let mut st = RunState::new(
        vec![node("gen", &[def("goal", "Goal", None)], &[def("out", "H", None)])],
        vec![Edge::new("gen", "out", "ghost", "in")],
    );
    let g = st.inject(&"gen".to_string(), art("Goal", 0)).unwrap();
    assert!(st.complete(g.id, vec![Emit::new("out", art("H", 1))]).is_err());
}

#[test]
fn outstanding_round_reports_dispatched_work() {
    let mut st = chain();
    let a = st.inject(&"gen".to_string(), art("Goal", 1)).unwrap();
    assert_eq!(st.outstanding_round(a.id), Some(0));
    assert_eq!(st.outstanding_round(a.id + 1), None);
}

#[test]
fn checkpoint_and_restore_resume_the_same_work() {
    let mut st = chain();
    let a = st.inject(&"gen".to_string(), art("Goal", 1)).unwrap();
    let cp = st.checkpoint(77, Revision(2), "gh".into(), "ch".into(), RunStats::default(), CheckpointReason::Pause);
    assert_eq!((cp.run_id, cp.round, cp.revision), (77, 0, Revision(2)));
    assert_eq!(cp.round_pending, vec![(0u32, 1usize)]);
    assert_eq!(cp.ready_activations.len(), 1);
    assert_eq!(cp.ready_activations[0].node_id, "gen");
    assert_eq!(cp.ready_activations[0].inputs, a.inputs);

    let nodes = vec![
        node("gen", &[def("goal", "Goal", None)], &[def("out", "H", None)]),
        node("ref", &[def("in", "H", None)], &[def("out", "R", None)]),
    ];
    let pending = vec![PendingInput { node_id: "ref".into(), round: 0, port: "in".into(), artifact: art("H", 5) }];
    let (resumed, dispatched) = RunState::restore(
        nodes,
        vec![Edge::new("gen", "out", "ref", "in")],
        cp.round,
        pending,
        cp.ready_activations.clone(),
        cp.outputs.clone(),
    )
    .unwrap();
    assert_eq!(dispatched.len(), 2);
    assert_eq!((dispatched[0].node_id.as_str(), dispatched[0].id), ("ref", 0));
    assert_eq!((dispatched[1].node_id.as_str(), dispatched[1].id), ("gen", 1));
    assert_eq!(resumed.outstanding(), 2);
}

#[test]
fn restoring_work_for_a_missing_node_fails() {
    let pending = vec![PendingInput { node_id: "ghost".into(), round: 0, port: "in".into(), artifact: art("H", 5) }];
    assert!(RunState::restore(vec![], vec![], 0, pending, vec![], vec![]).is_err());
}

fn fan_in() -> (Vec<NodePorts>, Vec<Edge>) {
    (
        vec![
            node("a", &[def("goal", "Goal", None)], &[def("out", "X", None)]),
            node("b", &[def("goal", "Goal", None)], &[def("out", "Y", None)]),
            node("j", &[def("x", "X", None), def("y", "Y", None)], &[def("out", "W", None)]),
        ],
        vec![Edge::new("a", "out", "j", "x"), Edge::new("b", "out", "j", "y")],
    )
}

#[test]
fn checkpoint_then_restore_gives_back_the_same_work() {
    let (nodes, edges) = fan_in();
    let mut st = RunState::new(nodes, edges);
    let a = st.inject(&"a".to_string(), art("Goal", 0)).unwrap();
    let b = st.inject(&"b".to_string(), art("Goal", 0)).unwrap();
    assert!(st.complete(a.id, vec![Emit::new("out", art("X", 1))]).unwrap().is_empty());
    let cp = st.checkpoint(9, Revision(1), "g".into(), "c".into(), RunStats::default(), CheckpointReason::Pause);

    let (nodes, edges) = fan_in();
    let (mut resumed, dispatched) =
        RunState::restore(nodes, edges, cp.round, cp.pending_inputs, cp.ready_activations, cp.outputs).unwrap();
    assert_eq!(resumed.current_round(), st.current_round());
    assert_eq!(resumed.pending_inputs(), st.pending_inputs());
    assert_eq!(resumed.outputs(), st.outputs());
    assert_eq!(dispatched.len(), 1);
    assert_eq!((dispatched[0].node_id.as_str(), dispatched[0].round), ("b", 0));
    assert_eq!(dispatched[0].inputs, b.inputs);

    let fired = resumed.complete(dispatched[0].id, vec![Emit::new("out", art("Y", 2))]).unwrap();
    assert_eq!(fired.len(), 1);
    assert_eq!(fired[0].node_id, "j");
}

fn join_nodes() -> Vec<NodePorts> {
    vec![node("j", &[def("x", "X", None), def("y", "Y", None)], &[def("out", "W", None)])]
}

#[test]
fn restoring_an_incomplete_join_of_an_earlier_round_keeps_it_buffered() {
    let pending = vec![PendingInput { node_id: "j".into(), round: 0, port: "x".into(), artifact: art("X", 1) }];
    let (resumed, dispatched) = RunState::restore(join_nodes(), vec![], 2, pending, vec![], vec![]).unwrap();
    assert!(dispatched.is_empty());
    assert_eq!(resumed.current_round(), 2);
    let kept = resumed.pending_inputs();
    assert_eq!(kept.len(), 1);
    assert_eq!((kept[0].node_id.as_str(), kept[0].round, kept[0].port.as_str()), ("j", 0, "x"));
}

#[test]
fn restoring_a_complete_join_of_an_earlier_round_is_refused() {
    let both = || {
        vec![
            PendingInput { node_id: "j".into(), round: 0, port: "x".into(), artifact: art("X", 1) },
            PendingInput { node_id: "j".into(), round: 0, port: "y".into(), artifact: art("Y", 2) },
        ]
    };
    assert!(RunState::restore(join_nodes(), vec![], 1, both(), vec![], vec![]).is_err());
    let (_, dispatched) = RunState::restore(join_nodes(), vec![], 0, both(), vec![], vec![]).unwrap();
    assert_eq!(dispatched.len(), 1);
    assert_eq!((dispatched[0].node_id.as_str(), dispatched[0].round), ("j", 0));
}

#[test]
fn restoring_an_activation_of_an_earlier_round_is_refused() {
    let mut st = chain();
    st.inject(&"gen".to_string(), art("Goal", 1)).unwrap();
    let cp = st.checkpoint(1, Revision(0), "g".into(), "c".into(), RunStats::default(), CheckpointReason::Pause);
    let nodes = vec![
        node("gen", &[def("goal", "Goal", None)], &[def("out", "H", None)]),
        node("ref", &[def("in", "H", None)], &[def("out", "R", None)]),
    ];
    assert!(RunState::restore(nodes, vec![], 1, vec![], cp.ready_activations, vec![]).is_err());
}

#[test]
fn total_pending_sums_round_counts() {
    assert_eq!(total_pending(&[]), 0);
    assert_eq!(total_pending(&[(0, 2), (3, 5)]), 7);
}

#[test]
fn refusals_name_their_error() {
    let mut st = RunState::new(
        vec![node("gen", &[def("goal", "Goal", None)], &[def("out", "H", None)])],
        vec![Edge::new("gen", "out", "ghost", "in")],
    );
    let g = st.inject(&"gen".to_string(), art("Goal", 0)).unwrap();
    match st.complete(g.id, vec![Emit::new("out", art("H", 1))]) {
        Err(SchedulerError::NodeNotFound(n)) => assert_eq!(n, "ghost"),
        other => panic!("unexpected {other:?}"),
    }

    let pending = vec![PendingInput { node_id: "ghost".into(), round: 0, port: "in".into(), artifact: art("H", 5) }];
    match RunState::restore(vec![], vec![], 0, pending, vec![], vec![]) {
        Err(SchedulerError::NodeNotFound(n)) => assert_eq!(n, "ghost"),
        other => panic!("unexpected {:?}", other.err()),
    }

    let nodes = vec![node("gen", &[def("goal", "Goal", None)], &[def("out", "H", None)])];
    let stale = vec![ActivationSnapshot { node_id: "gen".into(), round: 0, inputs: vec![] }];
    match RunState::restore(nodes, vec![], 3, vec![], stale, vec![]) {
        Err(SchedulerError::CheckpointMismatch) => {},
        other => panic!("unexpected {:?}", other.err()),
    }
}
