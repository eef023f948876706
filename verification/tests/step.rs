use eureka::graph::artifact::Artifact;
use eureka::graph::edge::Edge;
use eureka::graph::node::Emit;
use eureka::graph::port::{PortDef, PortSpec};
use eureka::persistence::checkpoint::CheckpointReason;
use eureka::scheduler::error::{SchedulerError, SchedulerSignal};
use eureka::scheduler::state::{NodePorts, RunState};
use eureka::scheduler::step::{RunAction, RunEvent};

fn def(port: &str, kind: &str) -> PortDef {
    PortDef { port: port.into(), kind: kind.into(), required: None }
}

fn node(id: &str, inputs: &[PortDef], outputs: &[PortDef]) -> NodePorts {
    NodePorts { node_id: id.into(), ports: PortSpec::from_defs(inputs, outputs) }
}

fn art(kind: &str, n: i64) -> Artifact {
    Artifact { kind: kind.into(), data: serde_json::Value::from(n) }
}

fn looped() -> RunState {
    RunState::new(
        vec![
            node("gen", &[def("goal", "Goal")], &[def("out", "H")]),
            node("gov", &[def("in", "H")], &[def("again", "Goal")]),
        ],
        vec![Edge::new("gen", "out", "gov", "in"), Edge::new("gov", "again", "gen", "goal").feedback()],
    )
}

#[test]
fn pause_and_cancel_halt_with_their_checkpoint() {
    let mut st = looped();
    let g = st.inject(&"gen".to_string(), art("Goal", 0)).unwrap();
    match st.step(RunEvent::Signal(SchedulerSignal::Pause)) {
        RunAction::Halt { reason, paused } => {
            assert_eq!(reason, CheckpointReason::Pause);
            assert!(paused);
        },
        other => panic!("unexpected {other:?}"),
    }
    assert_eq!(st.outstanding_round(g.id), Some(0));
    let cp = st.checkpoint(1, Default::default(), "g".into(), "c".into(), Default::default(), CheckpointReason::Pause);
    assert_eq!(cp.round_pending, vec![(0u32, 1usize)]);
    for ev in [RunEvent::Signal(SchedulerSignal::Cancel), RunEvent::Cancelled] {
        match st.step(ev) {
            RunAction::Halt { reason, paused } => {
                assert_eq!(reason, CheckpointReason::Cancellation);
                assert!(!paused);
            },
            other => panic!("unexpected {other:?}"),
        }
    }
    match st.step(RunEvent::Signal(SchedulerSignal::Resume)) {
        RunAction::Continue { dispatch, completed_rounds } => {
            assert!(dispatch.is_empty());
            assert!(completed_rounds.is_none());
        },
        other => panic!("unexpected {other:?}"),
    }
    assert!(matches!(st.step(RunEvent::Closed), RunAction::Finish));
    assert_eq!(st.outstanding(), 1);
}

#[test]
fn finished_activations_advance_rounds() {
    let mut st = looped();
    let g = st.inject(&"gen".to_string(), art("Goal", 0)).unwrap();
    let v = match st.step(RunEvent::Completed { id: g.id, emits: vec![Emit::new("out", art("H", 1))] }) {
        RunAction::Continue { mut dispatch, completed_rounds } => {
            assert!(completed_rounds.is_none());
            dispatch.remove(0)
        },
        other => panic!("unexpected {other:?}"),
    };
    match st.step(RunEvent::Completed { id: v.id, emits: vec![Emit::new("again", art("Goal", 2))] }) {
        RunAction::Continue { dispatch, completed_rounds } => {
            assert_eq!(dispatch.len(), 1);
            assert_eq!(dispatch[0].round, 1);
            assert_eq!(completed_rounds, Some((1, 1)));
        },
        other => panic!("unexpected {other:?}"),
    }
}

#[test]
fn unknown_or_failed_activations_fail_the_run() {
    let mut st = looped();
    match st.step(RunEvent::Completed { id: 9, emits: vec![] }) {
        RunAction::Fail(SchedulerError::Internal(m)) => assert_eq!(m, "activation 9 is not outstanding"),
        other => panic!("unexpected {other:?}"),
    }
    match st.step(RunEvent::Failed { id: 0, node_id: "gen".into(), round: 2, error: "boom".into() }) {
        RunAction::Fail(SchedulerError::NodeFailed { node_id, round, error }) => {
            assert_eq!((node_id.as_str(), round, error.as_str()), ("gen", 2, "boom"));
        },
        other => panic!("unexpected {other:?}"),
    }
}

#[test]
fn delivery_to_a_missing_node_stays_buffered() {
    let mut st = RunState::new(
        vec![node("gen", &[def("goal", "Goal")], &[def("out", "H")])],
        vec![Edge::new("gen", "out", "ghost", "in")],
    );
    let g = st.inject(&"gen".to_string(), art("Goal", 0)).unwrap();
    assert!(st.complete(g.id, vec![Emit::new("out", art("H", 1))]).is_err());
    let pending = st.pending_inputs();
    assert_eq!(pending.len(), 1);
    assert_eq!((pending[0].node_id.as_str(), pending[0].round, pending[0].port.as_str()), ("ghost", 0, "in"));
    assert_eq!(pending[0].artifact, art("H", 1));
    assert_eq!(st.outstanding(), 0);
}
