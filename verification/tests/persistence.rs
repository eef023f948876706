use eureka::graph::artifact::Artifact;
use eureka::persistence::checkpoint::{CheckpointReason, PendingInput, RunCheckpoint, RunOutput};
use eureka::persistence::environment::{RunEnvironment, DATABASE_SCHEMA_VERSION};
use eureka::persistence::record::{Revision, RunFilter, RunRecord, RunStats, RunStatus};
use eureka::persistence::store::{
    next_checkpoint_revision, record_revision, InMemoryRunPersistence, PersistenceError,
};
use std::collections::HashMap;

fn goal(x: i64) -> serde_json::Value {
    serde_json::Value::from(x)
}

fn art(kind: &str) -> Artifact {
    Artifact { kind: kind.into(), data: serde_json::Value::Object(serde_json::Map::new()) }
}

#[test]
fn run_filter_with_status_and_limit() {
    let filter = RunFilter { status: Some(RunStatus::Failed), limit: Some(5) };
    assert_eq!(filter.status, Some(RunStatus::Failed));
    assert_eq!(filter.limit, Some(5));
}

#[test]
fn run_filter_limit_zero() {
    let filter = RunFilter { status: None, limit: Some(0) };
    assert_eq!(filter.limit, Some(0));
}

#[test]
fn run_filter_default_has_no_constraints() {
    let filter = RunFilter::default();
    assert!(filter.status.is_none());
    assert!(filter.limit.is_none());
}

#[test]
fn revision_ordering() {
    assert!(Revision(0) < Revision(1));
    assert!(Revision(1) > Revision(0));
    assert_eq!(Revision(3), Revision(3));
    assert!(Revision(-1) < Revision(0));
    assert!(Revision(i64::MAX) > Revision(i64::MIN));
}

#[test]
fn revision_default_is_zero() {
    assert_eq!(Revision::default(), Revision(0));
}

#[test]
fn run_record_new_sets_created_status() {
    let id = uuid::Uuid::now_v7().as_u128();
    let record = RunRecord::new(id, "example/coscientist.yml".to_string(), goal(7));
    assert_eq!(record.id, id);
    assert_eq!(record.graph, "example/coscientist.yml");
    assert_eq!(record.goal, goal(7));
    assert_eq!(record.status, RunStatus::Created);
    assert!(record.error.is_none());
    assert!(record.stats.is_none());
}

#[test]
fn run_record_revision_default_is_zero() {
    let record = RunRecord::new(uuid::Uuid::now_v7().as_u128(), "g.yml".to_string(), goal(0));
    assert_eq!(record.revision.0, 0);
}

#[test]
fn run_record_revision_must_not_be_negative_in_practice() {
    let record = RunRecord::new(uuid::Uuid::now_v7().as_u128(), "g.yml".to_string(), goal(0));
    assert!(record.revision.0 >= 0);
}

#[test]
fn run_status_names_are_snake_case() {
    assert_eq!(RunStatus::Created.as_str(), "created");
    assert_eq!(RunStatus::Cancelled.as_str(), "cancelled");
}

#[test]
fn run_output_equality() {
    let a = RunOutput { node_id: "n1".into(), port: "p1".into(), round: 0, artifact: art("K") };
    let b = RunOutput { node_id: "n1".into(), port: "p1".into(), round: 0, artifact: art("K") };
    assert_eq!(a, b);
}

#[test]
fn pending_input_equality_is_deterministic() {
    let a = PendingInput { node_id: "n".into(), round: 1, port: "p".into(), artifact: art("K") };
    let b = PendingInput { node_id: "n".into(), round: 1, port: "p".into(), artifact: art("K") };
    assert_eq!(a, b);
}

#[test]
fn checkpoint_new_has_revision_zero_and_default_round() {
    let id = uuid::Uuid::now_v7().as_u128();
    let cp = RunCheckpoint::new(id, "gh".into(), "ch".into());
    assert_eq!(cp.run_id, id);
    assert_eq!(cp.graph_hash, "gh");
    assert_eq!(cp.config_hash, "ch");
    assert_eq!(cp.revision.0, 0);
    assert_eq!(cp.round, 0);
    assert_eq!(cp.reason, CheckpointReason::RoundCompleted);
    assert!(cp.pending_inputs.is_empty());
    assert!(cp.ready_activations.is_empty());
    assert!(cp.outputs.is_empty());
    assert_eq!(cp.stats, RunStats::default());
}

#[test]
fn inject_input_adds_pending_input() {
    let id = uuid::Uuid::now_v7().as_u128();
    let mut cp = RunCheckpoint::new(id, "gh".into(), "ch".into());
    let artifact = Artifact { kind: "Goal".into(), data: goal(1) };
    cp.inject_input("gen".into(), "goal".into(), artifact.clone()).unwrap();
    assert_eq!(cp.pending_inputs.len(), 1);
    assert_eq!(cp.pending_inputs[0].node_id, "gen");
    assert_eq!(cp.pending_inputs[0].port, "goal");
    assert_eq!(cp.pending_inputs[0].round, 0);
    assert_eq!(cp.pending_inputs[0].artifact, artifact);
}

#[test]
fn inject_input_rejects_duplicate_same_port_same_round() {
    let id = uuid::Uuid::now_v7().as_u128();
    let mut cp = RunCheckpoint::new(id, "gh".into(), "ch".into());
    let artifact = art("Goal");
    cp.inject_input("gen".into(), "goal".into(), artifact.clone()).unwrap();
    let err = cp.inject_input("gen".into(), "goal".into(), artifact).unwrap_err();
    assert!(matches!(err, PersistenceError::InputConflict { .. }));
}

#[test]
fn inject_input_allows_same_port_different_round() {
    let id = uuid::Uuid::now_v7().as_u128();
    let mut cp = RunCheckpoint::new(id, "gh".into(), "ch".into());
    let a1 = art("Goal");
    cp.inject_input("gen".into(), "goal".into(), a1.clone()).unwrap();
    cp.round = 1;
    cp.inject_input("gen".into(), "goal".into(), a1).unwrap();
    assert_eq!(cp.pending_inputs.len(), 2);
}

#[test]
fn inject_input_allows_different_port_same_round() {
    let id = uuid::Uuid::now_v7().as_u128();
    let mut cp = RunCheckpoint::new(id, "gh".into(), "ch".into());
    let a = art("Goal");
    cp.inject_input("gen".into(), "port_a".into(), a.clone()).unwrap();
    cp.inject_input("gen".into(), "port_b".into(), a).unwrap();
    assert_eq!(cp.pending_inputs.len(), 2);
}

#[test]
fn inject_input_different_node_same_port_no_conflict() {
    let id = uuid::Uuid::now_v7().as_u128();
    let mut cp = RunCheckpoint::new(id, "gh".into(), "ch".into());
    let a = art("Goal");
    cp.inject_input("gen".into(), "goal".into(), a.clone()).unwrap();
    cp.inject_input("ref".into(), "goal".into(), a).unwrap();
    assert_eq!(cp.pending_inputs.len(), 2);
}

#[test]
fn subprocess_environment_contains_shared_database_contract() {
    let environment = RunEnvironment::new("run-1".to_string(), Some("run.sqlite".to_string()));
    let values = environment.subprocess_env("ranker", 3, "{}");
    let values: HashMap<_, _> = values.into_iter().collect();
    assert_eq!(values.get("EUREKA_SESSION_ID"), Some(&"run-1".to_string()));
    assert_eq!(values.get("EUREKA_NODE_ID"), Some(&"ranker".to_string()));
    assert_eq!(values.get("EUREKA_ROUND"), Some(&"3".to_string()));
    assert_eq!(values.get("EUREKA_DB_PATH"), Some(&"run.sqlite".to_string()));
    assert_eq!(values.get("EUREKA_DB_SCHEMA_VERSION"), Some(&DATABASE_SCHEMA_VERSION.to_string()));
    assert_eq!(values.get("EUREKA_DB_NAMESPACE"), Some(&"ranker".to_string()));
}

#[test]
fn subprocess_environment_order_and_missing_database() {
    let environment = RunEnvironment::new("s".to_string(), None);
    assert_eq!(environment.session_id(), "s");
    assert!(environment.db_path().is_none());
    assert_eq!(environment.database_schema_version(), 1);
    let values = environment.subprocess_env("n", 4_000_000_000, "{\"a\":1}");
    let names: Vec<&str> = values.iter().map(|(k, _)| k.as_str()).collect();
    assert_eq!(
        names,
        vec![
            "EUREKA_SESSION_ID",
            "EUREKA_NODE_ID",
            "EUREKA_ROUND",
            "EUREKA_CONFIG",
            "EUREKA_DB_SCHEMA_VERSION",
            "EUREKA_DB_NAMESPACE"
        ]
    );
    assert_eq!(values[2].1, "4000000000");
    assert_eq!(values[3].1, "{\"a\":1}");
}

fn record(id: u128, status: RunStatus) -> RunRecord {
    let mut r = RunRecord::new(id, "g.yml".to_string(), goal(id as i64));
    r.status = status;
    r
}

#[test]
fn created_run_reads_back_at_revision_zero() {
    let mut store = InMemoryRunPersistence::new();
    let mut r = record(5, RunStatus::Running);
    r.revision = Revision(9);
    let created = store.create(r).unwrap();
    assert_eq!(created.revision, Revision(0));
    assert_eq!(store.get_versioned(5), Some(created));
    assert!(matches!(store.create(record(5, RunStatus::Created)), Err(PersistenceError::AlreadyExists(5))));
    assert_eq!(store.get_versioned(6), None);
}

#[test]
fn stale_save_is_refused() {
    let mut store = InMemoryRunPersistence::new();
    store.create(record(1, RunStatus::Created)).unwrap();
    let saved = store.save_if_revision(record(1, RunStatus::Running), Revision(0)).unwrap();
    assert_eq!(saved.revision, Revision(1));
    let err = store.save_if_revision(record(1, RunStatus::Failed), Revision(0)).unwrap_err();
    assert!(matches!(
        err,
        PersistenceError::RevisionConflict { run_id: 1, expected: Revision(0), actual: Revision(1) }
    ));
    assert!(matches!(
        store.save_if_revision(record(2, RunStatus::Failed), Revision(0)),
        Err(PersistenceError::NotFound(2))
    ));
    assert_eq!(store.get_versioned(1).unwrap().status, RunStatus::Running);
}

#[test]
fn list_sorts_filters_and_limits() {
    let mut store = InMemoryRunPersistence::new();
    for (id, status) in [(30, RunStatus::Failed), (10, RunStatus::Failed), (20, RunStatus::Completed), (5, RunStatus::Failed)] {
        store.create(record(id, status)).unwrap();
    }
    let all: Vec<u128> = store.list(RunFilter::default()).iter().map(|r| r.id).collect();
    assert_eq!(all, vec![5, 10, 20, 30]);
    let failed: Vec<u128> =
        store.list(RunFilter { status: Some(RunStatus::Failed), limit: Some(2) }).iter().map(|r| r.id).collect();
    assert_eq!(failed, vec![5, 10]);
    assert!(store.list(RunFilter { status: None, limit: Some(0) }).is_empty());
}

#[test]
fn delete_forgets_record_checkpoint_and_events() {
    let mut store = InMemoryRunPersistence::new();
    store.create(record(1, RunStatus::Created)).unwrap();
    store.create(record(2, RunStatus::Created)).unwrap();
    store.save_checkpoint(RunCheckpoint::new(1, "g".into(), "c".into()), None).unwrap();
    store.append_event(1, goal(1), 10);
    store.append_event(2, goal(2), 11);
    store.delete_versioned(1).unwrap();
    assert_eq!(store.get_versioned(1), None);
    assert!(store.load_checkpoint(1).is_none());
    assert!(store.load_events(1).is_empty());
    assert_eq!(store.load_events(2).len(), 1);
    assert!(matches!(store.delete_versioned(1), Err(PersistenceError::NotFound(1))));
}

#[test]
fn events_are_numbered_per_run() {
    let mut store = InMemoryRunPersistence::new();
    let e0 = store.append_event(7, goal(0), 100);
    store.append_event(8, goal(9), 101);
    let e1 = store.append_event(7, goal(1), 102);
    assert_eq!((e0.sequence, e1.sequence), (0, 1));
    assert_eq!(e1.timestamp_ms, 102);
    let seqs: Vec<u64> = store.load_events(7).iter().map(|e| e.sequence).collect();
    assert_eq!(seqs, vec![0, 1]);
    store.delete_events(7);
    assert!(store.load_events(7).is_empty());
    assert_eq!(store.append_event(7, goal(3), 103).sequence, 0);
}

#[test]
fn in_memory_backend_matches_versioned_contract() {
    let mut store = InMemoryRunPersistence::new();
    let id = uuid::Uuid::now_v7().as_u128();
    let record = store.create(RunRecord::new(id, "graph.yml".to_string(), goal(0))).unwrap();
    let checkpoint = store.save_checkpoint(RunCheckpoint::new(id, "graph".into(), "config".into()), None).unwrap();
    assert_eq!(checkpoint.revision, Revision(1));
    assert_eq!(store.get_versioned(id), Some(record));
}

#[test]
fn checkpoint_revisions_count_saves() {
    let mut store = InMemoryRunPersistence::new();
    let first = store.save_checkpoint(RunCheckpoint::new(3, "g".into(), "c".into()), Some(Revision(0))).unwrap();
    assert_eq!(first.revision, Revision(1));
    let mut next = RunCheckpoint::new(3, "g".into(), "c".into());
    next.round = 2;
    let second = store.save_checkpoint(next, Some(Revision(1))).unwrap();
    assert_eq!(second.revision, Revision(2));
    assert_eq!(store.load_checkpoint(3).unwrap().round, 2);
    let stale = RunCheckpoint::new(3, "g".into(), "c".into());
    let err = store.save_checkpoint(stale, Some(Revision(1))).unwrap_err();
    assert!(matches!(
        err,
        PersistenceError::RevisionConflict { run_id: 3, expected: Revision(1), actual: Revision(2) }
    ));
    store.delete_checkpoint(3);
    assert!(store.load_checkpoint(3).is_none());
}

#[test]
fn revision_decisions() {
    assert_eq!(next_checkpoint_revision(None, None), Ok(Revision(1)));
    assert_eq!(next_checkpoint_revision(Some(Revision(4)), Some(Revision(4))), Ok(Revision(5)));
    assert_eq!(next_checkpoint_revision(None, Some(Revision(2))), Err((Revision(2), Revision(0))));
    assert!(matches!(record_revision(9, None, Revision(0)), Err(PersistenceError::NotFound(9))));
    assert!(matches!(record_revision(9, Some(Revision(i64::MAX)), Revision(i64::MAX)), Ok(Revision(i64::MAX))));
    assert!(matches!(record_revision(9, Some(Revision(3)), Revision(3)), Ok(Revision(4))));
}
