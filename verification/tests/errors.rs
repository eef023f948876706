use eureka::config::ConfigError;
use eureka::control::ControlError;
use eureka::error::EngineError;
use eureka::graph::spec::GraphError;
use eureka::persistence::record::Revision;
use eureka::persistence::store::PersistenceError;

#[test]
fn graph_error_displays_with_prefix() {
    let err = EngineError::Graph(GraphError::ParseError("bad graph".into()));
    assert_eq!(err.to_string(), "Graph error: bad graph");
}

#[test]
fn config_error_displays_with_prefix() {
    let err = EngineError::Config(ConfigError::ParseError("bad toml".into()));
    assert_eq!(err.to_string(), "Config error: Parse error: bad toml");
}

#[test]
fn scheduler_error_displays() {
    let err = EngineError::Scheduler("timeout".into());
    assert_eq!(err.to_string(), "Scheduler error: timeout");
}

#[test]
fn node_creation_error_displays() {
    let err = EngineError::NodeCreation("missing model".into());
    assert_eq!(err.to_string(), "Node creation error: missing model");
}

#[test]
fn unknown_node_kind_displays() {
    let err = EngineError::UnknownNodeKind("foo".into());
    assert_eq!(err.to_string(), "Unknown node kind: foo");
}

#[test]
fn run_error_displays() {
    let err = EngineError::Run("session died".into());
    assert_eq!(err.to_string(), "Run error: session died");
}

#[test]
fn store_error_displays() {
    let err = EngineError::Store("disk full".into());
    assert_eq!(err.to_string(), "Store error: disk full");
}

#[test]
fn from_graph_error_via_question_mark() {
    let ge = GraphError::ParseError("oops".into());
    let engine_err: EngineError = ge.into();
    assert!(matches!(engine_err, EngineError::Graph(_)));
}

#[test]
fn from_config_error_via_question_mark() {
    let ce = ConfigError::FileError("missing".into());
    let engine_err: EngineError = ce.into();
    assert!(matches!(engine_err, EngineError::Config(_)));
}

#[test]
fn debug_format_does_not_panic() {
    let err = EngineError::Run("test".into());
    let _ = format!("{err:?}");
}

#[test]
fn all_variants_produce_non_empty_display() {
    let variants: &[EngineError] = &[
        EngineError::Scheduler("a".into()),
        EngineError::NodeCreation("a".into()),
        EngineError::UnknownNodeKind("a".into()),
        EngineError::Run("a".into()),
        EngineError::Store("a".into()),
    ];
    for v in variants {
        assert!(!v.to_string().is_empty(), "variant {v:?} had empty display");
    }
}

#[test]
fn graph_error_with_prefix_inside_engine_error() {
    let err = EngineError::Graph(GraphError::MissingSink("none".into()));
    assert_eq!(err.to_string(), "Graph error: No sink node found: none");
    assert_eq!(ConfigError::FileError("x".into()).to_string(), "File error: x");
}

#[test]
fn persistence_error_not_found_displays_run_id() {
    let id = uuid::Uuid::now_v7();
    let err = PersistenceError::NotFound(id.as_u128());
    let msg = err.to_string();
    assert!(msg.contains(&id.to_string()), "message should contain run id: {msg}");
}

#[test]
fn persistence_error_already_exists_displays_run_id() {
    let id = uuid::Uuid::now_v7();
    let err = PersistenceError::AlreadyExists(id.as_u128());
    let msg = err.to_string();
    assert!(msg.contains(&id.to_string()), "message should contain run id: {msg}");
}

#[test]
fn persistence_error_revision_conflict_displays_all_fields() {
    let id = uuid::Uuid::now_v7();
    let err = PersistenceError::RevisionConflict {
        run_id: id.as_u128(),
        expected: Revision(2),
        actual: Revision(1),
    };
    let msg = err.to_string();
    assert!(msg.contains(&id.to_string()), "message should contain run id: {msg}");
    assert!(msg.contains("expected"), "message should mention expected: {msg}");
    assert!(msg.contains("2"), "message should show expected revision: {msg}");
}

#[test]
fn persistence_error_input_conflict_displays_node_and_port() {
    let err = PersistenceError::InputConflict { node_id: "gen".into(), port: "goal".into() };
    let msg = err.to_string();
    assert!(msg.contains("gen"), "message should contain node_id: {msg}");
    assert!(msg.contains("goal"), "message should contain port: {msg}");
}

#[test]
fn persistence_error_io_displays() {
    let err = PersistenceError::Io("disk on fire".to_string());
    let msg = err.to_string();
    assert!(msg.contains("disk on fire"), "message should wrap io error: {msg}");
}

#[test]
fn persistence_error_serialization_displays() {
    let err = PersistenceError::Serialization("trailing comma".into());
    let msg = err.to_string();
    assert!(msg.contains("trailing comma"), "message should wrap: {msg}");
}

#[test]
fn persistence_error_exact_texts() {
    let id = 0x0123_4567_89ab_cdef_0011_2233_4455_6677u128;
    assert_eq!(
        PersistenceError::NotFound(id).to_string(),
        "run 01234567-89ab-cdef-0011-223344556677 was not found"
    );
    assert_eq!(
        PersistenceError::RevisionConflict { run_id: 0, expected: Revision(-3), actual: Revision(i64::MIN) }
            .to_string(),
        "revision conflict for run 00000000-0000-0000-0000-000000000000: expected Revision(-3), actual Revision(-9223372036854775808)"
    );
    assert_eq!(
        PersistenceError::InputConflict { node_id: "n".into(), port: "p".into() }.to_string(),
        "input already exists for node 'n' port 'p'"
    );
}

#[test]
fn control_error_texts() {
    assert_eq!(ControlError::Timeout { timeout_secs: 45 }.to_string(), "Process timed out after 45s");
    assert_eq!(
        ControlError::Spawn { binary: "x".into(), source: "no such file".into() }.to_string(),
        "Failed to spawn process 'x': no such file"
    );
    assert_eq!(ControlError::Wait("w".into()).to_string(), "Failed to wait for process: w");
    assert_eq!(ControlError::StdinWrite("s".into()).to_string(), "Failed to write to process stdin: s");
}
