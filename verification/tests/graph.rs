use eureka::graph::artifact::{Artifact, ArtifactKind};
use eureka::graph::edge::Edge;
use eureka::graph::node::NodeError;
use eureka::graph::port::{PortDef, PortDirection, PortSpec, PortSpecEntry};
use eureka::graph::spec::{GraphError, GraphNodeSpec, GraphSpec};
use eureka::graph::validate::{validate_graph, PortRegistry, ValidationResult};

fn test_spec() -> PortSpec {
    PortSpec::new(
        vec![PortSpecEntry {
            name: "in".into(),
            direction: PortDirection::Input,
            kind: "Goal".to_string(),
            required: true,
        }],
        vec![PortSpecEntry {
            name: "out".into(),
            direction: PortDirection::Output,
            kind: "Hypotheses".to_string(),
            required: false,
        }],
    )
}

#[test]
fn test_input_kind() {
    let spec = test_spec();
    assert_eq!(spec.input_kind("in"), Some("Goal".to_string()));
    assert_eq!(spec.input_kind("nonexistent"), None);
}

#[test]
fn test_required_inputs() {
    let spec = test_spec();
    let required = spec.required_inputs();
    assert!(required.contains(&"in".to_string()));
}

#[test]
fn test_optional_input_via_manifest() {
    let optional = PortDef {
        port: "graph".to_string(),
        kind: "ProximityGraph".to_string(),
        required: Some(false),
    };
    let entry = optional.to_input_spec();
    assert!(!entry.required);
    assert!(!PortSpec::new(vec![entry], vec![]).is_input_required("graph"));

    let default = PortDef { port: "in".to_string(), kind: "Goal".to_string(), required: None };
    assert!(default.to_input_spec().required);
}

#[test]
fn output_kind_and_names_follow_declaration_order() {
    let spec = PortSpec::from_defs(
        &[
            PortDef { port: "a".into(), kind: "A".into(), required: None },
            PortDef { port: "b".into(), kind: "B".into(), required: Some(false) },
        ],
        &[PortDef { port: "out".into(), kind: "O".into(), required: Some(true) }],
    );
    assert_eq!(spec.input_names(), vec!["a".to_string(), "b".to_string()]);
    assert_eq!(spec.required_inputs(), vec!["a".to_string()]);
    assert_eq!(spec.output_names(), vec!["out".to_string()]);
    assert_eq!(spec.output_kind("out"), Some("O".to_string()));
    assert_eq!(spec.output_kind("a"), None);
    assert!(!spec.outputs[0].required);
}

#[test]
fn test_kind_is_string() {
    let kind: ArtifactKind = "Overview".to_string();
    assert_eq!(kind, "Overview");
}

#[test]
fn artifact_with_empty_kind_is_refused() {
    assert!(Artifact::new(String::new(), serde_json::Value::Null).is_err());
    let a = Artifact::new("Goal".to_string(), serde_json::Value::Bool(true)).unwrap();
    assert_eq!(a.kind, "Goal");
    assert_eq!(a.to_string(), "Artifact(Goal)");
}

fn make_agent_spec(input_kind: &str, output_kind: &str) -> PortSpec {
    PortSpec::new(
        vec![PortSpecEntry {
            name: "in".into(),
            direction: PortDirection::Input,
            kind: input_kind.to_string(),
            required: true,
        }],
        vec![PortSpecEntry {
            name: "out".into(),
            direction: PortDirection::Output,
            kind: output_kind.to_string(),
            required: false,
        }],
    )
}

fn node(id: &str, kind: &str) -> GraphNodeSpec {
    GraphNodeSpec { id: id.into(), kind: kind.into(), config: serde_json::Value::Null, description: None }
}

#[test]
fn test_valid_graph() {
    let mut registry = PortRegistry::new();
    registry.register("agent.gen".to_string(), make_agent_spec("Goal", "Hypotheses"));
    registry.register("agent.ref".to_string(), make_agent_spec("Hypotheses", "Reviews"));
    registry.register(
        "control.governor".to_string(),
        PortSpec::new(
            vec![PortSpecEntry {
                name: "in".into(),
                direction: PortDirection::Input,
                kind: "Reviews".to_string(),
                required: true,
            }],
            vec![
                PortSpecEntry {
                    name: "continue".into(),
                    direction: PortDirection::Output,
                    kind: "Control".to_string(),
                    required: false,
                },
                PortSpecEntry {
                    name: "halt".into(),
                    direction: PortDirection::Output,
                    kind: "Control".to_string(),
                    required: false,
                },
            ],
        ),
    );

    let spec = GraphSpec {
        name: Some("test".into()),
        description: None,
        nodes: vec![node("gen", "agent.gen"), node("ref", "agent.ref"), node("gov", "control.governor")],
        edges: vec![Edge::new("gen", "out", "ref", "in"), Edge::new("ref", "out", "gov", "in")],
        metadata: serde_json::Value::Null,
    };

    let result = validate_graph(&spec, &registry);
    assert!(result.valid, "expected valid graph but got errors: {:?}", result.errors);
}

#[test]
fn test_port_kind_mismatch() {
    let mut registry = PortRegistry::new();
    registry.register("agent.gen".to_string(), make_agent_spec("Goal", "Hypotheses"));
    registry.register("agent.ref".to_string(), make_agent_spec("Reviews", "Insights"));

    let spec = GraphSpec {
        name: None,
        description: None,
        nodes: vec![node("gen", "agent.gen"), node("ref", "agent.ref")],
        edges: vec![Edge::new("gen", "out", "ref", "in")],
        metadata: serde_json::Value::Null,
    };

    let result = validate_graph(&spec, &registry);
    assert!(!result.valid);
    assert!(result.errors.iter().any(|e| matches!(e, GraphError::PortKindMismatch(_))));
}

#[test]
fn test_dangling_input() {
    let mut registry = PortRegistry::new();
    registry.register("agent.ref".to_string(), make_agent_spec("Reviews", "Hypotheses"));

    let spec = GraphSpec {
        name: None,
        description: None,
        nodes: vec![node("ref", "agent.ref")],
        edges: vec![],
        metadata: serde_json::Value::Null,
    };

    let result = validate_graph(&spec, &registry);
    assert!(!result.valid);
    assert!(result.errors.iter().any(|e| matches!(e, GraphError::DanglingPort(_))));
}

#[test]
fn test_unknown_node() {
    let registry = PortRegistry::new();
    let spec = GraphSpec {
        name: None,
        description: None,
        nodes: vec![],
        edges: vec![Edge::new("ghost", "out", "phantom", "in")],
        metadata: serde_json::Value::Null,
    };

    let result = validate_graph(&spec, &registry);
    assert!(!result.valid);
    assert!(result.errors.iter().any(|e| matches!(e, GraphError::UnknownNode(_))));
}

#[test]
fn unknown_endpoints_are_reported_alone_and_in_edge_order() {
    let registry = PortRegistry::new();
    let spec = GraphSpec {
        name: None,
        description: None,
        nodes: vec![],
        edges: vec![Edge::new("ghost", "out", "phantom", "in")],
        metadata: serde_json::Value::Null,
    };
    let result = validate_graph(&spec, &registry);
    let texts: Vec<String> = result.errors.iter().map(|e| e.to_string()).collect();
    assert_eq!(
        texts,
        vec![
            "Unknown node referenced: Edge source 'ghost' not found in node list".to_string(),
            "Unknown node referenced: Edge target 'phantom' not found in node list".to_string(),
        ]
    );
}

#[test]
fn validation_result_constructors() {
    let ok = ValidationResult::valid();
    assert!(ok.valid && ok.errors.is_empty());
    let bad = ValidationResult::invalid(vec![GraphError::MissingSink("x".into())]);
    assert!(!bad.valid);
    assert_eq!(bad.errors.len(), 1);
}

#[test]
fn registry_replaces_earlier_registration() {
    let mut registry = PortRegistry::new();
    registry.register("k".to_string(), make_agent_spec("A", "B"));
    registry.register("k".to_string(), make_agent_spec("C", "D"));
    assert_eq!(registry.get("k").unwrap().input_kind("in"), Some("C".to_string()));
    assert!(registry.get("other").is_none());
}

#[test]
fn test_source_and_sink_nodes() {
    let spec = GraphSpec {
        name: None,
        description: None,
        nodes: vec![node("source", "agent.test"), node("middle", "agent.test"), node("sink", "agent.test")],
        edges: vec![Edge::new("source", "out", "middle", "in"), Edge::new("middle", "out", "sink", "in")],
        metadata: serde_json::Value::Null,
    };
    assert_eq!(spec.source_node_ids(), vec!["source"]);
}

#[test]
fn feedback_edges_do_not_hide_sources() {
    let spec = GraphSpec {
        name: None,
        description: None,
        nodes: vec![node("a", "k"), node("b", "k")],
        edges: vec![Edge::new("a", "out", "b", "in"), Edge::new("b", "out", "a", "in").feedback()],
        metadata: serde_json::Value::Null,
    };
    assert_eq!(spec.source_node_ids(), vec!["a"]);
    assert_eq!(spec.node_kind("b"), Some("k"));
    assert_eq!(spec.node_kind("zz"), None);
}

#[test]
fn graph_error_texts_carry_their_prefix() {
    assert_eq!(GraphError::ParseError("bad".into()).to_string(), "bad");
    assert_eq!(GraphError::DanglingPort("p".into()).to_string(), "Dangling port: p");
    assert_eq!(GraphError::UnknownPort("q".into()).to_string(), "Unknown port: q");
}

#[test]
fn node_error_texts() {
    assert_eq!(NodeError::Agent("boom".into()).to_string(), "Agent error: boom");
    assert_eq!(NodeError::Cancelled.to_string(), "Node processing cancelled");
    assert_eq!(
        NodeError::PortKind { port: "in".into(), expected: "A".into(), got: "B".into() }.to_string(),
        "Port kind mismatch on port in: expected \"A\", got \"B\""
    );
}
