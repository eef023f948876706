use eureka::graph::edge::Edge;
use eureka::graph::port::PortDef;
use eureka::manifest::{AgentSpec, ControlSpec, GraphManifest, PromptPath};

fn def(port: &str, kind: &str) -> PortDef {
    PortDef { port: port.into(), kind: kind.into(), required: None }
}

fn agent(id: &str, raw: &str, base: &str) -> AgentSpec {
    let mut prompt = PromptPath::from_raw(raw.into());
    prompt.resolve(base);
    AgentSpec {
        id: id.into(),
        description: None,
        prompt,
        inputs: vec![def("in", "Goal")],
        outputs: vec![def("out", "Hypotheses")],
        config: serde_json::Value::Object(serde_json::Map::new()),
        tools: vec![],
        output_schema: serde_json::from_str(r#"{"type": "object"}"#).unwrap(),
        mcp_servers: vec![],
        rag: None,
    }
}

fn governor() -> ControlSpec {
    ControlSpec {
        id: "gov".into(),
        kind: "round-governor".into(),
        description: None,
        command: vec!["python3".into(), "control/gov.py".into()],
        inputs: vec![def("in", "Hypotheses")],
        outputs: vec![def("continue", "Hypotheses"), def("halt", "Control")],
        config: serde_json::Value::Object(serde_json::Map::new()),
        timeout_secs: 10,
    }
}

#[test]
fn test_to_graph_spec() {
    let manifest = GraphManifest {
        name: Some("test".into()),
        description: None,
        agents: vec![agent("gen", "prompts/gen.md", "/tmp")],
        control: vec![],
        edges: vec![],
        metadata: serde_json::Value::Object(serde_json::Map::new()),
    };
    assert_eq!(manifest.agents[0].prompt.path(), "/tmp/prompts/gen.md");

    let spec = manifest.to_graph_spec();
    assert_eq!(spec.nodes.len(), 1);
    assert_eq!(spec.nodes[0].id, "gen");
}

#[test]
fn test_control_and_agents_combined() {
    let manifest = GraphManifest {
        name: None,
        description: None,
        agents: vec![agent("gen", "p.md", "")],
        control: vec![governor()],
        edges: vec![Edge::new("gen", "out", "gov", "in")],
        metadata: serde_json::Value::Object(serde_json::Map::new()),
    };

    let ids = manifest.all_node_ids();
    assert!(ids.contains(&"gen".to_string()));
    assert!(ids.contains(&"gov".to_string()));
}

#[test]
fn agents_come_first_and_an_agent_is_its_own_kind() {
    let manifest = GraphManifest {
        name: Some("g".into()),
        description: Some("d".into()),
        agents: vec![agent("gen", "p.md", "")],
        control: vec![governor()],
        edges: vec![Edge::new("gen", "out", "gov", "in")],
        metadata: serde_json::Value::from(7),
    };
    let spec = manifest.to_graph_spec();
    let pairs: Vec<(&str, &str)> = spec.nodes.iter().map(|n| (n.id.as_str(), n.kind.as_str())).collect();
    assert_eq!(pairs, vec![("gen", "gen"), ("gov", "round-governor")]);
    assert_eq!(spec.name.as_deref(), Some("g"));
    assert_eq!(spec.description.as_deref(), Some("d"));
    assert_eq!(spec.edges.len(), 1);
    assert_eq!(spec.edges[0].to_node, "gov");
    assert_eq!(spec.metadata, serde_json::Value::from(7));
    assert_eq!(manifest.all_node_ids(), vec!["gen".to_string(), "gov".to_string()]);
}

#[test]
fn node_decls_register_agents_by_id_and_control_nodes_by_kind() {
    let manifest = GraphManifest {
        name: None,
        description: None,
        agents: vec![agent("gen", "p.md", "")],
        control: vec![governor()],
        edges: vec![],
        metadata: serde_json::Value::Null,
    };
    let decls = manifest.node_decls();
    let ports = |v: &[PortDef]| -> Vec<(String, String)> { v.iter().map(|p| (p.port.clone(), p.kind.clone())).collect() };
    assert_eq!(decls.len(), 2);
    assert_eq!(decls[0].key, "gen");
    assert_eq!(ports(&decls[0].inputs), vec![("in".to_string(), "Goal".to_string())]);
    assert_eq!(decls[1].key, "round-governor");
    assert_eq!(
        ports(&decls[1].outputs),
        vec![("continue".to_string(), "Hypotheses".to_string()), ("halt".to_string(), "Control".to_string())]
    );
}
