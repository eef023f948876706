//! The graph manifest: agents, control nodes and edges, the graph they
//! declare, and the port declarations of their node kinds.
//!
//! Paths are plain texts with Unix conventions: a path is absolute when it
//! starts with `/`, and joining a relative path onto a base inserts one
//! separator unless the base is empty or already ends with one.
use vstd::prelude::*;
use vstd::string::*;
use crate::config::NodeRagConfig;
use crate::graph::artifact::copy_json;
use crate::graph::edge::Edge;
use crate::graph::port::PortDef;
use crate::graph::spec::{GraphNodeSpec, GraphSpec};
use crate::session::NodeDecl;

verus! {

/// `p` is an absolute path.
pub open spec fn is_absolute(p: Seq<char>) -> bool {
    p.len() > 0 && p[0] == '/'
}

/// `rel` joined onto `base`: an absolute `rel` replaces the base; a relative
/// one is appended after a separator.
pub open spec fn join_path(base: Seq<char>, rel: Seq<char>) -> Seq<char> {
    if is_absolute(rel) {
        rel
    } else if base.len() == 0 || base.last() == '/' {
        base + rel
    } else {
        base + seq!['/'] + rel
    }
}

/// Join `rel` onto `base`.
pub fn join(base: &str, rel: &str) -> (r: String)
    ensures
        r@ == join_path(base@, rel@),
{
    let rel_len = rel.unicode_len();
    if rel_len > 0 && rel.get_char(0) == '/' {
        return String::from_str(rel);
    }
    let base_len = base.unicode_len();
    let mut s = String::from_str(base);
    if base_len > 0 && base.get_char(base_len - 1) != '/' {
        s.append("/");
        proof {
            reveal_strlit("/");
        }
    }
    s.append(rel);
    s
}

/// A prompt file path as written in a manifest, with the path it resolves
/// to.
#[derive(Debug)]
pub struct PromptPath {
    raw: String,
    absolute: String,
}

impl PromptPath {
    /// The path as written.
    pub closed spec fn raw(self) -> Seq<char> {
        self.raw@
    }

    /// The path the prompt is read from.
    pub closed spec fn resolved(self) -> Seq<char> {
        self.absolute@
    }

    /// A prompt path as written in a manifest; until resolved it stands for
    /// itself.
    pub fn from_raw(raw: String) -> (r: Self)
        ensures
            r.raw() == raw@,
            r.resolved() == raw@,
    {
        let absolute = raw.clone();
        PromptPath { raw, absolute }
    }

    /// The path the prompt is read from.
    pub fn path(&self) -> (r: &str)
        ensures
            r@ == self.resolved(),
    {
        self.absolute.as_str()
    }

    /// The path as written.
    pub fn as_str(&self) -> (r: &str)
        ensures
            r@ == self.raw(),
    {
        self.raw.as_str()
    }

    /// Resolve the path against the manifest's directory `base`: a relative
    /// path is joined onto it, an absolute one is kept.
    pub fn resolve(&mut self, base: &str)
        ensures
            final(self).raw() == old(self).raw(),
            final(self).resolved() == join_path(base@, old(self).raw()),
    {
        self.absolute = join(base, self.raw.as_str());
    }
}

/// How an agent reaches an MCP server.
#[derive(Debug)]
pub enum McpTransportSpec {
    /// A local server started as a subprocess.
    Stdio {
        /// The command line: program, then arguments.
        command: Vec<String>,
        /// Environment variables for the server, as (name, value) pairs.
        env: Vec<(String, String)>,
    },
    /// A remote server reached over streamable HTTP.
    Http {
        /// The server's endpoint.
        uri: String,
    },
}

/// An MCP server declared for an agent in the manifest.
#[derive(Debug)]
pub struct McpServerSpec {
    /// Name of the server, used in logs.
    pub name: String,
    /// How to reach the server.
    pub transport: McpTransportSpec,
}

/// The timeout of a manifest tool, in seconds, when none is given.
pub fn default_tool_timeout() -> (r: u32)
    ensures
        r == 30,
{
    30
}

/// The timeout of a manifest control node, in seconds, when none is given.
pub fn default_control_timeout() -> (r: u32)
    ensures
        r == 60,
{
    60
}

/// A shell tool available to an agent.
pub struct ToolSpec {
    /// Name the model uses to call the tool.
    pub name: String,
    /// Description shown to the model.
    pub description: String,
    /// The command line: program, then arguments.
    pub command: Vec<String>,
    /// JSON Schema of the tool's arguments.
    pub args_schema: serde_json::Value,
    /// Maximum wall-clock seconds to wait for the subprocess.
    pub timeout_secs: u32,
}

/// An agent declared in the manifest.
pub struct AgentSpec {
    /// Unique node identifier within the graph; it is also the node's kind.
    pub id: String,
    /// Optional human-readable description.
    pub description: Option<String>,
    /// The system prompt file.
    pub prompt: PromptPath,
    /// Input port declarations.
    pub inputs: Vec<PortDef>,
    /// Output port declarations.
    pub outputs: Vec<PortDef>,
    /// Model configuration, passed through to the node.
    pub config: serde_json::Value,
    /// Shell tools available to the agent.
    pub tools: Vec<ToolSpec>,
    /// JSON Schema of the agent's structured output.
    pub output_schema: serde_json::Value,
    /// MCP servers to connect when the agent is built.
    pub mcp_servers: Vec<McpServerSpec>,
    /// Per-agent retrieval settings.
    pub rag: Option<NodeRagConfig>,
}

/// A subprocess-backed control node declared in the manifest.
pub struct ControlSpec {
    /// Unique node identifier within the graph.
    pub id: String,
    /// The node kind, under which its ports are registered.
    pub kind: String,
    /// Optional description.
    pub description: Option<String>,
    /// The command line: program, then arguments.
    pub command: Vec<String>,
    /// Input port declarations.
    pub inputs: Vec<PortDef>,
    /// Output port declarations.
    pub outputs: Vec<PortDef>,
    /// Per-instance configuration, passed through to the node.
    pub config: serde_json::Value,
    /// Maximum wall-clock seconds to wait for the subprocess.
    pub timeout_secs: u32,
}

/// A complete graph definition as written in one manifest.
pub struct GraphManifest {
    /// A human-readable name for the graph.
    pub name: Option<String>,
    /// Optional description.
    pub description: Option<String>,
    /// Agent definitions.
    pub agents: Vec<AgentSpec>,
    /// Control node definitions.
    pub control: Vec<ControlSpec>,
    /// Directed edges between node ports.
    pub edges: Vec<Edge>,
    /// Free-form metadata.
    pub metadata: serde_json::Value,
}

/// The graph node an agent declares: its identifier doubles as its kind.
pub open spec fn agent_node(a: AgentSpec) -> GraphNodeSpec {
    GraphNodeSpec { id: a.id, kind: a.id, config: a.config, description: a.description }
}

/// The graph node a control node declares.
pub open spec fn control_node(c: ControlSpec) -> GraphNodeSpec {
    GraphNodeSpec { id: c.id, kind: c.kind, config: c.config, description: c.description }
}

/// A declaration of ports as plain values: the kind it registers, its
/// inputs and its outputs.
pub type DeclView = (String, Seq<PortDef>, Seq<PortDef>);

/// The plain form of a declaration of ports.
pub open spec fn decl_view(d: NodeDecl) -> DeclView {
    (d.key, d.inputs@, d.outputs@)
}

/// The port declarations an agent registers, under its identifier.
pub open spec fn agent_decl(a: AgentSpec) -> DeclView {
    (a.id, a.inputs@, a.outputs@)
}

/// The port declarations a control node registers, under its kind.
pub open spec fn control_decl(c: ControlSpec) -> DeclView {
    (c.kind, c.inputs@, c.outputs@)
}

impl GraphManifest {
    /// The declared graph nodes: the agents, then the control nodes.
    pub open spec fn declared_nodes(self) -> Seq<GraphNodeSpec> {
        self.agents@.map_values(|a: AgentSpec| agent_node(a)) + self.control@.map_values(
            |c: ControlSpec| control_node(c),
        )
    }

    /// The declared node identifiers: the agents', then the control nodes'.
    pub open spec fn declared_ids(self) -> Seq<String> {
        self.agents@.map_values(|a: AgentSpec| a.id) + self.control@.map_values(|c: ControlSpec| c.id)
    }

    /// The port declarations of the declared node kinds.
    pub open spec fn declared_ports(self) -> Seq<DeclView> {
        self.agents@.map_values(|a: AgentSpec| agent_decl(a)) + self.control@.map_values(
            |c: ControlSpec| control_decl(c),
        )
    }
}

/// A copy of an optional text.
fn copy_text(o: &Option<String>) -> (r: Option<String>)
    ensures
        r == *o,
{
    match o {
        Some(t) => Some(t.clone()),
        None => None,
    }
}

/// A copy of a list of port declarations.
fn copy_defs(v: &Vec<PortDef>) -> (r: Vec<PortDef>)
    ensures
        r@ == v@,
{
    let mut out: Vec<PortDef> = Vec::new();
    let mut i: usize = 0;
    while i < v.len()
        invariant
            0 <= i <= v@.len(),
            out@ == v@.subrange(0, i as int),
        decreases v@.len() - i,
    {
        out.push(v[i].clone());
        assert(out@ =~= v@.subrange(0, i + 1));
        i = i + 1;
    }
    assert(out@ =~= v@);
    out
}

impl GraphManifest {
    /// The graph the manifest declares, for the scheduler: every agent and
    /// every control node becomes a node keyed by its identifier, agents
    /// first; an agent's kind is its identifier. Name, description, edges and
    /// metadata are carried over.
    pub fn to_graph_spec(&self) -> (g: GraphSpec)
        ensures
            g.name == self.name,
            g.description == self.description,
            g.nodes@ == self.declared_nodes(),
            g.edges@ == self.edges@,
            g.metadata == self.metadata,
    {
        let mut nodes: Vec<GraphNodeSpec> = Vec::new();
        let mut i: usize = 0;
        while i < self.agents.len()
            invariant
                0 <= i <= self.agents@.len(),
                nodes@ == self.agents@.subrange(0, i as int).map_values(|a: AgentSpec| agent_node(a)),
            decreases self.agents@.len() - i,
        {
            let a = &self.agents[i];
            nodes.push(
                GraphNodeSpec {
                    id: a.id.clone(),
                    kind: a.id.clone(),
                    config: copy_json(&a.config),
                    description: copy_text(&a.description),
                },
            );
            assert(nodes@ =~= self.agents@.subrange(0, i + 1).map_values(|a: AgentSpec| agent_node(a)));
            i = i + 1;
        }
        assert(self.agents@.subrange(0, self.agents@.len() as int) =~= self.agents@);
        let ghost first = nodes@;
        let mut j: usize = 0;
        while j < self.control.len()
            invariant
                0 <= j <= self.control@.len(),
                first == self.agents@.map_values(|a: AgentSpec| agent_node(a)),
                nodes@ == first + self.control@.subrange(0, j as int).map_values(|c: ControlSpec| control_node(c)),
            decreases self.control@.len() - j,
        {
            let c = &self.control[j];
            nodes.push(
                GraphNodeSpec {
                    id: c.id.clone(),
                    kind: c.kind.clone(),
                    config: copy_json(&c.config),
                    description: copy_text(&c.description),
                },
            );
            assert(nodes@ =~= first + self.control@.subrange(0, j + 1).map_values(
                |c: ControlSpec| control_node(c),
            ));
            j = j + 1;
        }
        assert(self.control@.subrange(0, self.control@.len() as int) =~= self.control@);
        let mut edges: Vec<Edge> = Vec::new();
        let mut k: usize = 0;
        while k < self.edges.len()
            invariant
                0 <= k <= self.edges@.len(),
                edges@ == self.edges@.subrange(0, k as int),
            decreases self.edges@.len() - k,
        {
            edges.push(self.edges[k].clone());
            assert(edges@ =~= self.edges@.subrange(0, k + 1));
            k = k + 1;
        }
        assert(edges@ =~= self.edges@);
        GraphSpec {
            name: copy_text(&self.name),
            description: copy_text(&self.description),
            nodes,
            edges,
            metadata: copy_json(&self.metadata),
        }
    }

    /// The identifiers of every declared node, agents first.
    pub fn all_node_ids(&self) -> (r: Vec<String>)
        ensures
            r@ == self.declared_ids(),
    {
        let mut ids: Vec<String> = Vec::new();
        let mut i: usize = 0;
        while i < self.agents.len()
            invariant
                0 <= i <= self.agents@.len(),
                ids@ == self.agents@.subrange(0, i as int).map_values(|a: AgentSpec| a.id),
            decreases self.agents@.len() - i,
        {
            ids.push(self.agents[i].id.clone());
            assert(ids@ =~= self.agents@.subrange(0, i + 1).map_values(|a: AgentSpec| a.id));
            i = i + 1;
        }
        assert(self.agents@.subrange(0, self.agents@.len() as int) =~= self.agents@);
        let ghost first = ids@;
        let mut j: usize = 0;
        while j < self.control.len()
            invariant
                0 <= j <= self.control@.len(),
                first == self.agents@.map_values(|a: AgentSpec| a.id),
                ids@ == first + self.control@.subrange(0, j as int).map_values(|c: ControlSpec| c.id),
            decreases self.control@.len() - j,
        {
            ids.push(self.control[j].id.clone());
            assert(ids@ =~= first + self.control@.subrange(0, j + 1).map_values(|c: ControlSpec| c.id));
            j = j + 1;
        }
        assert(self.control@.subrange(0, self.control@.len() as int) =~= self.control@);
        ids
    }

    /// The port declarations of the manifest's node kinds: each agent's
    /// under its identifier, then each control node's under its kind.
    pub fn node_decls(&self) -> (r: Vec<NodeDecl>)
        ensures
            r@.map_values(|d: NodeDecl| decl_view(d)) == self.declared_ports(),
    {
        let mut decls: Vec<NodeDecl> = Vec::new();
        let mut i: usize = 0;
        while i < self.agents.len()
            invariant
                0 <= i <= self.agents@.len(),
                decls@.map_values(|d: NodeDecl| decl_view(d)) == self.agents@.subrange(0, i as int).map_values(
                    |a: AgentSpec| agent_decl(a),
                ),
            decreases self.agents@.len() - i,
        {
            let a = &self.agents[i];
            let d = NodeDecl { key: a.id.clone(), inputs: copy_defs(&a.inputs), outputs: copy_defs(&a.outputs) };
            assert(decl_view(d) == agent_decl(self.agents@[i as int]));
            let ghost before = decls@;
            decls.push(d);
            assert(decls@.map_values(|d: NodeDecl| decl_view(d)) =~= before.map_values(|d: NodeDecl| decl_view(d)).push(
                agent_decl(self.agents@[i as int]),
            ));
            assert(decls@.map_values(|d: NodeDecl| decl_view(d)) =~= self.agents@.subrange(0, i + 1).map_values(
                |a: AgentSpec| agent_decl(a),
            ));
            i = i + 1;
        }
        assert(self.agents@.subrange(0, self.agents@.len() as int) =~= self.agents@);
        let ghost first = decls@.map_values(|d: NodeDecl| decl_view(d));
        let mut j: usize = 0;
        while j < self.control.len()
            invariant
                0 <= j <= self.control@.len(),
                first == self.agents@.map_values(|a: AgentSpec| agent_decl(a)),
                decls@.map_values(|d: NodeDecl| decl_view(d)) == first + self.control@.subrange(0, j as int).map_values(
                    |c: ControlSpec| control_decl(c),
                ),
            decreases self.control@.len() - j,
        {
            let c = &self.control[j];
            let d = NodeDecl { key: c.kind.clone(), inputs: copy_defs(&c.inputs), outputs: copy_defs(&c.outputs) };
            assert(decl_view(d) == control_decl(self.control@[j as int]));
            let ghost before = decls@;
            decls.push(d);
            assert(decls@.map_values(|d: NodeDecl| decl_view(d)) =~= before.map_values(|d: NodeDecl| decl_view(d)).push(
                control_decl(self.control@[j as int]),
            ));
            assert(decls@.map_values(|d: NodeDecl| decl_view(d)) =~= first + self.control@.subrange(0, j + 1).map_values(
                |c: ControlSpec| control_decl(c),
            ));
            j = j + 1;
        }
        assert(self.control@.subrange(0, self.control@.len() as int) =~= self.control@);
        decls
    }
}

/// Every node of the graph a manifest declares has its ports declared
/// under its kind, at the same position.
pub proof fn law_declared_nodes_have_ports(m: GraphManifest)
    ensures
        m.declared_ports().len() == m.declared_nodes().len(),
        forall|i: int|
            0 <= i < m.declared_nodes().len() ==> (#[trigger] m.declared_ports()[i]).0 == m.declared_nodes()[i].kind,
{
    let na = m.agents@.len();
    assert forall|i: int| 0 <= i < m.declared_nodes().len() implies (#[trigger] m.declared_ports()[i]).0
        == m.declared_nodes()[i].kind by {
        if i < na {
            assert(m.declared_ports()[i] == agent_decl(m.agents@[i]));
            assert(m.declared_nodes()[i] == agent_node(m.agents@[i]));
        } else {
            assert(m.declared_ports()[i] == control_decl(m.control@[i - na]));
            assert(m.declared_nodes()[i] == control_node(m.control@[i - na]));
        }
    }
}

} // verus!
