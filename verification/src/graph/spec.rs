//! Graph specifications: the topology of a run as data.
use vstd::prelude::*;
use vstd::string::*;
use crate::graph::edge::Edge;

verus! {

/// A node declaration in a graph specification.
pub struct GraphNodeSpec {
    /// Unique node identifier within the graph.
    pub id: String,
    /// The node kind, used to look up its port specification.
    pub kind: String,
    /// Per-instance configuration, passed through to the node.
    pub config: serde_json::Value,
    /// Optional human-readable description.
    pub description: Option<String>,
}

/// A complete graph specification: nodes, edges and metadata.
pub struct GraphSpec {
    /// A human-readable name for this topology.
    pub name: Option<String>,
    /// Optional description.
    pub description: Option<String>,
    /// All nodes, in declaration order.
    pub nodes: Vec<GraphNodeSpec>,
    /// All directed edges, in declaration order.
    pub edges: Vec<Edge>,
    /// Free-form metadata, passed through.
    pub metadata: serde_json::Value,
}

/// The category of a graph error.
#[derive(Debug, Clone, Copy, PartialEq, Eq, Structural)]
pub enum GraphErrorKind {
    /// The specification could not be parsed or loaded.
    ParseError,
    /// An edge joins ports of different artifact kinds.
    PortKindMismatch,
    /// A required input port has no inbound edge.
    DanglingPort,
    /// A node cannot be reached from any source.
    UnreachableNode,
    /// A cycle lacks a governing node.
    UngovernedCycle,
    /// No node emits a terminal artifact.
    MissingSink,
    /// A node or node kind is unknown.
    UnknownNode,
    /// A port is unknown.
    UnknownPort,
}

/// Errors related to graph specification loading and validation.
#[derive(Debug)]
pub enum GraphError {
    /// The graph specification could not be parsed or loaded.
    ParseError(String),
    /// A port kind mismatch was detected.
    PortKindMismatch(String),
    /// A node has a dangling (unconnected) required input port.
    DanglingPort(String),
    /// A node is unreachable from any source.
    UnreachableNode(String),
    /// A cycle lacks a governing node.
    UngovernedCycle(String),
    /// No sink node emits a terminal artifact.
    MissingSink(String),
    /// An edge or node references an unknown node or kind.
    UnknownNode(String),
    /// An edge references an unknown port.
    UnknownPort(String),
}

impl View for GraphError {
    type V = (GraphErrorKind, Seq<char>);

    open spec fn view(&self) -> (GraphErrorKind, Seq<char>) {
        match self {
            GraphError::ParseError(m) => (GraphErrorKind::ParseError, m@),
            GraphError::PortKindMismatch(m) => (GraphErrorKind::PortKindMismatch, m@),
            GraphError::DanglingPort(m) => (GraphErrorKind::DanglingPort, m@),
            GraphError::UnreachableNode(m) => (GraphErrorKind::UnreachableNode, m@),
            GraphError::UngovernedCycle(m) => (GraphErrorKind::UngovernedCycle, m@),
            GraphError::MissingSink(m) => (GraphErrorKind::MissingSink, m@),
            GraphError::UnknownNode(m) => (GraphErrorKind::UnknownNode, m@),
            GraphError::UnknownPort(m) => (GraphErrorKind::UnknownPort, m@),
        }
    }
}

/// The text that prefixes the message of each kind of graph error.
pub open spec fn graph_error_prefix(k: GraphErrorKind) -> Seq<char> {
    match k {
        GraphErrorKind::ParseError => Seq::empty(),
        GraphErrorKind::PortKindMismatch => "Port kind mismatch: "@,
        GraphErrorKind::DanglingPort => "Dangling port: "@,
        GraphErrorKind::UnreachableNode => "Unreachable node: "@,
        GraphErrorKind::UngovernedCycle => "Ungoverned cycle detected: "@,
        GraphErrorKind::MissingSink => "No sink node found: "@,
        GraphErrorKind::UnknownNode => "Unknown node referenced: "@,
        GraphErrorKind::UnknownPort => "Unknown port: "@,
    }
}

impl GraphError {
    /// Build an error of kind `k` with message `msg`.
    pub fn from_kind(k: GraphErrorKind, msg: String) -> (e: Self)
        ensures
            e@ == (k, msg@),
    {
        match k {
            GraphErrorKind::ParseError => GraphError::ParseError(msg),
            GraphErrorKind::PortKindMismatch => GraphError::PortKindMismatch(msg),
            GraphErrorKind::DanglingPort => GraphError::DanglingPort(msg),
            GraphErrorKind::UnreachableNode => GraphError::UnreachableNode(msg),
            GraphErrorKind::UngovernedCycle => GraphError::UngovernedCycle(msg),
            GraphErrorKind::MissingSink => GraphError::MissingSink(msg),
            GraphErrorKind::UnknownNode => GraphError::UnknownNode(msg),
            GraphErrorKind::UnknownPort => GraphError::UnknownPort(msg),
        }
    }

    /// The category of this error.
    pub fn kind(&self) -> (k: GraphErrorKind)
        ensures
            k == self@.0,
    {
        match self {
            GraphError::ParseError(_) => GraphErrorKind::ParseError,
            GraphError::PortKindMismatch(_) => GraphErrorKind::PortKindMismatch,
            GraphError::DanglingPort(_) => GraphErrorKind::DanglingPort,
            GraphError::UnreachableNode(_) => GraphErrorKind::UnreachableNode,
            GraphError::UngovernedCycle(_) => GraphErrorKind::UngovernedCycle,
            GraphError::MissingSink(_) => GraphErrorKind::MissingSink,
            GraphError::UnknownNode(_) => GraphErrorKind::UnknownNode,
            GraphError::UnknownPort(_) => GraphErrorKind::UnknownPort,
        }
    }

    /// The message carried by this error.
    pub fn message(&self) -> (m: &str)
        ensures
            m@ == self@.1,
    {
        match self {
            GraphError::ParseError(m) => m.as_str(),
            GraphError::PortKindMismatch(m) => m.as_str(),
            GraphError::DanglingPort(m) => m.as_str(),
            GraphError::UnreachableNode(m) => m.as_str(),
            GraphError::UngovernedCycle(m) => m.as_str(),
            GraphError::MissingSink(m) => m.as_str(),
            GraphError::UnknownNode(m) => m.as_str(),
            GraphError::UnknownPort(m) => m.as_str(),
        }
    }

    /// The human-readable form: a prefix naming the category, then the
    /// message.
    pub fn to_string(&self) -> (r: String)
        ensures
            r@ == graph_error_prefix(self@.0) + self@.1,
    {
        let mut s = match self.kind() {
            GraphErrorKind::ParseError => String::new(),
            GraphErrorKind::PortKindMismatch => String::from_str("Port kind mismatch: "),
            GraphErrorKind::DanglingPort => String::from_str("Dangling port: "),
            GraphErrorKind::UnreachableNode => String::from_str("Unreachable node: "),
            GraphErrorKind::UngovernedCycle => String::from_str("Ungoverned cycle detected: "),
            GraphErrorKind::MissingSink => String::from_str("No sink node found: "),
            GraphErrorKind::UnknownNode => String::from_str("Unknown node referenced: "),
            GraphErrorKind::UnknownPort => String::from_str("Unknown port: "),
        };
        s.append(self.message());
        s
    }
}

impl Clone for GraphError {
    fn clone(&self) -> (res: Self)
        ensures
            res@ == self@,
    {
        GraphError::from_kind(self.kind(), self.message().to_owned())
    }
}

/// Node `i` is the first node of `nodes` with identifier `id`.
pub open spec fn first_node(nodes: Seq<GraphNodeSpec>, id: Seq<char>, i: int) -> bool {
    &&& 0 <= i < nodes.len()
    &&& nodes[i].id@ == id
    &&& forall|j: int| 0 <= j < i ==> nodes[j].id@ != id
}

/// Some node of `nodes` has identifier `id`.
pub open spec fn has_node(nodes: Seq<GraphNodeSpec>, id: Seq<char>) -> bool {
    exists|i: int| 0 <= i < nodes.len() && nodes[i].id@ == id
}

/// The kind of the first node with identifier `id`, if any.
pub open spec fn kind_of_node(nodes: Seq<GraphNodeSpec>, id: Seq<char>) -> Option<Seq<char>> {
    if has_node(nodes, id) {
        Some(nodes[choose|i: int| first_node(nodes, id, i)].kind@)
    } else {
        None
    }
}

/// Some non-feedback edge of `edges` ends at node `id`.
pub open spec fn has_forward_inbound(edges: Seq<Edge>, id: Seq<char>) -> bool {
    exists|k: int| 0 <= k < edges.len() && !edges[k].feedback && edges[k].to_node@ == id
}

/// The identifiers of the source nodes (those without a non-feedback
/// inbound edge), in node order.
pub open spec fn source_ids(nodes: Seq<GraphNodeSpec>, edges: Seq<Edge>) -> Seq<Seq<char>>
    decreases nodes.len(),
{
    if nodes.len() == 0 {
        Seq::empty()
    } else {
        let rest = source_ids(nodes.drop_last(), edges);
        if has_forward_inbound(edges, nodes.last().id@) {
            rest
        } else {
            rest.push(nodes.last().id@)
        }
    }
}

/// Find the first node with identifier `id`.
pub(crate) fn find_node(nodes: &Vec<GraphNodeSpec>, id: &str) -> (r: Option<usize>)
    ensures
        match r {
            Some(i) => first_node(nodes@, id@, i as int) && kind_of_node(nodes@, id@) == Some(
                nodes@[i as int].kind@,
            ),
            None => !has_node(nodes@, id@) && kind_of_node(nodes@, id@) is None,
        },
{
    let target = id.to_owned();
    let mut i: usize = 0;
    while i < nodes.len()
        invariant
            0 <= i <= nodes.len(),
            target@ == id@,
            forall|j: int| 0 <= j < i ==> nodes@[j].id@ != id@,
        decreases nodes.len() - i,
    {
        if nodes[i].id == target {
            proof {
                assert(first_node(nodes@, id@, i as int));
                let k = choose|k: int| first_node(nodes@, id@, k);
                assert(k == i) by {
                    if k < i {
                    } else if k > i {
                    }
                }
            }
            return Some(i);
        }
        i = i + 1;
    }
    None
}

/// Whether some non-feedback edge ends at node `id`.
pub(crate) fn forward_inbound(edges: &Vec<Edge>, id: &String) -> (r: bool)
    ensures
        r == has_forward_inbound(edges@, id@),
{
    let mut k: usize = 0;
    while k < edges.len()
        invariant
            0 <= k <= edges.len(),
            forall|j: int| 0 <= j < k ==> edges@[j].feedback || edges@[j].to_node@ != id@,
        decreases edges.len() - k,
    {
        if !edges[k].feedback && edges[k].to_node == *id {
            return true;
        }
        k = k + 1;
    }
    false
}

impl GraphSpec {
    /// The kind of the first node with identifier `id`.
    pub fn node_kind(&self, id: &str) -> (r: Option<&str>)
        ensures
            match r {
                Some(k) => kind_of_node(self.nodes@, id@) == Some(k@),
                None => kind_of_node(self.nodes@, id@) is None,
            },
    {
        match find_node(&self.nodes, id) {
            Some(i) => Some(self.nodes[i].kind.as_str()),
            None => None,
        }
    }

    /// The nodes without a non-feedback inbound edge, in node order. These
    /// receive the initial goal; feedback edges alone do not make a node a
    /// non-source.
    pub fn source_node_ids(&self) -> (r: Vec<String>)
        ensures
            r@.map_values(|s: String| s@) == source_ids(self.nodes@, self.edges@),
    {
        let mut out: Vec<String> = Vec::new();
        let mut i: usize = 0;
        while i < self.nodes.len()
            invariant
                0 <= i <= self.nodes.len(),
                out@.map_values(|s: String| s@) == source_ids(
                    self.nodes@.subrange(0, i as int),
                    self.edges@,
                ),
            decreases self.nodes.len() - i,
        {
            let ghost pre = out@;
            assert(self.nodes@.subrange(0, i + 1).drop_last() =~= self.nodes@.subrange(0, i as int));
            if !forward_inbound(&self.edges, &self.nodes[i].id) {
                out.push(self.nodes[i].id.clone());
                assert(out@.map_values(|s: String| s@) =~= pre.map_values(|s: String| s@).push(
                    self.nodes@[i as int].id@,
                ));
            }
            i = i + 1;
        }
        assert(self.nodes@.subrange(0, self.nodes@.len() as int) =~= self.nodes@);
        out
    }
}

} // verus!
