//! The graph validator: structural checks on a graph specification made
//! before any node runs.
//!
//! 1. Every edge joins ports whose artifact kinds agree.
//! 2. Every required input port has an inbound edge (goal inputs excepted).
//! 3. Every node is reachable from a source.
//! 3b. Every node kind is registered (when the registry is not empty).
//! 4. Some node emits a terminal artifact (when the registry is not empty).
//!
//! Edges that name unknown nodes are reported first and stop the checks.
use vstd::prelude::*;
use vstd::string::*;
use crate::graph::edge::Edge;
use crate::text::{debug_form, debug_quote};
use crate::graph::port::{lookup_kind, required_names, strs, PortSpec};
use crate::graph::spec::{
    find_node, has_node, kind_of_node, source_ids, GraphError, GraphErrorKind, GraphNodeSpec, GraphSpec,
};

verus! {

/// One registered node kind and its port specification.
struct RegistryEntry {
    kind: String,
    spec: PortSpec,
}

/// A registry mapping node kind strings to their port specifications.
pub struct PortRegistry {
    entries: Vec<RegistryEntry>,
}

/// Each kind occurs at most once in `entries`.
spec fn kinds_unique(entries: Seq<RegistryEntry>) -> bool {
    forall|i: int, j: int| 0 <= i < j < entries.len() ==> entries[i].kind@ != entries[j].kind@
}

/// The specification registered for `kind` in `entries`, if any.
spec fn lookup_in(entries: Seq<RegistryEntry>, kind: Seq<char>) -> Option<PortSpec> {
    if exists|i: int| 0 <= i < entries.len() && entries[i].kind@ == kind {
        Some(entries[choose|i: int| 0 <= i < entries.len() && entries[i].kind@ == kind].spec)
    } else {
        None
    }
}

/// With unique kinds, the entry at `i` is what a lookup of its kind finds.
proof fn lemma_lookup_at(entries: Seq<RegistryEntry>, i: int)
    requires
        kinds_unique(entries),
        0 <= i < entries.len(),
    ensures
        lookup_in(entries, entries[i].kind@) == Some(entries[i].spec),
{
    let k = entries[i].kind@;
    let j = choose|j: int| 0 <= j < entries.len() && entries[j].kind@ == k;
    if j < i {
    } else if j > i {
    }
}

impl PortRegistry {
    /// Each kind is registered at most once.
    #[verifier::type_invariant]
    closed spec fn unique_kinds(self) -> bool {
        kinds_unique(self.entries@)
    }

    /// The port specification registered for `kind`, if any.
    pub closed spec fn lookup(self, kind: Seq<char>) -> Option<PortSpec> {
        lookup_in(self.entries@, kind)
    }

    /// The index of the entry registered for `kind`.
    fn index_of(&self, kind: &str) -> (r: Option<usize>)
        ensures
            match r {
                Some(i) => i < self.entries@.len() && self.entries@[i as int].kind@ == kind@
                    && self.lookup(kind@) == Some(self.entries@[i as int].spec),
                None => forall|j: int| 0 <= j < self.entries@.len() ==> self.entries@[j].kind@ != kind@,
            },
            r is None ==> self.lookup(kind@) is None,
    {
        proof {
            use_type_invariant(self);
        }
        let target = kind.to_owned();
        let mut i: usize = 0;
        while i < self.entries.len()
            invariant
                0 <= i <= self.entries.len(),
                target@ == kind@,
                kinds_unique(self.entries@),
                forall|j: int| 0 <= j < i ==> self.entries@[j].kind@ != kind@,
            decreases self.entries.len() - i,
        {
            if self.entries[i].kind == target {
                proof {
                    lemma_lookup_at(self.entries@, i as int);
                }
                return Some(i);
            }
            i = i + 1;
        }
        None
    }
}

/// No kind is registered.
pub open spec fn registry_empty(reg: PortRegistry) -> bool {
    forall|k: Seq<char>| reg.lookup(k) is None
}

/// Some registered node kind has an input port of artifact kind `kind`.
pub open spec fn consumed_kind(reg: PortRegistry, kind: Seq<char>) -> bool {
    exists|k: Seq<char>| #[trigger] reg.lookup(k) matches Some(ps) && has_input_of_kind(ps, kind)
}

/// Some input port of `ps` carries artifact kind `kind`.
pub open spec fn has_input_of_kind(ps: PortSpec, kind: Seq<char>) -> bool {
    exists|j: int| 0 <= j < ps.inputs@.len() && ps.inputs@[j].kind@ == kind
}

impl PortRegistry {
    /// An empty registry.
    pub fn new() -> (r: Self)
        ensures
            registry_empty(r),
    {
        PortRegistry { entries: Vec::new() }
    }

    /// Register `spec` for `kind`, replacing an earlier registration of the
    /// same kind.
    pub fn register(&mut self, kind: String, spec: PortSpec)
        ensures
            final(self).lookup(kind@) == Some(spec),
            forall|k: Seq<char>| k != kind@ ==> final(self).lookup(k) == old(self).lookup(k),
    {
        proof {
            use_type_invariant(&*self);
        }
        let ghost old_entries = self.entries@;
        let found = self.index_of(kind.as_str());
        let mut entries = Vec::new();
        std::mem::swap(&mut entries, &mut self.entries);
        let ghost new_entry = RegistryEntry { kind, spec };
        match found {
            Some(i) => {
                entries.set(i, RegistryEntry { kind, spec });
            },
            None => {
                entries.push(RegistryEntry { kind, spec });
            },
        }
        proof {
            let e = entries@;
            assert(kinds_unique(e));
            let at: int = match found {
                Some(i) => i as int,
                None => old_entries.len() as int,
            };
            assert(e[at].kind@ == kind@);
            lemma_lookup_at(e, at);
            assert forall|k: Seq<char>| k != kind@ implies lookup_in(e, k) == lookup_in(old_entries, k) by {
                if exists|j: int| 0 <= j < e.len() && e[j].kind@ == k {
                    let j = choose|j: int| 0 <= j < e.len() && e[j].kind@ == k;
                    assert(old_entries[j].kind@ == k);
                    lemma_lookup_at(e, j);
                    lemma_lookup_at(old_entries, j);
                }
                if exists|j: int| 0 <= j < old_entries.len() && old_entries[j].kind@ == k {
                    let j = choose|j: int| 0 <= j < old_entries.len() && old_entries[j].kind@ == k;
                    assert(e[j].kind@ == k);
                }
            }
        }
        self.entries = entries;
    }

    /// The port specification registered for `kind`.
    pub fn get(&self, kind: &str) -> (r: Option<&PortSpec>)
        ensures
            match r {
                Some(p) => self.lookup(kind@) == Some(*p),
                None => self.lookup(kind@) is None,
            },
    {
        match self.index_of(kind) {
            Some(i) => Some(&self.entries[i].spec),
            None => None,
        }
    }

    /// Whether no kind is registered.
    pub fn is_empty(&self) -> (r: bool)
        ensures
            r == registry_empty(*self),
    {
        if self.entries.len() == 0 {
            assert forall|k: Seq<char>| self.lookup(k) is None by {}
            true
        } else {
            proof {
                use_type_invariant(self);
                lemma_lookup_at(self.entries@, 0);
                assert(self.lookup(self.entries@[0].kind@) is Some);
            }
            false
        }
    }
}

/// The outcome of validating a graph specification.
pub struct ValidationResult {
    /// Whether the graph is structurally valid.
    pub valid: bool,
    /// The errors found, in the order the checks found them.
    pub errors: Vec<GraphError>,
}

impl ValidationResult {
    /// A valid result with no errors.
    pub fn valid() -> (r: Self)
        ensures
            r.valid,
            r.errors@.len() == 0,
    {
        ValidationResult { valid: true, errors: Vec::new() }
    }

    /// An invalid result carrying `errors`.
    pub fn invalid(errors: Vec<GraphError>) -> (r: Self)
        ensures
            !r.valid,
            r.errors@ == errors@,
    {
        ValidationResult { valid: false, errors }
    }
}

/// The views of a sequence of errors.
pub open spec fn error_views(s: Seq<GraphError>) -> Seq<(GraphErrorKind, Seq<char>)> {
    s.map_values(|e: GraphError| e@)
}

pub open spec fn msg_edge_source(n: Seq<char>) -> Seq<char> {
    "Edge source '"@ + n + "' not found in node list"@
}

pub open spec fn msg_edge_target(n: Seq<char>) -> Seq<char> {
    "Edge target '"@ + n + "' not found in node list"@
}

/// The errors for edges that name nodes absent from `nodes`, in edge order:
/// for each edge, its source first, then its target.
pub open spec fn unknown_endpoint_errors(nodes: Seq<GraphNodeSpec>, edges: Seq<Edge>) -> Seq<
    (GraphErrorKind, Seq<char>),
>
    decreases edges.len(),
{
    if edges.len() == 0 {
        Seq::empty()
    } else {
        let rest = unknown_endpoint_errors(nodes, edges.drop_last());
        let e = edges.last();
        let a = if has_node(nodes, e.from_node@) {
            rest
        } else {
            rest.push((GraphErrorKind::UnknownNode, msg_edge_source(e.from_node@)))
        };
        if has_node(nodes, e.to_node@) {
            a
        } else {
            a.push((GraphErrorKind::UnknownNode, msg_edge_target(e.to_node@)))
        }
    }
}

pub open spec fn msg_kind_mismatch(e: Edge, out_kind: Seq<char>, in_kind: Seq<char>) -> Seq<char> {
    "Edge "@ + e.from_node@ + ":"@ + e.from_port@ + " → "@ + e.to_node@ + ":"@ + e.to_port@
        + ": output kind "@ + debug_form(out_kind) + " != input kind "@ + debug_form(in_kind)
}

pub open spec fn msg_no_output(e: Edge, from_kind: Seq<char>) -> Seq<char> {
    "Output port '"@ + e.from_node@ + "."@ + e.from_port@ + "' not found on node '"@ + e.from_node@
        + "' (kind: "@ + from_kind + ")"@
}

pub open spec fn msg_no_input(e: Edge, to_kind: Seq<char>) -> Seq<char> {
    "Input port '"@ + e.to_node@ + "."@ + e.to_port@ + "' not found on node '"@ + e.to_node@
        + "' (kind: "@ + to_kind + ")"@
}

/// The port-kind errors of one edge: when both endpoint kinds are
/// registered, a missing output port, a missing input port, or differing
/// artifact kinds.
pub open spec fn edge_kind_errors(nodes: Seq<GraphNodeSpec>, reg: PortRegistry, e: Edge) -> Seq<
    (GraphErrorKind, Seq<char>),
> {
    match (kind_of_node(nodes, e.from_node@), kind_of_node(nodes, e.to_node@)) {
        (Some(fk), Some(tk)) => match (reg.lookup(fk), reg.lookup(tk)) {
            (Some(fs), Some(ts)) => match (
                lookup_kind(fs.outputs@, e.from_port@),
                lookup_kind(ts.inputs@, e.to_port@),
            ) {
                (Some(ok), Some(ik)) => if ok != ik {
                    seq![(GraphErrorKind::PortKindMismatch, msg_kind_mismatch(e, ok, ik))]
                } else {
                    Seq::empty()
                },
                (None, _) => seq![(GraphErrorKind::UnknownPort, msg_no_output(e, fk))],
                (Some(_), None) => seq![(GraphErrorKind::UnknownPort, msg_no_input(e, tk))],
            },
            _ => Seq::empty(),
        },
        _ => Seq::empty(),
    }
}

/// The port-kind errors of all edges, in edge order.
pub open spec fn kind_errors(nodes: Seq<GraphNodeSpec>, reg: PortRegistry, edges: Seq<Edge>) -> Seq<
    (GraphErrorKind, Seq<char>),
>
    decreases edges.len(),
{
    if edges.len() == 0 {
        Seq::empty()
    } else {
        kind_errors(nodes, reg, edges.drop_last()) + edge_kind_errors(nodes, reg, edges.last())
    }
}

/// Append an error of kind `k` with message `m`.
fn push_error(errors: &mut Vec<GraphError>, k: GraphErrorKind, m: String)
    ensures
        error_views(final(errors)@) == error_views(old(errors)@).push((k, m@)),
{
    errors.push(GraphError::from_kind(k, m));
    proof {
        assert(error_views(errors@) =~= error_views(old(errors)@).push((k, m@)));
    }
}

/// Check every edge's endpoints against the node list.
fn check_endpoints(spec: &GraphSpec, errors: &mut Vec<GraphError>)
    ensures
        error_views(final(errors)@) == error_views(old(errors)@) + unknown_endpoint_errors(
            spec.nodes@,
            spec.edges@,
        ),
{
    let mut k: usize = 0;
    while k < spec.edges.len()
        invariant
            0 <= k <= spec.edges.len(),
            error_views(errors@) == error_views(old(errors)@) + unknown_endpoint_errors(
                spec.nodes@,
                spec.edges@.subrange(0, k as int),
            ),
        decreases spec.edges.len() - k,
    {
        let e = &spec.edges[k];
        let ghost pre = error_views(errors@);
        assert(spec.edges@.subrange(0, k + 1).drop_last() =~= spec.edges@.subrange(0, k as int));
        if find_node(&spec.nodes, e.from_node.as_str()).is_none() {
            let mut m = String::from_str("Edge source '");
            m.append(e.from_node.as_str());
            m.append("' not found in node list");
            push_error(errors, GraphErrorKind::UnknownNode, m);
        }
        if find_node(&spec.nodes, e.to_node.as_str()).is_none() {
            let mut m = String::from_str("Edge target '");
            m.append(e.to_node.as_str());
            m.append("' not found in node list");
            push_error(errors, GraphErrorKind::UnknownNode, m);
        }
        proof {
            let base = error_views(old(errors)@);
            let r = unknown_endpoint_errors(spec.nodes@, spec.edges@.subrange(0, k as int));
            let r2 = unknown_endpoint_errors(spec.nodes@, spec.edges@.subrange(0, k + 1));
            assert(error_views(errors@) =~= base + r2);
        }
        k = k + 1;
    }
    assert(spec.edges@.subrange(0, spec.edges@.len() as int) =~= spec.edges@);
}

/// The port-kind errors of edge `e`, appended to `errors`.
fn check_edge_kinds(spec: &GraphSpec, reg: &PortRegistry, e: &Edge, errors: &mut Vec<GraphError>)
    ensures
        error_views(final(errors)@) == error_views(old(errors)@) + edge_kind_errors(
            spec.nodes@,
            *reg,
            *e,
        ),
{
    let fk = spec.node_kind(e.from_node.as_str());
    let tk = spec.node_kind(e.to_node.as_str());
    if let (Some(fk), Some(tk)) = (fk, tk) {
        let fs = reg.get(fk);
        let ts = reg.get(tk);
        if let (Some(fs), Some(ts)) = (fs, ts) {
            let ok = fs.output_kind(e.from_port.as_str());
            let ik = ts.input_kind(e.to_port.as_str());
            match (ok, ik) {
                (Some(o), Some(i)) => {
                    if o != i {
                        let mut m = String::from_str("Edge ");
                        m.append(e.from_node.as_str());
                        m.append(":");
                        m.append(e.from_port.as_str());
                        m.append(" → ");
                        m.append(e.to_node.as_str());
                        m.append(":");
                        m.append(e.to_port.as_str());
                        m.append(": output kind ");
                        let qo = debug_quote(o.as_str());
                        m.append(qo.as_str());
                        m.append(" != input kind ");
                        let qi = debug_quote(i.as_str());
                        m.append(qi.as_str());
                        push_error(errors, GraphErrorKind::PortKindMismatch, m);
                    }
                },
                (None, _) => {
                    let mut m = String::from_str("Output port '");
                    m.append(e.from_node.as_str());
                    m.append(".");
                    m.append(e.from_port.as_str());
                    m.append("' not found on node '");
                    m.append(e.from_node.as_str());
                    m.append("' (kind: ");
                    m.append(fk);
                    m.append(")");
                    push_error(errors, GraphErrorKind::UnknownPort, m);
                },
                (Some(_), None) => {
                    let mut m = String::from_str("Input port '");
                    m.append(e.to_node.as_str());
                    m.append(".");
                    m.append(e.to_port.as_str());
                    m.append("' not found on node '");
                    m.append(e.to_node.as_str());
                    m.append("' (kind: ");
                    m.append(tk);
                    m.append(")");
                    push_error(errors, GraphErrorKind::UnknownPort, m);
                },
            }
        }
    }
    assert(error_views(errors@) =~= error_views(old(errors)@) + edge_kind_errors(spec.nodes@, *reg, *e));
}

/// Check the artifact kinds along every edge.
fn check_kinds(spec: &GraphSpec, reg: &PortRegistry, errors: &mut Vec<GraphError>)
    ensures
        error_views(final(errors)@) == error_views(old(errors)@) + kind_errors(
            spec.nodes@,
            *reg,
            spec.edges@,
        ),
{
    let mut k: usize = 0;
    while k < spec.edges.len()
        invariant
            0 <= k <= spec.edges.len(),
            error_views(errors@) == error_views(old(errors)@) + kind_errors(
                spec.nodes@,
                *reg,
                spec.edges@.subrange(0, k as int),
            ),
        decreases spec.edges.len() - k,
    {
        assert(spec.edges@.subrange(0, k + 1).drop_last() =~= spec.edges@.subrange(0, k as int));
        check_edge_kinds(spec, reg, &spec.edges[k], errors);
        assert(error_views(errors@) =~= error_views(old(errors)@) + kind_errors(
            spec.nodes@,
            *reg,
            spec.edges@.subrange(0, k + 1),
        ));
        k = k + 1;
    }
    assert(spec.edges@.subrange(0, spec.edges@.len() as int) =~= spec.edges@);
}

/// Some input port of `ps` named `port` accepts the `Goal` kind.
pub open spec fn accepts_goal(ps: PortSpec, port: Seq<char>) -> bool {
    exists|j: int|
        0 <= j < ps.inputs@.len() && ps.inputs@[j].name@ == port && ps.inputs@[j].kind@ == "Goal"@
}

/// Some edge ends at input `port` of node `id`.
pub open spec fn has_inbound_on(edges: Seq<Edge>, id: Seq<char>, port: Seq<char>) -> bool {
    exists|k: int| 0 <= k < edges.len() && edges[k].to_node@ == id && edges[k].to_port@ == port
}

pub open spec fn msg_dangling(id: Seq<char>, kind: Seq<char>, port: Seq<char>) -> Seq<char> {
    "Node '"@ + id + "' (kind: "@ + kind + ") requires input '"@ + port
        + "' but has no inbound edges"@
}

/// The dangling-port errors of node `n` with ports `ps`, over the required
/// input names `reqs` in order.
pub open spec fn node_dangling_errors(
    n: GraphNodeSpec,
    ps: PortSpec,
    edges: Seq<Edge>,
    reqs: Seq<Seq<char>>,
) -> Seq<(GraphErrorKind, Seq<char>)>
    decreases reqs.len(),
{
    if reqs.len() == 0 {
        Seq::empty()
    } else {
        let rest = node_dangling_errors(n, ps, edges, reqs.drop_last());
        let p = reqs.last();
        if accepts_goal(ps, p) || has_inbound_on(edges, n.id@, p) {
            rest
        } else {
            rest.push((GraphErrorKind::DanglingPort, msg_dangling(n.id@, n.kind@, p)))
        }
    }
}

/// The dangling-port errors of all nodes with a registered kind, in node
/// order.
pub open spec fn dangling_errors(nodes: Seq<GraphNodeSpec>, reg: PortRegistry, edges: Seq<Edge>) -> Seq<
    (GraphErrorKind, Seq<char>),
>
    decreases nodes.len(),
{
    if nodes.len() == 0 {
        Seq::empty()
    } else {
        dangling_errors(nodes.drop_last(), reg, edges) + match reg.lookup(nodes.last().kind@) {
            Some(ps) => node_dangling_errors(
                nodes.last(),
                ps,
                edges,
                required_names(ps.inputs@),
            ),
            None => Seq::empty(),
        }
    }
}

/// Whether an input of `ps` named `port` accepts the `Goal` kind.
fn accepts_goal_port(ps: &PortSpec, port: &String) -> (r: bool)
    ensures
        r == accepts_goal(*ps, port@),
{
    let goal = String::from_str("Goal");
    let mut j: usize = 0;
    while j < ps.inputs.len()
        invariant
            0 <= j <= ps.inputs.len(),
            goal@ == "Goal"@,
            forall|i: int|
                0 <= i < j ==> !(ps.inputs@[i].name@ == port@ && ps.inputs@[i].kind@ == "Goal"@),
        decreases ps.inputs.len() - j,
    {
        if ps.inputs[j].name == *port && ps.inputs[j].kind == goal {
            return true;
        }
        j = j + 1;
    }
    false
}

/// Whether some edge ends at input `port` of node `id`.
fn inbound_on(edges: &Vec<Edge>, id: &String, port: &String) -> (r: bool)
    ensures
        r == has_inbound_on(edges@, id@, port@),
{
    let mut k: usize = 0;
    while k < edges.len()
        invariant
            0 <= k <= edges.len(),
            forall|i: int| 0 <= i < k ==> !(edges@[i].to_node@ == id@ && edges@[i].to_port@ == port@),
        decreases edges.len() - k,
    {
        if edges[k].to_node == *id && edges[k].to_port == *port {
            return true;
        }
        k = k + 1;
    }
    false
}

/// The dangling-port errors of node `n` with ports `ps`, appended to
/// `errors`.
fn check_node_dangling(n: &GraphNodeSpec, ps: &PortSpec, edges: &Vec<Edge>, errors: &mut Vec<GraphError>)
    ensures
        error_views(final(errors)@) == error_views(old(errors)@) + node_dangling_errors(
            *n,
            *ps,
            edges@,
            required_names(ps.inputs@),
        ),
{
    let reqs = ps.required_inputs();
    let ghost rs = reqs@.map_values(|s: String| s@);
    let mut i: usize = 0;
    while i < reqs.len()
        invariant
            0 <= i <= reqs.len(),
            rs == reqs@.map_values(|s: String| s@),
            rs == required_names(ps.inputs@),
            error_views(errors@) == error_views(old(errors)@) + node_dangling_errors(
                *n,
                *ps,
                edges@,
                rs.subrange(0, i as int),
            ),
        decreases reqs.len() - i,
    {
        assert(rs.subrange(0, i + 1).drop_last() =~= rs.subrange(0, i as int));
        assert(rs[i as int] == reqs@[i as int]@);
        let p = &reqs[i];
        if !accepts_goal_port(ps, p) && !inbound_on(edges, &n.id, p) {
            let mut m = String::from_str("Node '");
            m.append(n.id.as_str());
            m.append("' (kind: ");
            m.append(n.kind.as_str());
            m.append(") requires input '");
            m.append(p.as_str());
            m.append("' but has no inbound edges");
            push_error(errors, GraphErrorKind::DanglingPort, m);
        }
        assert(error_views(errors@) =~= error_views(old(errors)@) + node_dangling_errors(
            *n,
            *ps,
            edges@,
            rs.subrange(0, i + 1),
        ));
        i = i + 1;
    }
    assert(rs.subrange(0, rs.len() as int) =~= rs);
}

/// Check every registered node for required inputs without inbound edges.
fn check_dangling(spec: &GraphSpec, reg: &PortRegistry, errors: &mut Vec<GraphError>)
    ensures
        error_views(final(errors)@) == error_views(old(errors)@) + dangling_errors(
            spec.nodes@,
            *reg,
            spec.edges@,
        ),
{
    let mut i: usize = 0;
    while i < spec.nodes.len()
        invariant
            0 <= i <= spec.nodes.len(),
            error_views(errors@) == error_views(old(errors)@) + dangling_errors(
                spec.nodes@.subrange(0, i as int),
                *reg,
                spec.edges@,
            ),
        decreases spec.nodes.len() - i,
    {
        assert(spec.nodes@.subrange(0, i + 1).drop_last() =~= spec.nodes@.subrange(0, i as int));
        let n = &spec.nodes[i];
        match reg.get(n.kind.as_str()) {
            Some(ps) => {
                check_node_dangling(n, ps, &spec.edges, errors);
            },
            None => {},
        }
        assert(error_views(errors@) =~= error_views(old(errors)@) + dangling_errors(
            spec.nodes@.subrange(0, i + 1),
            *reg,
            spec.edges@,
        ));
        i = i + 1;
    }
    assert(spec.nodes@.subrange(0, spec.nodes@.len() as int) =~= spec.nodes@);
}

/// The kind registered for node `n` has an input that accepts `Goal`.
pub open spec fn goal_node(reg: PortRegistry, n: GraphNodeSpec) -> bool {
    reg.lookup(n.kind@) matches Some(ps) && has_input_of_kind(ps, "Goal"@)
}

/// The identifiers of the nodes that accept a goal, in node order.
pub open spec fn goal_ids(nodes: Seq<GraphNodeSpec>, reg: PortRegistry) -> Seq<Seq<char>>
    decreases nodes.len(),
{
    if nodes.len() == 0 {
        Seq::empty()
    } else {
        let rest = goal_ids(nodes.drop_last(), reg);
        if goal_node(reg, nodes.last()) {
            rest.push(nodes.last().id@)
        } else {
            rest
        }
    }
}

/// Where reachability starts: the goal-accepting nodes, or, when there are
/// none, the nodes without a non-feedback inbound edge.
pub open spec fn start_ids(nodes: Seq<GraphNodeSpec>, edges: Seq<Edge>, reg: PortRegistry) -> Seq<
    Seq<char>,
> {
    let g = goal_ids(nodes, reg);
    if g.len() > 0 {
        g
    } else {
        source_ids(nodes, edges)
    }
}

/// Some edge leads from node `a` to node `b`.
pub open spec fn linked(edges: Seq<Edge>, a: Seq<char>, b: Seq<char>) -> bool {
    exists|k: int| 0 <= k < edges.len() && edges[k].from_node@ == a && edges[k].to_node@ == b
}

/// Step `i` of walk `p` follows an edge.
pub open spec fn walk_step(edges: Seq<Edge>, p: Seq<Seq<char>>, i: int) -> bool {
    linked(edges, p[i], p[i + 1])
}

/// `p` is a non-empty walk along `edges`.
pub open spec fn is_walk(edges: Seq<Edge>, p: Seq<Seq<char>>) -> bool {
    &&& p.len() > 0
    &&& forall|i: int| 0 <= i < p.len() - 1 ==> #[trigger] walk_step(edges, p, i)
}

/// Node `x` is reachable along `edges` from one of `starts`.
pub open spec fn reachable(starts: Seq<Seq<char>>, edges: Seq<Edge>, x: Seq<char>) -> bool {
    exists|p: Seq<Seq<char>>| #[trigger] is_walk(edges, p) && starts.contains(p[0]) && p.last() == x
}

pub open spec fn msg_no_sources() -> Seq<char> {
    "Graph has no source nodes (no node accepts a Goal artifact, and all nodes have inbound edges)"@
}

pub open spec fn msg_unreachable(id: Seq<char>, kind: Seq<char>) -> Seq<char> {
    "Node '"@ + id + "' (kind: "@ + kind + ") is not reachable from any source node"@
}

/// The errors for nodes not reachable from `starts`, in node order.
pub open spec fn unreached_errors(nodes: Seq<GraphNodeSpec>, starts: Seq<Seq<char>>, edges: Seq<Edge>) -> Seq<
    (GraphErrorKind, Seq<char>),
>
    decreases nodes.len(),
{
    if nodes.len() == 0 {
        Seq::empty()
    } else {
        let rest = unreached_errors(nodes.drop_last(), starts, edges);
        let n = nodes.last();
        if reachable(starts, edges, n.id@) {
            rest
        } else {
            rest.push((GraphErrorKind::UnreachableNode, msg_unreachable(n.id@, n.kind@)))
        }
    }
}

/// The reachability errors: no source at all, or the unreachable nodes.
pub open spec fn reach_errors(nodes: Seq<GraphNodeSpec>, edges: Seq<Edge>, reg: PortRegistry) -> Seq<
    (GraphErrorKind, Seq<char>),
> {
    let starts = start_ids(nodes, edges, reg);
    if starts.len() == 0 {
        seq![(GraphErrorKind::UnreachableNode, msg_no_sources())]
    } else {
        unreached_errors(nodes, starts, edges)
    }
}

/// Every edge out of a member of `vis` leads to a member of `vis`.
pub open spec fn closed_under(vis: Seq<Seq<char>>, edges: Seq<Edge>) -> bool {
    forall|k: int|
        0 <= k < edges.len() && #[trigger] vis.contains(edges[k].from_node@) ==> vis.contains(
            edges[k].to_node@,
        )
}

/// A set closed under the edges that holds a walk's first node holds its
/// last node.
proof fn lemma_closed_holds_walk(vis: Seq<Seq<char>>, edges: Seq<Edge>, p: Seq<Seq<char>>)
    requires
        is_walk(edges, p),
        vis.contains(p[0]),
        closed_under(vis, edges),
    ensures
        vis.contains(p.last()),
    decreases p.len(),
{
    if p.len() > 1 {
        let q = p.drop_last();
        assert forall|i: int| 0 <= i < q.len() - 1 implies #[trigger] walk_step(edges, q, i) by {
            assert(walk_step(edges, p, i));
        }
        lemma_closed_holds_walk(vis, edges, q);
        assert(walk_step(edges, p, p.len() - 2));
        let k = choose|k: int|
            0 <= k < edges.len() && edges[k].from_node@ == p[p.len() - 2] && edges[k].to_node@
                == p[p.len() - 1];
        assert(vis.contains(edges[k].from_node@));
    }
}

/// Extending a walk to `x` by edge `k` keeps `x` reachable.
proof fn lemma_extend_walk(starts: Seq<Seq<char>>, edges: Seq<Edge>, a: Seq<char>, k: int)
    requires
        reachable(starts, edges, a),
        0 <= k < edges.len(),
        edges[k].from_node@ == a,
    ensures
        reachable(starts, edges, edges[k].to_node@),
{
    let p = choose|p: Seq<Seq<char>>| #[trigger] is_walk(edges, p) && starts.contains(p[0]) && p.last() == a;
    let q = p.push(edges[k].to_node@);
    assert forall|i: int| 0 <= i < q.len() - 1 implies #[trigger] walk_step(edges, q, i) by {
        if i < p.len() - 1 {
            assert(walk_step(edges, p, i));
        } else {
            assert(q[i] == a);
        }
    }
    assert(is_walk(edges, q));
    assert(q[0] == p[0]);
}

/// A duplicate-free sequence whose members all occur in `u` is no longer
/// than `u`.
proof fn lemma_nodup_bound(v: Seq<Seq<char>>, u: Seq<Seq<char>>)
    requires
        v.no_duplicates(),
        forall|i: int| 0 <= i < v.len() ==> u.contains(v[i]),
    ensures
        v.len() <= u.len(),
{
    v.unique_seq_to_set();
    u.lemma_cardinality_of_set();
    assert(v.to_set().subset_of(u.to_set())) by {
        assert forall|x: Seq<char>| v.to_set().contains(x) implies u.to_set().contains(x) by {
            let i = choose|i: int| 0 <= i < v.len() && v[i] == x;
        }
    }
    vstd::set_lib::lemma_len_subset(v.to_set(), u.to_set());
}

/// Whether `s` occurs in `v`.
fn contains_string(v: &Vec<String>, s: &String) -> (r: bool)
    ensures
        r == strs(v@).contains(s@),
{
    let mut i: usize = 0;
    while i < v.len()
        invariant
            0 <= i <= v.len(),
            forall|j: int| 0 <= j < i ==> v@[j]@ != s@,
        decreases v.len() - i,
    {
        if v[i] == *s {
            assert(strs(v@)[i as int] == s@);
            return true;
        }
        i = i + 1;
    }
    assert forall|j: int| 0 <= j < strs(v@).len() implies strs(v@)[j] != s@ by {}
    false
}

/// The edge targets, in edge order.
spec fn targets(edges: Seq<Edge>) -> Seq<Seq<char>> {
    edges.map_values(|e: Edge| e.to_node@)
}

/// The nodes reachable from `starts` along `edges`, each once.
fn reachable_from(starts: &Vec<String>, edges: &Vec<Edge>) -> (vis: Vec<String>)
    ensures
        forall|x: Seq<char>| strs(vis@).contains(x) <==> reachable(strs(starts@), edges@, x),
{
    let ghost st = strs(starts@);
    let ghost u = st + targets(edges@);
    let mut vis: Vec<String> = Vec::new();
    let mut i: usize = 0;
    while i < starts.len()
        invariant
            0 <= i <= starts.len(),
            st == strs(starts@),
            u == st + targets(edges@),
            strs(vis@).no_duplicates(),
            forall|j: int| 0 <= j < vis@.len() ==> u.contains(#[trigger] strs(vis@)[j]),
            forall|j: int| 0 <= j < vis@.len() ==> reachable(st, edges@, #[trigger] strs(vis@)[j]),
            forall|j: int| 0 <= j < i ==> strs(vis@).contains(#[trigger] st[j]),
        decreases starts.len() - i,
    {
        if !contains_string(&vis, &starts[i]) {
            let ghost pre = strs(vis@);
            vis.push(starts[i].clone());
            proof {
                let sv = strs(vis@);
                assert(sv =~= pre.push(st[i as int]));
                assert(u[i as int] == st[i as int]);
                let w = seq![st[i as int]];
                assert(is_walk(edges@, w));
                assert(reachable(st, edges@, st[i as int]));
                assert forall|j: int| 0 <= j < sv.len() implies reachable(st, edges@, #[trigger] sv[j]) by {
                    if j < pre.len() {
                        assert(sv[j] == pre[j]);
                    }
                }
                assert forall|j: int| 0 <= j <= i implies sv.contains(#[trigger] st[j]) by {
                    if j < i {
                        assert(pre.contains(st[j]));
                        let t = choose|t: int| 0 <= t < pre.len() && pre[t] == st[j];
                        assert(sv[t] == st[j]);
                    } else {
                        assert(sv[pre.len() as int] == st[j]);
                    }
                }
                assert forall|a: int, b: int| 0 <= a < sv.len() && 0 <= b < sv.len() && a != b implies sv[a]
                    != sv[b] by {
                    if a < pre.len() && b < pre.len() {
                        assert(sv[a] == pre[a] && sv[b] == pre[b]);
                    } else if a < pre.len() {
                        assert(pre.contains(sv[a]));
                    } else if b < pre.len() {
                        assert(pre.contains(sv[b]));
                    }
                }
                assert forall|j: int| 0 <= j < sv.len() implies u.contains(#[trigger] sv[j]) by {
                    if j < pre.len() {
                        assert(sv[j] == pre[j]);
                    }
                }
            }
        } else {
            proof {
                assert forall|j: int| 0 <= j <= i implies strs(vis@).contains(#[trigger] st[j]) by {
                    if j == i {
                        assert(st[j] == starts@[i as int]@);
                    }
                }
            }
        }
        i = i + 1;
    }
    proof {
        lemma_nodup_bound(strs(vis@), u);
    }
    let mut head: usize = 0;
    while head < vis.len()
        invariant
            0 <= head <= vis@.len() <= u.len(),
            st == strs(starts@),
            u == st + targets(edges@),
            strs(vis@).no_duplicates(),
            forall|j: int| 0 <= j < vis@.len() ==> u.contains(#[trigger] strs(vis@)[j]),
            forall|j: int| 0 <= j < vis@.len() ==> reachable(st, edges@, #[trigger] strs(vis@)[j]),
            forall|j: int| 0 <= j < st.len() ==> strs(vis@).contains(#[trigger] st[j]),
            forall|h: int, k: int|
                0 <= h < head && 0 <= k < edges@.len() && edges@[k].from_node@ == #[trigger] strs(
                    vis@,
                )[h] ==> strs(vis@).contains(#[trigger] edges@[k].to_node@),
        decreases u.len() - head,
    {
        let cur = vis[head].clone();
        let mut k: usize = 0;
        while k < edges.len()
            invariant
                0 <= head < vis@.len(),
                0 <= k <= edges@.len(),
                cur@ == strs(vis@)[head as int],
                st == strs(starts@),
                u == st + targets(edges@),
                strs(vis@).no_duplicates(),
                forall|j: int| 0 <= j < vis@.len() ==> u.contains(#[trigger] strs(vis@)[j]),
                forall|j: int| 0 <= j < vis@.len() ==> reachable(st, edges@, #[trigger] strs(vis@)[j]),
                forall|j: int| 0 <= j < st.len() ==> strs(vis@).contains(#[trigger] st[j]),
                forall|h: int, kk: int|
                    0 <= h < head && 0 <= kk < edges@.len() && edges@[kk].from_node@ == #[trigger] strs(
                        vis@,
                    )[h] ==> strs(vis@).contains(#[trigger] edges@[kk].to_node@),
                forall|kk: int|
                    0 <= kk < k && edges@[kk].from_node@ == cur@ ==> strs(vis@).contains(
                        #[trigger] edges@[kk].to_node@,
                    ),
            decreases edges@.len() - k,
        {
            if edges[k].from_node == cur && !contains_string(&vis, &edges[k].to_node) {
                let ghost pre = strs(vis@);
                vis.push(edges[k].to_node.clone());
                proof {
                    let sv = strs(vis@);
                    let x = edges@[k as int].to_node@;
                    assert(sv =~= pre.push(x));
                    assert(pre[head as int] == cur@);
                    lemma_extend_walk(st, edges@, cur@, k as int);
                    assert(targets(edges@)[k as int] == x);
                    assert(u[st.len() + k] == x);
                    assert forall|j: int| 0 <= j < sv.len() implies reachable(st, edges@, #[trigger] sv[j]) by {
                        if j < pre.len() {
                            assert(sv[j] == pre[j]);
                        }
                    }
                    assert forall|j: int| 0 <= j < sv.len() implies u.contains(#[trigger] sv[j]) by {
                        if j < pre.len() {
                            assert(sv[j] == pre[j]);
                        }
                    }
                    assert forall|a: int, b: int| 0 <= a < sv.len() && 0 <= b < sv.len() && a != b implies sv[a]
                        != sv[b] by {
                        if a < pre.len() && b < pre.len() {
                            assert(sv[a] == pre[a] && sv[b] == pre[b]);
                        } else if a < pre.len() {
                            assert(pre.contains(sv[a]));
                        } else if b < pre.len() {
                            assert(pre.contains(sv[b]));
                        }
                    }
                    assert forall|y: Seq<char>| pre.contains(y) implies sv.contains(y) by {
                        let t = choose|t: int| 0 <= t < pre.len() && pre[t] == y;
                        assert(sv[t] == y);
                    }
                    assert forall|j: int| 0 <= j < st.len() implies sv.contains(#[trigger] st[j]) by {
                        assert(pre.contains(st[j]));
                    }
                    assert forall|h: int, kk: int|
                        0 <= h < head && 0 <= kk < edges@.len() && edges@[kk].from_node@ == #[trigger] sv[h]
                            implies sv.contains(#[trigger] edges@[kk].to_node@) by {
                        assert(sv[h] == pre[h]);
                        assert(pre.contains(edges@[kk].to_node@));
                    }
                    assert forall|kk: int|
                        0 <= kk <= k && edges@[kk].from_node@ == cur@ implies sv.contains(
                            #[trigger] edges@[kk].to_node@,
                        ) by {
                        if kk < k {
                            assert(pre.contains(edges@[kk].to_node@));
                        } else {
                            assert(sv[pre.len() as int] == x);
                        }
                    }
                    lemma_nodup_bound(sv, u);
                }
            }
            k = k + 1;
        }
        proof {
            lemma_nodup_bound(strs(vis@), u);
            let sv = strs(vis@);
            assert forall|h: int, kk: int|
                0 <= h < head + 1 && 0 <= kk < edges@.len() && edges@[kk].from_node@ == #[trigger] sv[h]
                    implies sv.contains(#[trigger] edges@[kk].to_node@) by {
                if h == head {
                    assert(edges@[kk].from_node@ == cur@);
                }
            }
        }
        head = head + 1;
    }
    proof {
        let sv = strs(vis@);
        assert(closed_under(sv, edges@)) by {
            assert forall|k: int| 0 <= k < edges@.len() && #[trigger] sv.contains(edges@[k].from_node@) implies sv.contains(
                edges@[k].to_node@,
            ) by {
                let h = choose|h: int| 0 <= h < sv.len() && sv[h] == edges@[k].from_node@;
            }
        }
        assert forall|x: Seq<char>| sv.contains(x) <==> reachable(st, edges@, x) by {
            if sv.contains(x) {
                let h = choose|h: int| 0 <= h < sv.len() && sv[h] == x;
            }
            if reachable(st, edges@, x) {
                let p = choose|p: Seq<Seq<char>>| #[trigger] is_walk(edges@, p) && st.contains(p[0]) && p.last() == x;
                let j = choose|j: int| 0 <= j < st.len() && st[j] == p[0];
                assert(sv.contains(st[j]));
                lemma_closed_holds_walk(sv, edges@, p);
            }
        }
    }
    vis
}

/// Whether some input port of `ps` carries artifact kind `kind`.
fn input_of_kind(ps: &PortSpec, kind: &String) -> (r: bool)
    ensures
        r == has_input_of_kind(*ps, kind@),
{
    let mut j: usize = 0;
    while j < ps.inputs.len()
        invariant
            0 <= j <= ps.inputs.len(),
            forall|i: int| 0 <= i < j ==> ps.inputs@[i].kind@ != kind@,
        decreases ps.inputs.len() - j,
    {
        if ps.inputs[j].kind == *kind {
            return true;
        }
        j = j + 1;
    }
    false
}

/// The identifiers of the goal-accepting nodes, in node order.
fn collect_goal_ids(spec: &GraphSpec, reg: &PortRegistry) -> (r: Vec<String>)
    ensures
        strs(r@) == goal_ids(spec.nodes@, *reg),
{
    let goal = String::from_str("Goal");
    let mut out: Vec<String> = Vec::new();
    let mut i: usize = 0;
    while i < spec.nodes.len()
        invariant
            0 <= i <= spec.nodes.len(),
            goal@ == "Goal"@,
            strs(out@) == goal_ids(spec.nodes@.subrange(0, i as int), *reg),
        decreases spec.nodes.len() - i,
    {
        assert(spec.nodes@.subrange(0, i + 1).drop_last() =~= spec.nodes@.subrange(0, i as int));
        let ghost pre = strs(out@);
        let n = &spec.nodes[i];
        let accepts = match reg.get(n.kind.as_str()) {
            Some(ps) => input_of_kind(ps, &goal),
            None => false,
        };
        if accepts {
            out.push(n.id.clone());
            assert(strs(out@) =~= pre.push(n.id@));
        }
        i = i + 1;
    }
    assert(spec.nodes@.subrange(0, spec.nodes@.len() as int) =~= spec.nodes@);
    out
}

/// Check that every node is reachable from a source.
fn check_reach(spec: &GraphSpec, reg: &PortRegistry, errors: &mut Vec<GraphError>)
    ensures
        error_views(final(errors)@) == error_views(old(errors)@) + reach_errors(
            spec.nodes@,
            spec.edges@,
            *reg,
        ),
{
    let goals = collect_goal_ids(spec, reg);
    let starts = if goals.len() > 0 {
        goals
    } else {
        spec.source_node_ids()
    };
    let ghost st = strs(starts@);
    assert(st == start_ids(spec.nodes@, spec.edges@, *reg));
    if starts.len() == 0 {
        let m = String::from_str(
            "Graph has no source nodes (no node accepts a Goal artifact, and all nodes have inbound edges)",
        );
        push_error(errors, GraphErrorKind::UnreachableNode, m);
        assert(error_views(errors@) =~= error_views(old(errors)@) + reach_errors(
            spec.nodes@,
            spec.edges@,
            *reg,
        ));
        return;
    }
    let vis = reachable_from(&starts, &spec.edges);
    let mut i: usize = 0;
    while i < spec.nodes.len()
        invariant
            0 <= i <= spec.nodes.len(),
            st == strs(starts@),
            forall|x: Seq<char>| strs(vis@).contains(x) <==> reachable(st, spec.edges@, x),
            error_views(errors@) == error_views(old(errors)@) + unreached_errors(
                spec.nodes@.subrange(0, i as int),
                st,
                spec.edges@,
            ),
        decreases spec.nodes.len() - i,
    {
        assert(spec.nodes@.subrange(0, i + 1).drop_last() =~= spec.nodes@.subrange(0, i as int));
        let n = &spec.nodes[i];
        if !contains_string(&vis, &n.id) {
            let mut m = String::from_str("Node '");
            m.append(n.id.as_str());
            m.append("' (kind: ");
            m.append(n.kind.as_str());
            m.append(") is not reachable from any source node");
            push_error(errors, GraphErrorKind::UnreachableNode, m);
        }
        assert(error_views(errors@) =~= error_views(old(errors)@) + unreached_errors(
            spec.nodes@.subrange(0, i + 1),
            st,
            spec.edges@,
        ));
        i = i + 1;
    }
    assert(spec.nodes@.subrange(0, spec.nodes@.len() as int) =~= spec.nodes@);
}

pub open spec fn msg_unknown_kind(kind: Seq<char>, id: Seq<char>) -> Seq<char> {
    "Node kind '"@ + kind + "' (id: '"@ + id
        + "') is not registered. Check that the plugin is installed under <graph_dir>/plugins/."@
}

/// The errors for nodes whose kind is not registered, in node order.
pub open spec fn unregistered_errors(nodes: Seq<GraphNodeSpec>, reg: PortRegistry) -> Seq<
    (GraphErrorKind, Seq<char>),
>
    decreases nodes.len(),
{
    if nodes.len() == 0 {
        Seq::empty()
    } else {
        let rest = unregistered_errors(nodes.drop_last(), reg);
        let n = nodes.last();
        if reg.lookup(n.kind@) is None {
            rest.push((GraphErrorKind::UnknownNode, msg_unknown_kind(n.kind@, n.id@)))
        } else {
            rest
        }
    }
}

/// Unregistered kinds are reported only against a non-empty registry.
pub open spec fn kind_registration_errors(nodes: Seq<GraphNodeSpec>, reg: PortRegistry) -> Seq<
    (GraphErrorKind, Seq<char>),
> {
    if registry_empty(reg) {
        Seq::empty()
    } else {
        unregistered_errors(nodes, reg)
    }
}

/// Node `n` has a registered output whose artifact kind no registered
/// node consumes.
pub open spec fn terminal_node(reg: PortRegistry, n: GraphNodeSpec) -> bool {
    reg.lookup(n.kind@) matches Some(ps) && exists|j: int|
        0 <= j < ps.outputs@.len() && !consumed_kind(reg, #[trigger] ps.outputs@[j].kind@)
}

pub open spec fn msg_missing_sink() -> Seq<char> {
    "No node produces a terminal output (an artifact kind that no other node consumes). At least one sink node is required."@
}

/// The sink check: against a non-empty registry, some node must emit a
/// terminal artifact.
pub open spec fn sink_errors(nodes: Seq<GraphNodeSpec>, reg: PortRegistry) -> Seq<
    (GraphErrorKind, Seq<char>),
> {
    if registry_empty(reg) || exists|i: int| 0 <= i < nodes.len() && terminal_node(reg, #[trigger] nodes[i]) {
        Seq::empty()
    } else {
        seq![(GraphErrorKind::MissingSink, msg_missing_sink())]
    }
}

/// Report the nodes whose kind is not registered.
fn check_registered(spec: &GraphSpec, reg: &PortRegistry, errors: &mut Vec<GraphError>)
    ensures
        error_views(final(errors)@) == error_views(old(errors)@) + kind_registration_errors(
            spec.nodes@,
            *reg,
        ),
{
    if reg.is_empty() {
        assert(error_views(errors@) =~= error_views(old(errors)@) + kind_registration_errors(
            spec.nodes@,
            *reg,
        ));
        return;
    }
    let mut i: usize = 0;
    while i < spec.nodes.len()
        invariant
            0 <= i <= spec.nodes.len(),
            !registry_empty(*reg),
            error_views(errors@) == error_views(old(errors)@) + unregistered_errors(
                spec.nodes@.subrange(0, i as int),
                *reg,
            ),
        decreases spec.nodes.len() - i,
    {
        assert(spec.nodes@.subrange(0, i + 1).drop_last() =~= spec.nodes@.subrange(0, i as int));
        let n = &spec.nodes[i];
        if reg.get(n.kind.as_str()).is_none() {
            let mut m = String::from_str("Node kind '");
            m.append(n.kind.as_str());
            m.append("' (id: '");
            m.append(n.id.as_str());
            m.append("') is not registered. Check that the plugin is installed under <graph_dir>/plugins/.");
            push_error(errors, GraphErrorKind::UnknownNode, m);
        }
        assert(error_views(errors@) =~= error_views(old(errors)@) + unregistered_errors(
            spec.nodes@.subrange(0, i + 1),
            *reg,
        ));
        i = i + 1;
    }
    assert(spec.nodes@.subrange(0, spec.nodes@.len() as int) =~= spec.nodes@);
}

impl PortRegistry {
    /// Whether some registered kind has an input of artifact kind `kind`.
    fn consumes(&self, kind: &String) -> (r: bool)
        ensures
            r == consumed_kind(*self, kind@),
    {
        proof {
            use_type_invariant(self);
        }
        let mut i: usize = 0;
        while i < self.entries.len()
            invariant
                0 <= i <= self.entries.len(),
                kinds_unique(self.entries@),
                forall|j: int| 0 <= j < i ==> !has_input_of_kind(#[trigger] self.entries@[j].spec, kind@),
            decreases self.entries.len() - i,
        {
            if input_of_kind(&self.entries[i].spec, kind) {
                proof {
                    lemma_lookup_at(self.entries@, i as int);
                    assert(self.lookup(self.entries@[i as int].kind@) == Some(self.entries@[i as int].spec));
                }
                return true;
            }
            i = i + 1;
        }
        proof {
            assert forall|k: Seq<char>| !(#[trigger] self.lookup(k) matches Some(ps) && has_input_of_kind(ps, kind@)) by {
                if exists|j: int| 0 <= j < self.entries@.len() && self.entries@[j].kind@ == k {
                    let j = choose|j: int| 0 <= j < self.entries@.len() && self.entries@[j].kind@ == k;
                    lemma_lookup_at(self.entries@, j);
                    assert(!has_input_of_kind(self.entries@[j].spec, kind@));
                }
            }
        }
        false
    }
}

/// Check that some node emits a terminal artifact.
fn check_sink(spec: &GraphSpec, reg: &PortRegistry, errors: &mut Vec<GraphError>)
    ensures
        error_views(final(errors)@) == error_views(old(errors)@) + sink_errors(spec.nodes@, *reg),
{
    if reg.is_empty() {
        assert(error_views(errors@) =~= error_views(old(errors)@) + sink_errors(spec.nodes@, *reg));
        return;
    }
    let mut found = false;
    let mut i: usize = 0;
    while i < spec.nodes.len()
        invariant
            0 <= i <= spec.nodes.len(),
            found <==> exists|t: int| 0 <= t < i && terminal_node(*reg, #[trigger] spec.nodes@[t]),
        decreases spec.nodes.len() - i,
    {
        let n = &spec.nodes[i];
        let mut term = false;
        match reg.get(n.kind.as_str()) {
            Some(ps) => {
                let mut j: usize = 0;
                while j < ps.outputs.len()
                    invariant
                        0 <= j <= ps.outputs.len(),
                        reg.lookup(n.kind@) == Some(*ps),
                        term <==> exists|o: int| 0 <= o < j && !consumed_kind(*reg, #[trigger] ps.outputs@[o].kind@),
                    decreases ps.outputs.len() - j,
                {
                    if !reg.consumes(&ps.outputs[j].kind) {
                        term = true;
                    }
                    j = j + 1;
                }
            },
            None => {},
        }
        assert(term == terminal_node(*reg, spec.nodes@[i as int]));
        if term {
            found = true;
        }
        i = i + 1;
    }
    if !found {
        let m = String::from_str(
            "No node produces a terminal output (an artifact kind that no other node consumes). At least one sink node is required.",
        );
        push_error(errors, GraphErrorKind::MissingSink, m);
    }
    assert(error_views(errors@) =~= error_views(old(errors)@) + sink_errors(spec.nodes@, *reg));
}

/// All errors the validator reports for `spec` against `reg`, in order.
/// Unknown edge endpoints are reported alone; otherwise the port-kind,
/// dangling-port, reachability, registration and sink checks follow one
/// another.
pub open spec fn validation_errors(spec: GraphSpec, reg: PortRegistry) -> Seq<
    (GraphErrorKind, Seq<char>),
> {
    let unknown = unknown_endpoint_errors(spec.nodes@, spec.edges@);
    if unknown.len() > 0 {
        unknown
    } else {
        kind_errors(spec.nodes@, reg, spec.edges@) + dangling_errors(spec.nodes@, reg, spec.edges@)
            + reach_errors(spec.nodes@, spec.edges@, reg) + kind_registration_errors(spec.nodes@, reg)
            + sink_errors(spec.nodes@, reg)
    }
}

/// Validate a graph specification against a port registry.
pub fn validate_graph(spec: &GraphSpec, registry: &PortRegistry) -> (r: ValidationResult)
    ensures
        error_views(r.errors@) == validation_errors(*spec, *registry),
        r.valid <==> validation_errors(*spec, *registry).len() == 0,
{
    let mut errors: Vec<GraphError> = Vec::new();
    assert(error_views(errors@) =~= Seq::empty());
    check_endpoints(spec, &mut errors);
    assert(error_views(errors@) =~= unknown_endpoint_errors(spec.nodes@, spec.edges@));
    if errors.len() > 0 {
        return ValidationResult::invalid(errors);
    }
    check_kinds(spec, registry, &mut errors);
    check_dangling(spec, registry, &mut errors);
    check_reach(spec, registry, &mut errors);
    check_registered(spec, registry, &mut errors);
    check_sink(spec, registry, &mut errors);
    assert(error_views(errors@) =~= validation_errors(*spec, *registry));
    if errors.len() == 0 {
        ValidationResult::valid()
    } else {
        ValidationResult::invalid(errors)
    }
}

/// With every edge's endpoints declared, no unknown-endpoint error arises.
proof fn lemma_no_unknown_endpoints(nodes: Seq<GraphNodeSpec>, edges: Seq<Edge>)
    requires
        forall|e: int|
            0 <= e < edges.len() ==> has_node(nodes, (#[trigger] edges[e]).from_node@) && has_node(
                nodes,
                edges[e].to_node@,
            ),
    ensures
        unknown_endpoint_errors(nodes, edges) == Seq::<(GraphErrorKind, Seq<char>)>::empty(),
    decreases edges.len(),
{
    if edges.len() > 0 {
        let pre = edges.drop_last();
        assert forall|e: int| 0 <= e < pre.len() implies has_node(nodes, (#[trigger] pre[e]).from_node@) && has_node(
            nodes,
            pre[e].to_node@,
        ) by {
            assert(pre[e] == edges[e]);
        }
        lemma_no_unknown_endpoints(nodes, pre);
        let last = edges[edges.len() - 1];
        assert(has_node(nodes, last.from_node@) && has_node(nodes, last.to_node@));
    }
}

/// Every node whose kind is not registered has its error among the
/// registration errors.
proof fn lemma_unregistered_listed(nodes: Seq<GraphNodeSpec>, reg: PortRegistry, i: int)
    requires
        0 <= i < nodes.len(),
        reg.lookup(nodes[i].kind@) is None,
    ensures
        exists|t: int|
            0 <= t < unregistered_errors(nodes, reg).len() && unregistered_errors(nodes, reg)[t] == (
                GraphErrorKind::UnknownNode,
                msg_unknown_kind(nodes[i].kind@, nodes[i].id@),
            ),
    decreases nodes.len(),
{
    let pre = nodes.drop_last();
    if i == nodes.len() - 1 {
        let u = unregistered_errors(pre, reg);
        assert(unregistered_errors(nodes, reg)[u.len() as int] == (
            GraphErrorKind::UnknownNode,
            msg_unknown_kind(nodes[i].kind@, nodes[i].id@),
        ));
    } else {
        assert(pre[i] == nodes[i]);
        lemma_unregistered_listed(pre, reg, i);
        let t = choose|t: int|
            0 <= t < unregistered_errors(pre, reg).len() && unregistered_errors(pre, reg)[t] == (
                GraphErrorKind::UnknownNode,
                msg_unknown_kind(pre[i].kind@, pre[i].id@),
            );
        assert(unregistered_errors(nodes, reg)[t] == unregistered_errors(pre, reg)[t]);
    }
}

/// Against a registry that is not empty, a graph whose edges name declared
/// nodes gets one `UnknownNode` error for a node whose kind is not
/// registered, naming the kind and the node, and so is never valid.
pub proof fn law_unregistered_kind_reported(spec: GraphSpec, reg: PortRegistry, i: int)
    requires
        0 <= i < spec.nodes@.len(),
        exists|k: Seq<char>| #[trigger] reg.lookup(k) is Some,
        reg.lookup(spec.nodes@[i].kind@) is None,
        forall|e: int|
            0 <= e < spec.edges@.len() ==> has_node(spec.nodes@, (#[trigger] spec.edges@[e]).from_node@)
                && has_node(spec.nodes@, spec.edges@[e].to_node@),
    ensures
        exists|t: int|
            0 <= t < validation_errors(spec, reg).len() && #[trigger] validation_errors(spec, reg)[t] == (
                GraphErrorKind::UnknownNode,
                "Node kind '"@ + spec.nodes@[i].kind@ + "' (id: '"@ + spec.nodes@[i].id@
                    + "') is not registered. Check that the plugin is installed under <graph_dir>/plugins/."@,
            ),
        validation_errors(spec, reg).len() > 0,
{
    let nodes = spec.nodes@;
    let edges = spec.edges@;
    lemma_no_unknown_endpoints(nodes, edges);
    let k = choose|k: Seq<char>| #[trigger] reg.lookup(k) is Some;
    assert(!registry_empty(reg));
    lemma_unregistered_listed(nodes, reg, i);
    let u = unregistered_errors(nodes, reg);
    let t = choose|t: int|
        0 <= t < u.len() && u[t] == (GraphErrorKind::UnknownNode, msg_unknown_kind(nodes[i].kind@, nodes[i].id@));
    let a = kind_errors(nodes, reg, edges) + dangling_errors(nodes, reg, edges) + reach_errors(nodes, edges, reg);
    let all = validation_errors(spec, reg);
    assert(all == a + u + sink_errors(nodes, reg));
    assert(all[a.len() + t] == u[t]);
}

/// Against a registry that is not empty, a graph whose edges name declared
/// nodes, and in which every output of every node's registered kind carries
/// an artifact kind that some registered kind takes as input, has no sink:
/// it gets the `MissingSink` error, and so is never valid.
pub proof fn law_missing_sink_reported(spec: GraphSpec, reg: PortRegistry)
    requires
        exists|k: Seq<char>| #[trigger] reg.lookup(k) is Some,
        forall|e: int|
            0 <= e < spec.edges@.len() ==> has_node(spec.nodes@, (#[trigger] spec.edges@[e]).from_node@)
                && has_node(spec.nodes@, spec.edges@[e].to_node@),
        forall|i: int, ps: PortSpec, j: int|
            #![trigger reg.lookup(spec.nodes@[i].kind@), ps.outputs@[j]]
            0 <= i < spec.nodes@.len() && reg.lookup(spec.nodes@[i].kind@) == Some(ps) && 0 <= j
                < ps.outputs@.len() ==> exists|k2: Seq<char>|
                #[trigger] reg.lookup(k2) matches Some(ps2) && exists|q: int|
                    0 <= q < ps2.inputs@.len() && (#[trigger] ps2.inputs@[q]).kind@ == ps.outputs@[j].kind@,
    ensures
        validation_errors(spec, reg).len() > 0,
        validation_errors(spec, reg)[validation_errors(spec, reg).len() - 1] == (
            GraphErrorKind::MissingSink,
            "No node produces a terminal output (an artifact kind that no other node consumes). At least one sink node is required."@,
        ),
{
    let nodes = spec.nodes@;
    let edges = spec.edges@;
    lemma_no_unknown_endpoints(nodes, edges);
    let k = choose|k: Seq<char>| #[trigger] reg.lookup(k) is Some;
    assert(!registry_empty(reg));
    assert forall|i: int| 0 <= i < nodes.len() implies !terminal_node(reg, #[trigger] nodes[i]) by {
        if let Some(ps) = reg.lookup(nodes[i].kind@) {
            assert forall|j: int| 0 <= j < ps.outputs@.len() implies consumed_kind(
                reg,
                #[trigger] ps.outputs@[j].kind@,
            ) by {
                assert(reg.lookup(nodes[i].kind@) == Some(ps));
                let k2 = choose|k2: Seq<char>|
                    #[trigger] reg.lookup(k2) matches Some(ps2) && exists|q: int|
                        0 <= q < ps2.inputs@.len() && (#[trigger] ps2.inputs@[q]).kind@ == ps.outputs@[j].kind@;
                let ps2 = reg.lookup(k2)->0;
                assert(has_input_of_kind(ps2, ps.outputs@[j].kind@));
            }
        }
    }
    let a = kind_errors(nodes, reg, edges) + dangling_errors(nodes, reg, edges) + reach_errors(nodes, edges, reg)
        + kind_registration_errors(nodes, reg);
    let all = validation_errors(spec, reg);
    assert(sink_errors(nodes, reg) == seq![(GraphErrorKind::MissingSink, msg_missing_sink())]);
    assert(all == a + sink_errors(nodes, reg));
}

} // verus!
