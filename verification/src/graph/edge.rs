//! Directed edges between node ports.
use vstd::prelude::*;
use vstd::string::*;

verus! {

/// A directed edge from one node's output port to another node's input port.
///
/// Feedback edges close a cycle: what travels along them belongs to the next
/// round.
pub struct Edge {
    /// The producing node.
    pub from_node: String,
    /// The output port on the producing node.
    pub from_port: String,
    /// The consuming node.
    pub to_node: String,
    /// The input port on the consuming node.
    pub to_port: String,
    /// Whether this edge closes a cycle.
    pub feedback: bool,
}

impl Clone for Edge {
    fn clone(&self) -> (res: Self)
        ensures
            res == *self,
    {
        Edge {
            from_node: self.from_node.clone(),
            from_port: self.from_port.clone(),
            to_node: self.to_node.clone(),
            to_port: self.to_port.clone(),
            feedback: self.feedback,
        }
    }
}

impl Edge {
    /// A forward edge `from_node.from_port -> to_node.to_port`.
    pub fn new(from_node: &str, from_port: &str, to_node: &str, to_port: &str) -> (e: Self)
        ensures
            e.from_node@ == from_node@,
            e.from_port@ == from_port@,
            e.to_node@ == to_node@,
            e.to_port@ == to_port@,
            !e.feedback,
    {
        Edge {
            from_node: from_node.to_owned(),
            from_port: from_port.to_owned(),
            to_node: to_node.to_owned(),
            to_port: to_port.to_owned(),
            feedback: false,
        }
    }

    /// The same edge, marked as a feedback edge.
    pub fn feedback(self) -> (e: Self)
        ensures
            e.from_node == self.from_node,
            e.from_port == self.from_port,
            e.to_node == self.to_node,
            e.to_port == self.to_port,
            e.feedback,
    {
        Edge { feedback: true, ..self }
    }
}

} // verus!
