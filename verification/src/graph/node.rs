//! Messages exchanged with nodes, and node errors.
use vstd::prelude::*;
use vstd::string::*;
use crate::graph::artifact::Artifact;
use crate::text::{debug_form, debug_quote};

verus! {

/// A message arriving on an input port of a node.
#[derive(Debug, PartialEq)]
pub struct PortMsg {
    /// The port on which the message arrived.
    pub port: String,
    /// The artifact carried by the message.
    pub artifact: Artifact,
}

/// An emission on an output port of a node.
#[derive(Debug, PartialEq)]
pub struct Emit {
    /// The port on which to emit.
    pub port: String,
    /// The artifact to emit.
    pub artifact: Artifact,
}

impl Clone for PortMsg {
    fn clone(&self) -> (res: Self)
        ensures
            res == *self,
    {
        PortMsg { port: self.port.clone(), artifact: self.artifact.clone() }
    }
}

impl Clone for Emit {
    fn clone(&self) -> (res: Self)
        ensures
            res == *self,
    {
        Emit { port: self.port.clone(), artifact: self.artifact.clone() }
    }
}

impl Emit {
    /// An emission of `artifact` on `port`.
    pub fn new(port: &str, artifact: Artifact) -> (e: Self)
        ensures
            e.port@ == port@,
            e.artifact == artifact,
    {
        Emit { port: port.to_owned(), artifact }
    }
}

/// Errors that can occur while a node processes its inputs.
#[derive(Debug)]
pub enum NodeError {
    /// An agent-specific error occurred.
    Agent(String),
    /// An artifact's kind does not match the expected port kind.
    PortKind {
        /// The port name.
        port: String,
        /// The expected artifact kind.
        expected: String,
        /// The actual artifact kind.
        got: String,
    },
    /// Processing timed out.
    Timeout(String),
    /// The node was cancelled.
    Cancelled,
    /// A critical internal error.
    Internal(String),
}

impl NodeError {
    /// The human-readable form of the error.
    pub fn to_string(&self) -> (r: String)
        ensures
            r@ == match self {
                NodeError::Agent(m) => "Agent error: "@ + m@,
                NodeError::PortKind { port, expected, got } => "Port kind mismatch on port "@
                    + port@ + ": expected "@ + debug_form(expected@) + ", got "@ + debug_form(got@),
                NodeError::Timeout(m) => "Node processing timed out: "@ + m@,
                NodeError::Cancelled => "Node processing cancelled"@,
                NodeError::Internal(m) => "Internal error: "@ + m@,
            },
    {
        match self {
            NodeError::Agent(m) => {
                let mut s = String::from_str("Agent error: ");
                s.append(m.as_str());
                s
            },
            NodeError::PortKind { port, expected, got } => {
                let mut s = String::from_str("Port kind mismatch on port ");
                s.append(port.as_str());
                s.append(": expected ");
                let e = debug_quote(expected.as_str());
                s.append(e.as_str());
                s.append(", got ");
                let g = debug_quote(got.as_str());
                s.append(g.as_str());
                s
            },
            NodeError::Timeout(m) => {
                let mut s = String::from_str("Node processing timed out: ");
                s.append(m.as_str());
                s
            },
            NodeError::Cancelled => String::from_str("Node processing cancelled"),
            NodeError::Internal(m) => {
                let mut s = String::from_str("Internal error: ");
                s.append(m.as_str());
                s
            },
        }
    }
}


/// The total tokens of a model's usage report: the provider's aggregate,
/// or the sum of input and output tokens when it reports none.
pub fn total_tokens(input_tokens: u64, output_tokens: u64, reported_total: u64) -> (r: u64)
    requires
        reported_total == 0 ==> input_tokens + output_tokens <= u64::MAX,
    ensures
        r == if reported_total == 0 {
            input_tokens + output_tokens
        } else {
            reported_total as int
        },
{
    if reported_total == 0 {
        input_tokens + output_tokens
    } else {
        reported_total
    }
}

} // verus!
