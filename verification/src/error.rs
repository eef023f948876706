//! Errors of the engine layer.
use vstd::prelude::*;
use vstd::string::*;
use crate::config::{config_error_text, ConfigError};
use crate::graph::spec::{graph_error_prefix, GraphError};

verus! {

/// Errors that can occur during engine operations.
#[derive(Debug)]
pub enum EngineError {
    /// A graph specification error occurred.
    Graph(GraphError),
    /// A configuration error occurred.
    Config(ConfigError),
    /// A scheduler error occurred.
    Scheduler(String),
    /// A node could not be created from the spec.
    NodeCreation(String),
    /// An unknown node kind was encountered.
    UnknownNodeKind(String),
    /// The run could not be started.
    Run(String),
    /// A store error occurred.
    Store(String),
}

/// The display text of an engine error: a category prefix, then the
/// underlying message.
pub open spec fn engine_error_text(e: EngineError) -> Seq<char> {
    match e {
        EngineError::Graph(g) => "Graph error: "@ + graph_error_prefix(g@.0) + g@.1,
        EngineError::Config(c) => "Config error: "@ + config_error_text(c),
        EngineError::Scheduler(m) => "Scheduler error: "@ + m@,
        EngineError::NodeCreation(m) => "Node creation error: "@ + m@,
        EngineError::UnknownNodeKind(m) => "Unknown node kind: "@ + m@,
        EngineError::Run(m) => "Run error: "@ + m@,
        EngineError::Store(m) => "Store error: "@ + m@,
    }
}

/// `prefix` followed by `rest`.
fn prefixed(prefix: &str, rest: &str) -> (r: String)
    ensures
        r@ == prefix@ + rest@,
{
    let mut s = String::from_str(prefix);
    s.append(rest);
    s
}

impl EngineError {
    /// The error's display text.
    pub fn to_string(&self) -> (r: String)
        ensures
            r@ == engine_error_text(*self),
    {
        match self {
            EngineError::Graph(g) => prefixed("Graph error: ", g.to_string().as_str()),
            EngineError::Config(c) => prefixed("Config error: ", c.to_string().as_str()),
            EngineError::Scheduler(m) => prefixed("Scheduler error: ", m.as_str()),
            EngineError::NodeCreation(m) => prefixed("Node creation error: ", m.as_str()),
            EngineError::UnknownNodeKind(m) => prefixed("Unknown node kind: ", m.as_str()),
            EngineError::Run(m) => prefixed("Run error: ", m.as_str()),
            EngineError::Store(m) => prefixed("Store error: ", m.as_str()),
        }
    }
}

impl From<GraphError> for EngineError {
    fn from(e: GraphError) -> (r: Self) {
        EngineError::Graph(e)
    }
}

impl vstd::std_specs::convert::FromSpecImpl<GraphError> for EngineError {
    open spec fn obeys_from_spec() -> bool {
        true
    }

    open spec fn from_spec(e: GraphError) -> Self {
        EngineError::Graph(e)
    }
}

impl From<ConfigError> for EngineError {
    fn from(e: ConfigError) -> (r: Self) {
        EngineError::Config(e)
    }
}

impl vstd::std_specs::convert::FromSpecImpl<ConfigError> for EngineError {
    open spec fn obeys_from_spec() -> bool {
        true
    }

    open spec fn from_spec(e: ConfigError) -> Self {
        EngineError::Config(e)
    }
}

} // verus!
