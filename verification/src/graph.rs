//! Graph topology: ports, edges, graph specifications and their validator.
pub mod artifact;
pub mod edge;
pub mod node;
pub mod port;
pub mod spec;
pub mod validate;
