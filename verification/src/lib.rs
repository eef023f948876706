//! Eureka: a graph-based agent execution engine.
//!
//! This crate holds the engine's logic in verified form: the typed port
//! model and graph validator, the scheduler's join and round bookkeeping,
//! the versioned run persistence, checkpoints and run environments, and the
//! configuration and error types that tie them together.
pub mod agent;
pub mod config;
pub mod control;
pub mod error;
pub mod graph;
pub mod json;
pub mod manifest;
pub mod text;
pub mod persistence;
pub mod rag;
pub mod scheduler;
pub mod session;
