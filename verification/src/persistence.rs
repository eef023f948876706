//! Durable run records, checkpoints and run environments, and the
//! versioned stores that keep them.
pub mod checkpoint;
pub mod environment;
pub mod record;
pub mod store;
