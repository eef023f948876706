//! The scheduler's bookkeeping: input joins, activation dispatch, output
//! routing and the synchronized round model.
//!
//! The event loop that runs activations lives outside the library; it feeds
//! each event to a [`state::RunState`] and carries out what comes back.
pub mod state;
pub mod resume;
pub mod error;
pub mod step;
