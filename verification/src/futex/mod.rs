//! Fast user-space locking.
pub mod op;
pub mod queue;
