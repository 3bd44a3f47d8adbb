//! Locks.
pub mod backoff;
pub mod shared;
pub mod spin;
pub mod spin_mutex;
