//! The scheduling policy of the kernel.
pub mod clock;
pub mod completely_fair_scheduler;
pub mod entity;
pub mod nice;
pub mod run_queue;
pub mod vruntime;
