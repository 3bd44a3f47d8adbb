//! Verified core of a small kernel: CPU sets and per-CPU state, locks, tasks and their
//! scheduling, futexes and memory mappings.

pub mod boot;
pub mod config;
pub mod cpu;
pub mod error;
pub mod futex;
pub mod idle;
pub mod init;
pub mod sched;
pub mod smp;
pub mod sync;
pub mod task;
pub mod trap;
pub mod vm;
