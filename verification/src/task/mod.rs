//! Tasks, the unit of code execution.
pub mod lifecycle;
pub mod options;
pub mod preempt;
pub mod priority;
pub mod processor;
pub mod scheduler;
pub mod stack;
pub mod table;
pub mod task;
