//! Task table, round-robin scheduler and the demo tasks.
pub mod demo_tasks;
pub mod scheduler;
pub mod task;
