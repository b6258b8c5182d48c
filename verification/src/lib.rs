//! Process-control system calls of a small single-core kernel.

pub mod config;
pub mod laws;
pub mod mm;
pub mod syscall;
pub mod task;
pub mod timer;
