//! Process, signal and system-call logic of a small RISC-V teaching kernel,
//! written over a verified model of the kernel's process table.
pub mod action;
pub mod exit;
pub mod id;
pub mod kernel;
pub mod laws;
pub mod process;
pub mod signal;
pub mod signal_handling;
pub mod syscall;
pub mod task;
pub mod timer;
pub mod trap;
