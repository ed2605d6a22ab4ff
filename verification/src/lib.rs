//! The process and hart state of a small RISC-V kernel, with its rules
//! proved: thread ids, file descriptors, the thread table, fork, the stack
//! a program starts on, the per-hart scheduler state and the GPU test
//! pattern.

pub mod gpu;
pub mod id;
pub mod process;
pub mod processor;
pub mod user_stack;
