//! A verified model of the core of a small RISC-V SV39 teaching kernel:
//! address arithmetic, a stack-based physical frame allocator, a three-level
//! page table and address spaces over an explicit physical-memory arena, the
//! trap-dispatch decision logic, and a cooperative round-robin task scheduler.
//!
//! Hardware access (CSR reads and writes, the context-switch shim, SBI
//! ecalls, raw physical memory) lives outside this crate; every function here
//! is pure state manipulation over explicit values and is verified.

pub mod config;
pub mod mm;
pub mod task;
pub mod syscall;
pub mod trap;
pub mod firmware;
pub mod timer;
pub mod loader;
pub mod user_api;
pub mod sync;
