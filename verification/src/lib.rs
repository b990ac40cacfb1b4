//! Verified bookkeeping of a teaching kernel: per-process resource tables,
//! a deadlock detector, and the decision logic of the kernel's system calls.
//!
//! The kernel objects themselves (address spaces, files, locks, timers) live
//! outside this library; the library keeps the tables that name them and
//! decides, for each system call, what the kernel must do and return.
pub mod syscall;
pub mod task;
