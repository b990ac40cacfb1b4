//! Decision logic of the system calls.
pub mod fs;
pub mod process;
pub mod sync;
