//! Processes, their resource tables and the deadlock detector.
pub mod detector;
pub mod id;
pub mod process;
