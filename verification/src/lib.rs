//! The core of a completion-based I/O runtime, without the I/O.
//!
//! A kernel that completes requests asynchronously is handed addresses of
//! caller-owned memory and may use that memory until it posts a completion,
//! also when the task that asked has gone away meanwhile. This crate holds
//! the bookkeeping that keeps that safe: buffers that can be taken apart into
//! raw parts and put together again, a pool of pre-registered buffers with
//! exclusive check-out, and a driver that keeps each in-flight operation's
//! memory until its completion has been seen.
//!
//! Nothing here performs a system call. The driver hands out the submission
//! entries that are due and takes in the completions that arrived; whoever
//! owns the kernel queue pair moves them across.
pub mod buf;
pub mod error;
pub mod runtime;
