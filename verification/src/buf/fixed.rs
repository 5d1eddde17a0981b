//! Buffers that are registered with the kernel ahead of use.
//!
//! [`plumbing`] holds the table of registered regions and their states;
//! [`registry`] holds the handle that applications use, the buffers that it
//! lends, and registration itself.
pub mod plumbing;
pub mod registry;
