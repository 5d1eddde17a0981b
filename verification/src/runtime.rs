//! The driver of in-flight operations and the context it is bound to.
pub mod context;
pub mod driver;
