use vstd::prelude::*;

verus! {

/// Why a call was turned down. Every variant is reported at the call itself,
/// never through a completion.
#[derive(Clone, Copy, Debug, PartialEq, Eq, Structural)]
pub enum Error {
    /// No driver is bound to the context the call was made in.
    NoContext,
    /// A collection of buffers is already registered with the driver.
    AlreadyRegistered,
    /// The collection is not the one that is registered with the driver.
    NotRegistered,
    /// A buffer of the registered collection is still checked out.
    Busy,
    /// The buffer belongs to a registration that is no longer in force.
    InvalidatedBuffer,
    /// The driver has handed out every registration number it has.
    RegistrationsExhausted,
}

} // verus!
