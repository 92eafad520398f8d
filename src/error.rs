//! Errors of the loop.
use vstd::prelude::*;

verus! {

/// What can go wrong in the loop.
#[derive(Clone, Copy, Debug, PartialEq, Eq, Structural)]
pub enum EventError {
    /// The multiplexer failed at the operating-system level; holds the
    /// system's error code where there is one.
    Reactor(Option<i32>),
    /// The timer subsystem could not arm a timer.
    Timer,
    /// A registration found every slot of the registry in use.
    RegistryFull,
    /// The loop was asked to run while it was already running on this thread.
    Reentrancy,
    /// The wake channel no longer accepts callbacks.
    Closed,
}

/// The result of a loop operation.
pub type EventResult<T> = Result<T, EventError>;

} // verus!
