//! A handler-based I/O event dispatcher.
//!
//! The library holds the dispatch core of an event loop: a slab-indexed
//! registry of handlers, the decisions that turn readiness and timer events
//! into handler calls, and the commands that the loop hands to the readiness
//! multiplexer that drives it. The multiplexer itself (polling, descriptor
//! registration with the operating system, timers, the wake channel) is run
//! by the embedding program, which performs the commands returned here.
use vstd::prelude::*;

pub mod error;
pub mod handler;
pub mod ioloop;
pub mod registration;
pub mod registry;
pub mod timers;

use crate::error::EventError;
use crate::handler::Handler;
use crate::ioloop::{queued, ran, registered_in, shut_down, IoLoop};
use crate::registry::Command;
use crate::timers::{armed, TimeoutHandle, Timers};

verus! {

/// Registers `handler` with the loop. On success the command registers its
/// descriptor with the multiplexer.
pub fn register<H: Handler, C>(event_loop: &mut IoLoop<H, C>, handler: H) -> (r: Result<
    Command,
    EventError,
>)
    requires
        old(event_loop).wf(),
    ensures
        final(event_loop).wf(),
        registered_in(*old(event_loop), handler, r, *final(event_loop)),
{
    event_loop.register(handler)
}

/// Arms a one-shot timer of `delay` milliseconds; its callback runs on the
/// loop's thread at or after the deadline.
pub fn timeout(timers: &mut Timers, delay: u64) -> (r: Result<TimeoutHandle, EventError>)
    requires
        old(timers).wf(),
    ensures
        final(timers).wf(),
        armed(*old(timers), delay, false, r, *final(timers)),
{
    timers.timeout(delay)
}

/// Queues `callback` to run on the loop's next turn.
pub fn next<H: Handler, C>(event_loop: &mut IoLoop<H, C>, callback: C)
    requires
        old(event_loop).wf(),
    ensures
        final(event_loop).wf(),
        queued(*old(event_loop), callback, *final(event_loop)),
{
    event_loop.next(callback)
}

/// Arms a timer that fires every `delay` milliseconds: at each expiry its
/// callback runs and the timer is armed again, until the handle is cancelled.
pub fn interval(timers: &mut Timers, delay: u64) -> (r: Result<TimeoutHandle, EventError>)
    requires
        old(timers).wf(),
    ensures
        final(timers).wf(),
        armed(*old(timers), delay, true, r, *final(timers)),
{
    timers.interval(delay)
}

/// Starts the loop: it enters the running state. A loop that is already
/// running reports `Reentrancy` and is left as it is.
pub fn run<H: Handler, C>(event_loop: &mut IoLoop<H, C>) -> (r: Result<(), EventError>)
    requires
        old(event_loop).wf(),
    ensures
        final(event_loop).wf(),
        ran(*old(event_loop), r, *final(event_loop)),
{
    event_loop.run()
}

/// Asks the loop to stop, if it is running; returns whether it was.
pub fn shutdown<H: Handler, C>(event_loop: &mut IoLoop<H, C>) -> (r: bool)
    requires
        old(event_loop).wf(),
    ensures
        final(event_loop).wf(),
        shut_down(*old(event_loop), r, *final(event_loop)),
{
    event_loop.shutdown()
}

} // verus!
