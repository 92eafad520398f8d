//! The commands by which work is handed to a loop.
use vstd::prelude::*;

verus! {

/// A piece of work for a loop: a handler to register, a timer to arm, or a
/// callback to run on the loop's next turn.
pub enum Registration<H, C> {
    Handler(H),
    /// A timer that fires after `delay` milliseconds, once or, with
    /// `repeat`, every `delay` milliseconds until it is cancelled.
    Timeout { delay: u64, repeat: bool },
    Next(C),
}

impl<H, C> Registration<H, C> {
    pub fn new(handler: H) -> (r: Registration<H, C>)
        ensures
            r == Registration::<H, C>::Handler(handler),
    {
        Registration::Handler(handler)
    }

    pub fn timeout(delay: u64) -> (r: Registration<H, C>)
        ensures
            r == (Registration::<H, C>::Timeout { delay, repeat: false }),
    {
        Registration::Timeout { delay, repeat: false }
    }

    pub fn interval(delay: u64) -> (r: Registration<H, C>)
        ensures
            r == (Registration::<H, C>::Timeout { delay, repeat: true }),
    {
        Registration::Timeout { delay, repeat: true }
    }

    pub fn next(callback: C) -> (r: Registration<H, C>)
        ensures
            r == Registration::<H, C>::Next(callback),
    {
        Registration::Next(callback)
    }
}

} // verus!
