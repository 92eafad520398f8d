//! The timer table: which timers are armed, and what each expiry means.
//!
//! The multiplexer counts the time; the table decides, when it reports that a
//! timer went off, whether a callback runs and whether the timer is armed
//! again. It is kept apart from the loop so that a timer can be armed from
//! inside a handler while the loop is dispatching.
use std::collections::HashMap;
use vstd::prelude::*;

use crate::error::EventError;

verus! {

broadcast use vstd::std_specs::hash::group_hash_axioms;

/// Names an armed timer, for cancellation.
#[derive(Clone, Copy, Debug, PartialEq, Eq, Structural)]
pub struct TimeoutHandle {
    id: u64,
}

impl TimeoutHandle {
    pub closed spec fn view(self) -> u64 {
        self.id
    }

    /// The handle of the timer `id`.
    pub fn from_id(id: u64) -> (r: TimeoutHandle)
        ensures
            r@ == id,
    {
        TimeoutHandle { id }
    }

    /// The timer's identifier, which the multiplexer reports on expiry.
    pub fn id(&self) -> (r: u64)
        ensures
            r == self@,
    {
        self.id
    }
}

/// What to do when the multiplexer reports that a timer went off.
#[derive(Clone, Copy, Debug, PartialEq, Eq, Structural)]
pub enum Expiry {
    /// The timer was cancelled: run nothing.
    Stale,
    /// Run the timer's callback; the timer is done.
    Fire,
    /// Run the timer's callback and arm it again with this delay.
    FireAndRearm(u64),
}

/// The armed timers, each under an identifier never used before.
pub struct Timers {
    table: HashMap<u64, Option<u64>>,
    next_id: u64,
}

impl Timers {
    /// The armed timers: for each identifier, its period if it repeats.
    pub closed spec fn armed_timers(&self) -> Map<u64, Option<u64>> {
        self.table@
    }

    /// How many identifiers have been handed out; the next timer gets this one.
    pub closed spec fn issued(&self) -> nat {
        self.next_id as nat
    }

    pub closed spec fn wf(&self) -> bool {
        forall|id: u64| #[trigger] self.table@.contains_key(id) ==> id < self.next_id
    }

    pub fn new() -> (r: Timers)
        ensures
            r.wf(),
            r.armed_timers() == Map::<u64, Option<u64>>::empty(),
            r.issued() == 0,
    {
        Timers { table: HashMap::new(), next_id: 0 }
    }

    /// Arms a timer of `delay` milliseconds, repeating with `repeat`, under a
    /// fresh identifier. Fails with `Timer` once every identifier is used.
    pub fn arm(&mut self, delay: u64, repeat: bool) -> (r: Result<TimeoutHandle, EventError>)
        requires
            old(self).wf(),
        ensures
            final(self).wf(),
            armed(*old(self), delay, repeat, r, *final(self)),
    {
        if self.next_id == u64::MAX {
            return Err(EventError::Timer);
        }
        let id = self.next_id;
        let period = if repeat {
            Some(delay)
        } else {
            None
        };
        self.table.insert(id, period);
        self.next_id = id + 1;
        Ok(TimeoutHandle { id })
    }

    /// Arms a one-shot timer of `delay` milliseconds.
    pub fn timeout(&mut self, delay: u64) -> (r: Result<TimeoutHandle, EventError>)
        requires
            old(self).wf(),
        ensures
            final(self).wf(),
            armed(*old(self), delay, false, r, *final(self)),
    {
        self.arm(delay, false)
    }

    /// Arms a timer that fires every `delay` milliseconds until cancelled.
    pub fn interval(&mut self, delay: u64) -> (r: Result<TimeoutHandle, EventError>)
        requires
            old(self).wf(),
        ensures
            final(self).wf(),
            armed(*old(self), delay, true, r, *final(self)),
    {
        self.arm(delay, true)
    }

    /// Whether the timer `id` is armed.
    pub fn is_armed(&self, id: u64) -> (r: bool)
        ensures
            r == self.armed_timers().contains_key(id),
    {
        self.table.contains_key(&id)
    }

    /// After the callback of timer `id` ran on `expiry`: the delay to arm it
    /// again with, if it repeats and was not cancelled meanwhile.
    pub fn rearm_after(&self, id: u64, expiry: Expiry) -> (r: Option<u64>)
        ensures
            r == (match expiry {
                Expiry::FireAndRearm(delay) => if self.armed_timers().contains_key(id) {
                    Some(delay)
                } else {
                    None
                },
                _ => None,
            }),
    {
        match expiry {
            Expiry::FireAndRearm(delay) => if self.table.contains_key(&id) {
                Some(delay)
            } else {
                None
            },
            _ => None,
        }
    }

    /// Disarms a timer. Returns whether it was armed.
    pub fn cancel(&mut self, handle: TimeoutHandle) -> (r: bool)
        requires
            old(self).wf(),
        ensures
            final(self).wf(),
            cancelled(*old(self), handle@, r, *final(self)),
    {
        self.table.remove(&handle.id).is_some()
    }

    /// Decides what the expiry of timer `id` means: nothing for a cancelled
    /// timer, one run for a one-shot timer (which is then done), a run and a
    /// re-arm with the same delay for a repeating one.
    pub fn expired(&mut self, id: u64) -> (r: Expiry)
        requires
            old(self).wf(),
        ensures
            final(self).wf(),
            fired(*old(self), id, r, *final(self)),
    {
        match self.table.get(&id) {
            None => Expiry::Stale,
            Some(period) => match *period {
                Some(delay) => Expiry::FireAndRearm(delay),
                None => {
                    self.table.remove(&id);
                    Expiry::Fire
                },
            },
        }
    }
}

/// What arming a timer of `delay` milliseconds did.
pub open spec fn armed(
    old: Timers,
    delay: u64,
    repeat: bool,
    r: Result<TimeoutHandle, EventError>,
    new: Timers,
) -> bool {
    &&& (r is Ok <==> old.issued() < u64::MAX)
    &&& match r {
        Ok(h) => {
            &&& h@ == old.issued()
            &&& new.issued() == old.issued() + 1
            &&& !old.armed_timers().contains_key(h@)
            &&& new.armed_timers() == old.armed_timers().insert(
                h@,
                if repeat {
                    Some(delay)
                } else {
                    None
                },
            )
        },
        Err(e) => e == EventError::Timer && new == old,
    }
}

/// What cancelling timer `id` did.
pub open spec fn cancelled(old: Timers, id: u64, r: bool, new: Timers) -> bool {
    &&& r == old.armed_timers().contains_key(id)
    &&& new.armed_timers() == old.armed_timers().remove(id)
    &&& new.issued() == old.issued()
}

/// What the expiry of timer `id` did.
pub open spec fn fired(old: Timers, id: u64, r: Expiry, new: Timers) -> bool {
    &&& new.issued() == old.issued()
    &&& if !old.armed_timers().contains_key(id) {
        r == Expiry::Stale && new.armed_timers() == old.armed_timers()
    } else {
        match old.armed_timers()[id] {
            Some(delay) => r == Expiry::FireAndRearm(delay) && new.armed_timers()
                == old.armed_timers(),
            None => r == Expiry::Fire && new.armed_timers() == old.armed_timers().remove(id),
        }
    }
}

/// An interval stays armed until it is cancelled: each expiry asks for a run
/// of its callback and a re-arm with the same delay, however many came
/// before; once the handle is cancelled, an expiry that was already on its
/// way runs nothing.
pub proof fn lemma_interval_until_cancelled(
    t0: Timers,
    delay: u64,
    h: Result<TimeoutHandle, EventError>,
    ts: Seq<Timers>,
    es: Seq<Expiry>,
    c: bool,
    tc: Timers,
    e: Expiry,
    tf: Timers,
)
    requires
        ts.len() == es.len() + 1,
        armed(t0, delay, true, h, ts[0]),
        h is Ok,
        forall|i: int| 0 <= i < es.len() ==> #[trigger] fired(ts[i], h->Ok_0@, es[i], ts[i + 1]),
        cancelled(ts.last(), h->Ok_0@, c, tc),
        fired(tc, h->Ok_0@, e, tf),
    ensures
        forall|i: int| 0 <= i < es.len() ==> #[trigger] es[i] == Expiry::FireAndRearm(delay),
        ts.last().armed_timers() == ts[0].armed_timers(),
        c,
        e == Expiry::Stale,
{
    lemma_interval_stays(t0, delay, h, ts, es, es.len() as int);
}

proof fn lemma_interval_stays(
    t0: Timers,
    delay: u64,
    h: Result<TimeoutHandle, EventError>,
    ts: Seq<Timers>,
    es: Seq<Expiry>,
    k: int,
)
    requires
        ts.len() == es.len() + 1,
        armed(t0, delay, true, h, ts[0]),
        h is Ok,
        forall|i: int| 0 <= i < es.len() ==> #[trigger] fired(ts[i], h->Ok_0@, es[i], ts[i + 1]),
        0 <= k <= es.len(),
    ensures
        forall|i: int| 0 <= i < k ==> #[trigger] es[i] == Expiry::FireAndRearm(delay),
        ts[k].armed_timers() == ts[0].armed_timers(),
    decreases k,
{
    if k > 0 {
        lemma_interval_stays(t0, delay, h, ts, es, k - 1);
        assert(fired(ts[k - 1], h->Ok_0@, es[k - 1], ts[(k - 1) + 1]));
    }
}

} // verus!
