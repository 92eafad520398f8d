//! The drive loop: a registry, a run state and deferred callbacks.
//!
//! The loop decides; the embedding program waits on the multiplexer, hands
//! each event to the loop and performs the commands it gets back.
use std::collections::VecDeque;
use vstd::prelude::*;

use crate::error::EventError;
use crate::handler::{resolve_interest, resolve_opt, Handler, ReadHint, Token};
use crate::registration::Registration;
use crate::timers::{armed, TimeoutHandle, Timers};
use crate::registry::{
    dispatched, read_answer, rearm_of, register_of, registered, write_answer, Command, IoHandler,
    Outcome,
};

verus! {

/// The number of handler slots of a loop made by `IoLoop::new`.
pub const MAX_LISTENERS: usize = 65536;

/// Where a loop is in its lifecycle.
#[derive(Clone, Copy, Debug, PartialEq, Eq, Structural)]
pub enum RunState {
    /// Not dispatching.
    Idle,
    /// Inside its wait/dispatch cycle.
    Running,
    /// Running, with a shutdown requested.
    Stopping,
}

/// What `IoLoop::apply` did with a registration.
pub enum Applied {
    /// A handler was registered; the command registers it with the multiplexer.
    Registered(Command),
    /// A timer was armed under this handle.
    Armed(TimeoutHandle),
    /// A callback was queued for the next turn.
    Queued,
}

/// One event loop: its handlers, lifecycle state and deferred callbacks.
pub struct IoLoop<H, C> {
    registry: IoHandler<H>,
    state: RunState,
    deferred: VecDeque<C>,
}

/// The token of a registration command, or the error.
pub open spec fn token_of(r: Result<Command, EventError>) -> Result<Token, EventError> {
    match r {
        Ok(c) => Ok(c.token()),
        Err(e) => Err(e),
    }
}

impl<H, C> IoLoop<H, C> {
    pub closed spec fn registry(&self) -> IoHandler<H> {
        self.registry
    }

    pub closed spec fn state(&self) -> RunState {
        self.state
    }

    /// The callbacks waiting for the next turn, oldest first.
    pub closed spec fn deferred(&self) -> Seq<C> {
        self.deferred@
    }

    pub closed spec fn wf(&self) -> bool {
        self.registry.wf()
    }

    /// The registry of a well-formed loop is well formed.
    pub proof fn lemma_wf(&self)
        requires
            self.wf(),
        ensures
            self.registry().wf(),
    {
    }

    /// A loop with room for `MAX_LISTENERS` handlers.
    pub fn new() -> (r: IoLoop<H, C>)
        ensures
            r.wf(),
            r.state() == RunState::Idle,
            r.registry().handlers() == Map::<nat, H>::empty(),
            r.registry().retired_tokens() == Set::<nat>::empty(),
            r.registry().spec_capacity() == MAX_LISTENERS,
            r.deferred() == Seq::<C>::empty(),
    {
        Self::with_capacity(MAX_LISTENERS)
    }

    /// A loop with room for `capacity` handlers.
    pub fn with_capacity(capacity: usize) -> (r: IoLoop<H, C>)
        ensures
            r.wf(),
            r.state() == RunState::Idle,
            r.registry().handlers() == Map::<nat, H>::empty(),
            r.registry().retired_tokens() == Set::<nat>::empty(),
            r.registry().spec_capacity() == capacity,
            r.deferred() == Seq::<C>::empty(),
    {
        IoLoop {
            registry: IoHandler::new(capacity),
            state: RunState::Idle,
            deferred: VecDeque::new(),
        }
    }

    pub fn state_now(&self) -> (r: RunState)
        ensures
            r == self.state(),
    {
        self.state
    }

    /// The number of registered handlers.
    pub fn len(&self) -> (r: usize)
        requires
            self.wf(),
        ensures
            r == self.registry().handlers().len(),
    {
        self.registry.len()
    }

    /// Whether `token` holds a handler.
    pub fn contains(&self, token: Token) -> (r: bool)
        ensures
            r == self.registry().handlers().contains_key(token@),
    {
        self.registry.contains(token)
    }

    /// Enters the running state. A loop that is already running is left as
    /// it is, and the call reports `Reentrancy`: no second dispatch cycle
    /// starts.
    pub fn run(&mut self) -> (r: Result<(), EventError>)
        requires
            old(self).wf(),
        ensures
            final(self).wf(),
            ran(*old(self), r, *final(self)),
    {
        match self.state {
            RunState::Idle => {
                self.state = RunState::Running;
                Ok(())
            },
            _ => Err(EventError::Reentrancy),
        }
    }

    /// Asks a running loop to stop. Returns whether it was running, that is
    /// whether the multiplexer must be told to stop waiting; on an idle loop
    /// this is a no-op. Armed timers are not the loop's, and stay armed.
    pub fn shutdown(&mut self) -> (r: bool)
        requires
            old(self).wf(),
        ensures
            final(self).wf(),
            shut_down(*old(self), r, *final(self)),
    {
        match self.state {
            RunState::Idle => false,
            _ => {
                self.state = RunState::Stopping;
                true
            },
        }
    }

    /// Leaves the running state once the multiplexer's wait has returned,
    /// normally or with an error, frees the tokens retired in the last batch
    /// and drops the handlers stopped in it.
    pub fn finish(&mut self)
        requires
            old(self).wf(),
        ensures
            final(self).wf(),
            finished(*old(self), *final(self)),
    {
        self.registry.end_batch();
        self.state = RunState::Idle;
    }

    /// Ends a batch of events: the tokens retired in it become free again and
    /// the handlers stopped in it are dropped.
    pub fn end_batch(&mut self)
        requires
            old(self).wf(),
        ensures
            final(self).wf(),
            final(self).state() == old(self).state(),
            final(self).registry().handlers() == old(self).registry().handlers(),
            final(self).registry().retired_tokens() == Set::<nat>::empty(),
            final(self).registry().parked() == Map::<nat, H>::empty(),
            final(self).registry().spec_capacity() == old(self).registry().spec_capacity(),
            final(self).deferred() == old(self).deferred(),
    {
        self.registry.end_batch();
    }

    /// Queues `callback` to run on the loop's next turn, after those queued
    /// before it.
    pub fn next(&mut self, callback: C)
        requires
            old(self).wf(),
        ensures
            final(self).wf(),
            queued(*old(self), callback, *final(self)),
    {
        self.deferred.push_back(callback);
    }

    /// Takes the oldest queued callback.
    pub fn take_deferred(&mut self) -> (r: Option<C>)
        requires
            old(self).wf(),
        ensures
            final(self).wf(),
            dequeued(*old(self), r, *final(self)),
    {
        self.deferred.pop_front()
    }
}

impl<H: Handler, C> IoLoop<H, C> {
    /// Registers `handler`. On success the command registers its descriptor
    /// with the multiplexer under the new token, with the handler's interest
    /// and poll option or the defaults (read interest, level-triggered).
    pub fn register(&mut self, handler: H) -> (r: Result<Command, EventError>)
        requires
            old(self).wf(),
        ensures
            final(self).wf(),
            registered_in(*old(self), handler, r, *final(self)),
    {
        let desc = handler.desc();
        let interest = resolve_interest(handler.interest());
        let opt = resolve_opt(handler.opt());
        match self.registry.register(handler) {
            Ok(token) => Ok(Command::Register { token, desc, interest, opt }),
            Err(e) => Err(e),
        }
    }

    /// Dispatches a read readiness of `token`; see `IoHandler::readable`.
    pub fn readable(&mut self, token: Token, hint: ReadHint) -> (r: Outcome)
        requires
            old(self).wf(),
        ensures
            final(self).wf(),
            dispatched_in(*old(self), token@, r, *final(self)),
            read_answer(old(self).registry(), token@, hint, r, final(self).registry()),
    {
        self.registry.readable(token, hint)
    }

    /// Dispatches a write readiness of `token`; see `IoHandler::writable`.
    pub fn writable(&mut self, token: Token) -> (r: Outcome)
        requires
            old(self).wf(),
        ensures
            final(self).wf(),
            dispatched_in(*old(self), token@, r, *final(self)),
            write_answer(old(self).registry(), token@, r, final(self).registry()),
    {
        self.registry.writable(token)
    }

    /// Carries out a registration: registers the handler, arms the timer or
    /// queues the callback.
    pub fn apply(&mut self, timers: &mut Timers, cmd: Registration<H, C>) -> (r: Result<
        Applied,
        EventError,
    >)
        requires
            old(self).wf(),
            old(timers).wf(),
        ensures
            final(self).wf(),
            final(timers).wf(),
            !(cmd is Timeout) ==> *final(timers) == *old(timers),
            (cmd is Timeout) ==> *final(self) == *old(self),
            match cmd {
                Registration::Handler(h) => exists|rc: Result<Command, EventError>|
                    registered_in(*old(self), h, rc, *final(self)) && r == match rc {
                        Ok(c) => Ok(Applied::Registered(c)),
                        Err(e) => Err::<Applied, EventError>(e),
                    },
                Registration::Timeout { delay, repeat } => exists|
                    rt: Result<TimeoutHandle, EventError>,
                |
                    armed(*old(timers), delay, repeat, rt, *final(timers)) && r == match rt {
                        Ok(t) => Ok(Applied::Armed(t)),
                        Err(e) => Err::<Applied, EventError>(e),
                    },
                Registration::Next(c) => queued(*old(self), c, *final(self)) && r == Ok::<
                    Applied,
                    EventError,
                >(Applied::Queued),
            },
    {
        match cmd {
            Registration::Handler(h) => match self.register(h) {
                Ok(c) => Ok(Applied::Registered(c)),
                Err(e) => Err(e),
            },
            Registration::Timeout { delay, repeat } => match timers.arm(delay, repeat) {
                Ok(t) => Ok(Applied::Armed(t)),
                Err(e) => Err(e),
            },
            Registration::Next(c) => {
                self.next(c);
                Ok(Applied::Queued)
            },
        }
    }
}

/// What `IoLoop::register` did.
pub open spec fn registered_in<H: Handler, C>(
    old: IoLoop<H, C>,
    handler: H,
    r: Result<Command, EventError>,
    new: IoLoop<H, C>,
) -> bool {
    &&& registered(old.registry(), handler, token_of(r), new.registry())
    &&& (r matches Ok(c) ==> c == register_of(c.token(), handler))
    &&& new.state() == old.state()
    &&& new.deferred() == old.deferred()
}

/// What a dispatch of token `t` to the loop did.
pub open spec fn dispatched_in<H: Handler, C>(
    old: IoLoop<H, C>,
    t: nat,
    r: Outcome,
    new: IoLoop<H, C>,
) -> bool {
    &&& dispatched(old.registry(), t, r, new.registry())
    &&& new.state() == old.state()
    &&& new.deferred() == old.deferred()
}

/// What `IoLoop::run` did.
pub open spec fn ran<H, C>(old: IoLoop<H, C>, r: Result<(), EventError>, new: IoLoop<H, C>) -> bool {
    if old.state() == RunState::Idle {
        &&& r is Ok
        &&& new.state() == RunState::Running
        &&& new.registry() == old.registry()
            &&& new.deferred() == old.deferred()
    } else {
        r == Err::<(), EventError>(EventError::Reentrancy) && new == old
    }
}

/// What `IoLoop::shutdown` did.
pub open spec fn shut_down<H, C>(old: IoLoop<H, C>, r: bool, new: IoLoop<H, C>) -> bool {
    if old.state() == RunState::Idle {
        !r && new == old
    } else {
        &&& r
        &&& new.state() == RunState::Stopping
        &&& new.registry() == old.registry()
            &&& new.deferred() == old.deferred()
    }
}

/// What `IoLoop::finish` did.
pub open spec fn finished<H, C>(old: IoLoop<H, C>, new: IoLoop<H, C>) -> bool {
    &&& new.state() == RunState::Idle
    &&& new.registry().handlers() == old.registry().handlers()
    &&& new.registry().retired_tokens() == Set::<nat>::empty()
    &&& new.registry().parked() == Map::<nat, H>::empty()
    &&& new.registry().spec_capacity() == old.registry().spec_capacity()
    &&& new.deferred() == old.deferred()
}

/// What queuing `c` did.
pub open spec fn queued<H, C>(old: IoLoop<H, C>, c: C, new: IoLoop<H, C>) -> bool {
    &&& new.deferred() == old.deferred().push(c)
    &&& new.state() == old.state()
    &&& new.registry() == old.registry()
}

/// What taking the oldest queued callback did.
pub open spec fn dequeued<H, C>(old: IoLoop<H, C>, r: Option<C>, new: IoLoop<H, C>) -> bool {
    &&& new.state() == old.state()
    &&& new.registry() == old.registry()
    &&& if old.deferred().len() == 0 {
        r is None && new.deferred() == old.deferred()
    } else {
        r == Some(old.deferred()[0]) && new.deferred() == old.deferred().drop_first()
    }
}

/// Starting a loop that is already running, as code called from inside its
/// dispatch would, reports `Reentrancy` and changes nothing: of two starts of
/// an idle loop, only the first enters the running state.
pub proof fn lemma_run_once<H, C>(
    l0: IoLoop<H, C>,
    r1: Result<(), EventError>,
    l1: IoLoop<H, C>,
    r2: Result<(), EventError>,
    l2: IoLoop<H, C>,
)
    requires
        l0.state() == RunState::Idle,
        ran(l0, r1, l1),
        ran(l1, r2, l2),
    ensures
        r1 is Ok,
        l1.state() == RunState::Running,
        r2 == Err::<(), EventError>(EventError::Reentrancy),
        l2 == l1,
{
}

/// Deferred callbacks run in the order they were queued: after `cs` are
/// queued one by one on a loop with an empty queue, as many takes return them
/// in that order and empty the queue.
pub proof fn lemma_deferred_fifo<H, C>(loops: Seq<IoLoop<H, C>>, cs: Seq<C>, outs: Seq<Option<C>>)
    requires
        loops.len() == 2 * cs.len() + 1,
        outs.len() == cs.len(),
        loops[0].deferred() == Seq::<C>::empty(),
        forall|i: int| 0 <= i < cs.len() ==> #[trigger] queued(loops[i], cs[i], loops[i + 1]),
        forall|i: int|
            0 <= i < cs.len() ==> #[trigger] dequeued(
                loops[cs.len() + i],
                outs[i],
                loops[cs.len() + i + 1],
            ),
    ensures
        forall|i: int| 0 <= i < cs.len() ==> #[trigger] outs[i] == Some(cs[i]),
        loops.last().deferred() == Seq::<C>::empty(),
{
    let n = cs.len() as int;
    lemma_fifo_filled(loops, cs, n);
    assert(cs.subrange(0, n) =~= cs);
    lemma_fifo_drained(loops, cs, outs, n);
    assert(cs.subrange(n, n) =~= Seq::<C>::empty());
}

proof fn lemma_fifo_filled<H, C>(loops: Seq<IoLoop<H, C>>, cs: Seq<C>, k: int)
    requires
        loops.len() == 2 * cs.len() + 1,
        loops[0].deferred() == Seq::<C>::empty(),
        forall|i: int| 0 <= i < cs.len() ==> #[trigger] queued(loops[i], cs[i], loops[i + 1]),
        0 <= k <= cs.len(),
    ensures
        loops[k].deferred() == cs.subrange(0, k),
    decreases k,
{
    if k == 0 {
        assert(cs.subrange(0, 0) =~= Seq::<C>::empty());
    } else {
        lemma_fifo_filled(loops, cs, k - 1);
        assert(queued(loops[k - 1], cs[k - 1], loops[(k - 1) + 1]));
        assert(cs.subrange(0, k) =~= cs.subrange(0, k - 1).push(cs[k - 1]));
    }
}

proof fn lemma_fifo_drained<H, C>(
    loops: Seq<IoLoop<H, C>>,
    cs: Seq<C>,
    outs: Seq<Option<C>>,
    k: int,
)
    requires
        loops.len() == 2 * cs.len() + 1,
        outs.len() == cs.len(),
        loops[cs.len() as int].deferred() == cs,
        forall|i: int|
            0 <= i < cs.len() ==> #[trigger] dequeued(
                loops[cs.len() + i],
                outs[i],
                loops[cs.len() + i + 1],
            ),
        0 <= k <= cs.len(),
    ensures
        loops[cs.len() + k].deferred() == cs.subrange(k, cs.len() as int),
        forall|i: int| 0 <= i < k ==> #[trigger] outs[i] == Some(cs[i]),
    decreases k,
{
    let n = cs.len() as int;
    if k == 0 {
        assert(cs.subrange(0, n) =~= cs);
    } else {
        lemma_fifo_drained(loops, cs, outs, k - 1);
        assert(dequeued(loops[n + (k - 1)], outs[k - 1], loops[n + (k - 1) + 1]));
        assert(cs.subrange(k - 1, n)[0] == cs[k - 1]);
        assert(cs.subrange(k, n) =~= cs.subrange(k - 1, n).drop_first());
    }
}

/// Round trip: a handler registered under a token `t` that then answers
/// "continue" `outs.len() - 1` times and "stop" once gives rise to exactly
/// one `Register`, then one `Reregister` per "continue" and then one
/// `Deregister` command, all for `t` and in that order; afterwards the loop
/// holds the handlers it held before the registration, and `t` waits in the
/// retired tokens until the batch ends.
pub proof fn lemma_round_trip<H: Handler, C>(
    loops: Seq<IoLoop<H, C>>,
    handler: H,
    reg: Result<Command, EventError>,
    outs: Seq<Outcome>,
)
    requires
        loops.len() == outs.len() + 2,
        outs.len() >= 1,
        registered_in(loops[0], handler, reg, loops[1]),
        reg is Ok,
        forall|i: int|
            0 <= i < outs.len() ==> #[trigger] dispatched_in(
                loops[i + 1],
                reg->Ok_0.token()@,
                outs[i],
                loops[i + 2],
            ),
        forall|i: int| 0 <= i < outs.len() - 1 ==> #[trigger] outs[i] is Continued,
        !(outs.last() is Continued),
    ensures
        reg->Ok_0 == register_of(reg->Ok_0.token(), handler),
        forall|i: int|
            0 <= i < outs.len() - 1 ==> (#[trigger] outs[i]->Continued_0 is Reregister)
                && outs[i]->Continued_0.token() == reg->Ok_0.token(),
        forall|i: int|
            0 <= i < outs.len() - 1 ==> #[trigger] outs[i]->Continued_0 == rearm_of(
                reg->Ok_0.token(),
                loops[i + 2].registry().handlers()[reg->Ok_0.token()@],
            ),
        outs.last() is Stopped,
        outs.last()->Stopped_0 is Deregister,
        outs.last()->Stopped_0.token() == reg->Ok_0.token(),
        loops.last().registry().handlers() == loops[0].registry().handlers(),
        loops.last().registry().retired_tokens() == loops[0].registry().retired_tokens().insert(
            reg->Ok_0.token()@,
        ),
        loops.last().registry().parked().contains_key(reg->Ok_0.token()@),
{
    let t = reg->Ok_0.token()@;
    let n = outs.len() - 1;
    lemma_round_trip_live(loops, handler, reg, outs, n);
    assert(dispatched_in(loops[n + 1], t, outs[n], loops[n + 2]));
    assert(loops.last().registry().handlers() =~= loops[0].registry().handlers());
    assert forall|i: int| 0 <= i < outs.len() - 1 implies (#[trigger] outs[i]->Continued_0 is Reregister)
        && outs[i]->Continued_0.token() == reg->Ok_0.token() by {
        assert(dispatched_in(loops[i + 1], t, outs[i], loops[i + 2]));
    }
    assert forall|i: int| 0 <= i < outs.len() - 1 implies #[trigger] outs[i]->Continued_0 == rearm_of(
        reg->Ok_0.token(),
        loops[i + 2].registry().handlers()[t],
    ) by {
        assert(dispatched_in(loops[i + 1], t, outs[i], loops[i + 2]));
    }
}

proof fn lemma_round_trip_live<H: Handler, C>(
    loops: Seq<IoLoop<H, C>>,
    handler: H,
    reg: Result<Command, EventError>,
    outs: Seq<Outcome>,
    k: int,
)
    requires
        loops.len() == outs.len() + 2,
        outs.len() >= 1,
        registered_in(loops[0], handler, reg, loops[1]),
        reg is Ok,
        forall|i: int|
            0 <= i < outs.len() ==> #[trigger] dispatched_in(
                loops[i + 1],
                reg->Ok_0.token()@,
                outs[i],
                loops[i + 2],
            ),
        forall|i: int| 0 <= i < outs.len() - 1 ==> #[trigger] outs[i] is Continued,
        0 <= k < outs.len(),
    ensures
        loops[k + 1].registry().handlers().contains_key(reg->Ok_0.token()@),
        loops[k + 1].registry().handlers().remove(reg->Ok_0.token()@) == loops[0].registry().handlers(),
        loops[k + 1].registry().retired_tokens() == loops[0].registry().retired_tokens(),
    decreases k,
{
    let t = reg->Ok_0.token()@;
    if k == 0 {
        assert(loops[1].registry().handlers().remove(t) =~= loops[0].registry().handlers());
    } else {
        lemma_round_trip_live(loops, handler, reg, outs, k - 1);
        assert(outs[k - 1] is Continued);
        assert(dispatched_in(loops[(k - 1) + 1], t, outs[k - 1], loops[(k - 1) + 2]));
    }
}

/// The tokens that the multiplexer watches after it performs `c`, when it
/// watched `w` before.
pub open spec fn watched_after(w: Set<nat>, c: Command) -> Set<nat> {
    match c {
        Command::Register { token, .. } => w.insert(token@),
        Command::Reregister { .. } => w,
        Command::Deregister { token, .. } => w.remove(token@),
    }
}

/// A multiplexer that performs the command of every registration keeps
/// watching exactly the tokens that hold a handler.
pub proof fn lemma_register_tracks_handlers<H: Handler, C>(
    old: IoLoop<H, C>,
    handler: H,
    r: Result<Command, EventError>,
    new: IoLoop<H, C>,
)
    requires
        registered_in(old, handler, r, new),
    ensures
        r matches Ok(c) ==> watched_after(old.registry().handlers().dom(), c)
            == new.registry().handlers().dom(),
        r is Err ==> new.registry().handlers().dom() == old.registry().handlers().dom(),
{
    if r is Ok {
        assert(watched_after(old.registry().handlers().dom(), r->Ok_0)
            =~= new.registry().handlers().dom());
    }
}

/// A multiplexer that performs the command of every dispatch keeps watching
/// exactly the tokens that hold a handler; a dispatch that finds no handler
/// gives it nothing to do.
pub proof fn lemma_dispatch_tracks_handlers<H: Handler, C>(
    old: IoLoop<H, C>,
    t: nat,
    r: Outcome,
    new: IoLoop<H, C>,
)
    requires
        dispatched_in(old, t, r, new),
    ensures
        r matches Outcome::Continued(c) ==> watched_after(old.registry().handlers().dom(), c)
            == new.registry().handlers().dom(),
        r matches Outcome::Stopped(c) ==> watched_after(old.registry().handlers().dom(), c)
            == new.registry().handlers().dom(),
        r is Absent ==> new.registry().handlers().dom() == old.registry().handlers().dom(),
{
    match r {
        Outcome::Stopped(c) => {
            assert(watched_after(old.registry().handlers().dom(), c)
                =~= new.registry().handlers().dom());
        },
        _ => {},
    }
}

} // verus!
