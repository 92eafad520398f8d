//! The handler registry: a bounded slab that maps tokens to handlers.
use vstd::prelude::*;
use vstd::set_lib::{lemma_len_subset, lemma_set_disjoint_lens};

use crate::error::EventError;
use crate::handler::{
    interest_or_default, opt_or_default, resolve_interest, resolve_opt, Desc, Handler, Interest,
    PollOpt, ReadHint, Token,
};

verus! {

/// One slot of the registry.
pub enum Slot<H> {
    /// Free for the next registration.
    Vacant,
    /// Holds a registered handler.
    Live(H),
    /// Holds a handler that asked to stop during the current batch. It stays
    /// alive until the batch ends, so that its descriptor is deregistered
    /// before the handler (and what it owns) is dropped; and its token is not
    /// handed out while an event of the same batch may still name it.
    Retired(H),
}

/// A request for the readiness multiplexer.
#[derive(Clone, Copy, Debug, PartialEq, Eq, Structural)]
pub enum Command {
    /// Start watching `desc` under `token`.
    Register { token: Token, desc: Desc, interest: Interest, opt: PollOpt },
    /// Watch `desc` again under `token`, with the given interest and option.
    Reregister { token: Token, desc: Desc, interest: Interest, opt: PollOpt },
    /// Stop watching `desc`.
    Deregister { token: Token, desc: Desc },
}

impl Command {
    /// The token that the command is about.
    pub open spec fn token(self) -> Token {
        match self {
            Command::Register { token, .. } => token,
            Command::Reregister { token, .. } => token,
            Command::Deregister { token, .. } => token,
        }
    }
}

/// What a dispatch to the registry did.
#[derive(Clone, Copy, Debug, PartialEq, Eq, Structural)]
pub enum Outcome {
    /// The token held no handler: nothing was called or changed.
    Absent,
    /// The handler asked to continue; the command re-arms its registration.
    Continued(Command),
    /// The handler asked to stop and left the registry; the command
    /// deregisters it. The handler is kept until the batch ends.
    Stopped(Command),
}

/// The tokens below `n`.
pub open spec fn below(n: nat) -> Set<nat> {
    Set::new(|i: nat| i < n)
}

pub open spec fn live_set<H>(s: Seq<Slot<H>>) -> Set<nat> {
    Set::new(|i: nat| i < s.len() && s[i as int] is Live)
}

pub open spec fn retired_set<H>(s: Seq<Slot<H>>) -> Set<nat> {
    Set::new(|i: nat| i < s.len() && s[i as int] is Retired)
}

proof fn lemma_below(n: nat)
    ensures
        below(n).finite(),
        below(n).len() == n,
    decreases n,
{
    if n == 0 {
        assert(below(0) =~= Set::empty());
    } else {
        lemma_below((n - 1) as nat);
        assert(below(n) =~= below((n - 1) as nat).insert((n - 1) as nat));
    }
}

/// Live and retired slots are disjoint, finite, and together fill every slot
/// that is not vacant.
proof fn lemma_counts<H>(s: Seq<Slot<H>>)
    ensures
        live_set(s).finite(),
        retired_set(s).finite(),
        live_set(s).disjoint(retired_set(s)),
        live_set(s).len() + retired_set(s).len() <= s.len(),
        (forall|j: int| 0 <= j < s.len() ==> !(#[trigger] s[j] is Vacant)) ==> live_set(s).len()
            + retired_set(s).len() == s.len(),
        (exists|j: int| 0 <= j < s.len() && #[trigger] s[j] is Vacant) ==> live_set(s).len()
            + retired_set(s).len() < s.len(),
{
    let n = s.len();
    lemma_below(n);
    let used = live_set(s) + retired_set(s);
    lemma_len_subset(live_set(s), below(n));
    lemma_len_subset(retired_set(s), below(n));
    assert(live_set(s).disjoint(retired_set(s)));
    lemma_set_disjoint_lens(live_set(s), retired_set(s));
    lemma_len_subset(used, below(n));
    if forall|j: int| 0 <= j < s.len() ==> !(#[trigger] s[j] is Vacant) {
        assert(used =~= below(n)) by {
            assert forall|i: nat| below(n).contains(i) implies used.contains(i) by {
                assert(!(s[i as int] is Vacant));
            }
        }
    }
    if exists|j: int| 0 <= j < s.len() && #[trigger] s[j] is Vacant {
        let j = choose|j: int| 0 <= j < s.len() && #[trigger] s[j] is Vacant;
        assert(below(n).contains(j as nat));
        lemma_len_subset(used, below(n).remove(j as nat));
    }
}

/// The handler registry: up to `capacity` handlers, each under its own token.
pub struct IoHandler<H> {
    slots: Vec<Slot<H>>,
    live: usize,
    retired: usize,
    capacity: usize,
}

impl<H> IoHandler<H> {
    /// The registered handlers, by token.
    pub closed spec fn handlers(&self) -> Map<nat, H> {
        Map::new(|i: nat| live_set(self.slots@).contains(i), |i: nat| self.slots@[i as int]->Live_0)
    }

    /// The tokens emptied during the current batch, not yet free again.
    pub closed spec fn retired_tokens(&self) -> Set<nat> {
        retired_set(self.slots@)
    }

    /// The handlers stopped during the current batch, each under its old
    /// token, kept alive until the batch ends.
    pub closed spec fn parked(&self) -> Map<nat, H> {
        Map::new(
            |i: nat| retired_set(self.slots@).contains(i),
            |i: nat| self.slots@[i as int]->Retired_0,
        )
    }

    /// `self` is `old` with the handler in slot `i` replaced by another.
    closed spec fn same_but_handler(&self, old: IoHandler<H>, i: int) -> bool {
        &&& self.wf()
        &&& self.capacity == old.capacity
        &&& self.slots@.len() == old.slots@.len()
        &&& self.slots@[i] is Live
        &&& forall|j: int| 0 <= j < self.slots@.len() && j != i ==> self.slots@[j] == old.slots@[j]
    }

    /// The number of slots that the registry was made with.
    pub closed spec fn spec_capacity(&self) -> nat {
        self.capacity as nat
    }

    pub closed spec fn wf(&self) -> bool {
        &&& self.slots@.len() <= self.capacity
        &&& self.live == live_set(self.slots@).len()
        &&& self.retired == retired_set(self.slots@).len()
    }

    /// What every well-formed registry satisfies.
    pub proof fn lemma_wf(&self)
        requires
            self.wf(),
        ensures
            self.handlers().dom().finite(),
            self.retired_tokens().finite(),
            self.handlers().dom().disjoint(self.retired_tokens()),
            self.handlers().len() + self.retired_tokens().len() <= self.spec_capacity(),
            forall|t: nat| #[trigger] self.handlers().contains_key(t) ==> t < self.spec_capacity(),
            forall|t: nat| #[trigger] self.retired_tokens().contains(t) ==> t < self.spec_capacity(),
    {
        lemma_counts(self.slots@);
        assert(self.handlers().dom() =~= live_set(self.slots@));
    }

    /// An empty registry with room for `capacity` handlers.
    pub fn new(capacity: usize) -> (r: IoHandler<H>)
        ensures
            r.wf(),
            r.handlers() == Map::<nat, H>::empty(),
            r.retired_tokens() == Set::<nat>::empty(),
            r.spec_capacity() == capacity,
    {
        let r = IoHandler { slots: Vec::new(), live: 0, retired: 0, capacity };
        proof {
            assert(live_set(r.slots@) =~= Set::empty());
            assert(retired_set(r.slots@) =~= Set::empty());
            assert(r.handlers() =~= Map::empty());
        }
        r
    }

    /// The number of registered handlers.
    pub fn len(&self) -> (r: usize)
        requires
            self.wf(),
        ensures
            r == self.handlers().len(),
    {
        proof {
            assert(self.handlers().dom() =~= live_set(self.slots@));
        }
        self.live
    }

    /// The number of slots.
    pub fn capacity(&self) -> (r: usize)
        ensures
            r == self.spec_capacity(),
    {
        self.capacity
    }

    /// Whether `token` holds a handler.
    pub fn contains(&self, token: Token) -> (r: bool)
        ensures
            r == self.handlers().contains_key(token@),
    {
        token.0 < self.slots.len() && self.slots[token.0].is_live()
    }

    /// The first vacant slot, if any.
    fn first_vacant(&self) -> (r: Option<usize>)
        ensures
            match r {
                Some(i) => i < self.slots@.len() && self.slots@[i as int] is Vacant,
                None => forall|j: int|
                    0 <= j < self.slots@.len() ==> !(#[trigger] self.slots@[j] is Vacant),
            },
    {
        let n = self.slots.len();
        let mut i: usize = 0;
        while i < n
            invariant
                n == self.slots@.len(),
                i <= n,
                forall|j: int| 0 <= j < i ==> !(#[trigger] self.slots@[j] is Vacant),
            decreases n - i,
        {
            if self.slots[i].is_vacant() {
                return Some(i);
            }
            i = i + 1;
        }
        None
    }
}

/// What `IoHandler::register` did: the registry before and after, the handler
/// offered and the result.
pub open spec fn registered<H>(
    old: IoHandler<H>,
    handler: H,
    r: Result<Token, EventError>,
    new: IoHandler<H>,
) -> bool {
    &&& new.spec_capacity() == old.spec_capacity()
    &&& (r is Ok <==> old.handlers().len() + old.retired_tokens().len() < old.spec_capacity())
    &&& match r {
        Ok(t) => {
            &&& !old.handlers().contains_key(t@)
            &&& !old.retired_tokens().contains(t@)
            &&& t@ < old.spec_capacity()
            &&& new.handlers() == old.handlers().insert(t@, handler)
            &&& new.retired_tokens() == old.retired_tokens()
            &&& new.parked() == old.parked()
        },
        Err(e) => e == EventError::RegistryFull && new == old,
    }
}

/// The command that registers handler `h` under `token`: its descriptor, and
/// its interest and option or the defaults.
pub open spec fn register_of<H: Handler>(token: Token, h: H) -> Command {
    Command::Register {
        token,
        desc: h.spec_desc(),
        interest: interest_or_default(h.spec_interest()),
        opt: opt_or_default(h.spec_opt()),
    }
}

/// The command that re-arms handler `h` under `token`, with its current
/// interest and option or the defaults.
pub open spec fn rearm_of<H: Handler>(token: Token, h: H) -> Command {
    Command::Reregister {
        token,
        desc: h.spec_desc(),
        interest: interest_or_default(h.spec_interest()),
        opt: opt_or_default(h.spec_opt()),
    }
}

/// The command that deregisters handler `h`, registered under `token`.
pub open spec fn deregister_of<H: Handler>(token: Token, h: H) -> Command {
    Command::Deregister { token, desc: h.spec_desc() }
}

/// How the handler under `t` answered the read readiness that `r` reports:
/// by "continue", becoming the handler now under `t`; or by "stop", becoming
/// the handler now parked under `t`, whose descriptor the deregistration
/// carries.
pub open spec fn read_answer<H: Handler>(
    old: IoHandler<H>,
    t: nat,
    hint: ReadHint,
    r: Outcome,
    new: IoHandler<H>,
) -> bool {
    match r {
        Outcome::Absent => true,
        Outcome::Continued(_) => old.handlers()[t].read_step(hint, &new.handlers()[t], true),
        Outcome::Stopped(c) => {
            &&& old.handlers()[t].read_step(hint, &new.parked()[t], false)
            &&& c == deregister_of(c.token(), new.parked()[t])
        },
    }
}

/// How the handler under `t` answered the write readiness that `r` reports;
/// as `read_answer`.
pub open spec fn write_answer<H: Handler>(
    old: IoHandler<H>,
    t: nat,
    r: Outcome,
    new: IoHandler<H>,
) -> bool {
    match r {
        Outcome::Absent => true,
        Outcome::Continued(_) => old.handlers()[t].write_step(&new.handlers()[t], true),
        Outcome::Stopped(c) => {
            &&& old.handlers()[t].write_step(&new.parked()[t], false)
            &&& c == deregister_of(c.token(), new.parked()[t])
        },
    }
}

/// What a dispatch of token `t` did: the registry before and after, and the
/// outcome.
pub open spec fn dispatched<H: Handler>(
    old: IoHandler<H>,
    t: nat,
    r: Outcome,
    new: IoHandler<H>,
) -> bool {
    &&& new.spec_capacity() == old.spec_capacity()
    &&& (r is Absent <==> !old.handlers().contains_key(t))
    &&& match r {
        Outcome::Absent => new == old,
        Outcome::Continued(c) => {
            &&& c == rearm_of(c.token(), new.handlers()[t])
            &&& c.token()@ == t
            &&& new.handlers().dom() == old.handlers().dom()
            &&& new.handlers().remove(t) == old.handlers().remove(t)
            &&& new.retired_tokens() == old.retired_tokens()
            &&& new.parked() == old.parked()
        },
        Outcome::Stopped(c) => {
            &&& c is Deregister
            &&& c.token()@ == t
            &&& new.handlers() == old.handlers().remove(t)
            &&& new.retired_tokens() == old.retired_tokens().insert(t)
            &&& new.parked() == old.parked().insert(t, new.parked()[t])
        },
    }
}

impl<H> IoHandler<H> {
    /// Puts `handler` in a free slot and returns its token. Fails with
    /// `RegistryFull`, changing nothing, when every slot is live or retired.
    pub fn register(&mut self, handler: H) -> (r: Result<Token, EventError>)
        requires
            old(self).wf(),
        ensures
            final(self).wf(),
            registered(*old(self), handler, r, *final(self)),
    {
        proof {
            lemma_counts(self.slots@);
            assert(self.handlers().dom() =~= live_set(self.slots@));
        }
        let ghost s0 = self.slots@;
        let i = match self.first_vacant() {
            Some(i) => {
                self.slots[i] = Slot::Live(handler);
                i
            },
            None => {
                let n = self.slots.len();
                if n < self.capacity {
                    self.slots.push(Slot::Live(handler));
                    n
                } else {
                    return Err(EventError::RegistryFull);
                }
            },
        };
        proof {
            assert(live_set(self.slots@) =~= live_set(s0).insert(i as nat));
            assert(retired_set(self.slots@) =~= retired_set(s0));
            assert(self.handlers() =~= old(self).handlers().insert(i as nat, handler));
            assert(self.parked() =~= old(self).parked());
        }
        self.live = self.live + 1;
        Ok(Token(i))
    }

    /// Frees the tokens retired during the batch that has just ended, and drops
    /// the handlers parked under them.
    pub fn end_batch(&mut self)
        requires
            old(self).wf(),
        ensures
            final(self).wf(),
            final(self).handlers() == old(self).handlers(),
            final(self).retired_tokens() == Set::<nat>::empty(),
            final(self).parked() == Map::<nat, H>::empty(),
            final(self).spec_capacity() == old(self).spec_capacity(),
    {
        let ghost s0 = self.slots@;
        let n = self.slots.len();
        let mut i: usize = 0;
        while i < n
            invariant
                n == self.slots@.len(),
                n == s0.len(),
                i <= n,
                self.capacity == old(self).capacity,
                self.live == old(self).live,
                forall|j: int|
                    0 <= j < n && (#[trigger] s0[j]) is Live ==> self.slots@[j] == s0[j],
                forall|j: int|
                    0 <= j < n && !(#[trigger] s0[j] is Live) ==> (if j < i {
                        self.slots@[j] is Vacant
                    } else {
                        self.slots@[j] == s0[j]
                    }),
            decreases n - i,
        {
            if !self.slots[i].is_live() {
                self.slots[i] = Slot::Vacant;
            }
            i = i + 1;
        }
        proof {
            assert(live_set(self.slots@) =~= live_set(s0));
            assert forall|j: nat| !retired_set(self.slots@).contains(j) by {
                if j < n {
                    let _ = s0[j as int];
                }
            }
            assert(retired_set(self.slots@) =~= Set::empty());
            assert(self.handlers() =~= old(self).handlers());
            assert(self.parked() =~= Map::empty());
        }
        self.retired = 0;
    }
}

impl<H: Handler> IoHandler<H> {
    /// Tells the handler under `token` that its descriptor is readable.
    ///
    /// A token without a handler (one stopped earlier in the same batch) is
    /// a silent no-op. Otherwise the handler is called: if it asks to
    /// continue, the outcome holds the command that re-arms its registration
    /// with its current interest and option; if it asks to stop, it leaves
    /// the registry and is parked under its token until `end_batch`, and the
    /// outcome holds the command that deregisters its descriptor, to be
    /// carried out while the handler is still alive.
    pub fn readable(&mut self, token: Token, hint: ReadHint) -> (r: Outcome)
        requires
            old(self).wf(),
        ensures
            final(self).wf(),
            dispatched(*old(self), token@, r, *final(self)),
            read_answer(*old(self), token@, hint, r, *final(self)),
    {
        if !self.contains(token) {
            return Outcome::Absent;
        }
        let ghost before = *self;
        let go_on = self.call_readable(token.0, hint);
        proof {
            assert(self.handlers().dom() =~= before.handlers().dom());
            assert(self.handlers().remove(token@) =~= before.handlers().remove(token@));
            assert(self.retired_tokens() =~= before.retired_tokens());
            assert(self.parked() =~= before.parked());
        }
        let ghost mid = self.slots@[token.0 as int]->Live_0;
        let ghost mid_state = *self;
        proof {
            assert(mid_state.handlers()[token@] == mid);
        }
        let r = self.settle(token, go_on);
        proof {
            if r is Stopped {
                assert(before.handlers()[token@].read_step(hint, &mid, false));
            }
        }
        r
    }

    /// Tells the handler under `token` that its descriptor is writable; as
    /// `readable` otherwise.
    pub fn writable(&mut self, token: Token) -> (r: Outcome)
        requires
            old(self).wf(),
        ensures
            final(self).wf(),
            dispatched(*old(self), token@, r, *final(self)),
            write_answer(*old(self), token@, r, *final(self)),
    {
        if !self.contains(token) {
            return Outcome::Absent;
        }
        let ghost before = *self;
        let go_on = self.call_writable(token.0);
        proof {
            assert(self.handlers().dom() =~= before.handlers().dom());
            assert(self.handlers().remove(token@) =~= before.handlers().remove(token@));
            assert(self.retired_tokens() =~= before.retired_tokens());
            assert(self.parked() =~= before.parked());
        }
        let ghost mid = self.slots@[token.0 as int]->Live_0;
        let ghost mid_state = *self;
        proof {
            assert(mid_state.handlers()[token@] == mid);
        }
        let r = self.settle(token, go_on);
        proof {
            if r is Stopped {
                assert(before.handlers()[token@].write_step(&mid, false));
            }
        }
        r
    }

    /// Calls the handler in slot `i`, which stays live; nothing else changes.
    fn call_readable(&mut self, i: usize, hint: ReadHint) -> (go_on: bool)
        requires
            old(self).wf(),
            i < old(self).slots@.len(),
            old(self).slots@[i as int] is Live,
        ensures
            final(self).same_but_handler(*old(self), i as int),
            old(self).slots@[i as int]->Live_0.read_step(
                hint,
                &final(self).slots@[i as int]->Live_0,
                go_on,
            ),
    {
        let ghost s0 = self.slots@;
        let go_on = match &mut self.slots[i] {
            Slot::Live(h) => h.readable(hint),
            _ => vstd::pervasive::unreached(),
        };
        proof {
            assert(live_set(self.slots@) =~= live_set(s0));
            assert(retired_set(self.slots@) =~= retired_set(s0));
        }
        go_on
    }

    /// Calls the handler in slot `i`, which stays live; nothing else changes.
    fn call_writable(&mut self, i: usize) -> (go_on: bool)
        requires
            old(self).wf(),
            i < old(self).slots@.len(),
            old(self).slots@[i as int] is Live,
        ensures
            final(self).same_but_handler(*old(self), i as int),
            old(self).slots@[i as int]->Live_0.write_step(&final(self).slots@[i as int]->Live_0, go_on),
    {
        let ghost s0 = self.slots@;
        let go_on = match &mut self.slots[i] {
            Slot::Live(h) => h.writable(),
            _ => vstd::pervasive::unreached(),
        };
        proof {
            assert(live_set(self.slots@) =~= live_set(s0));
            assert(retired_set(self.slots@) =~= retired_set(s0));
        }
        go_on
    }

    /// Acts on a handler's answer: re-arm it, or retire its slot.
    fn settle(&mut self, token: Token, go_on: bool) -> (r: Outcome)
        requires
            old(self).wf(),
            old(self).handlers().contains_key(token@),
        ensures
            final(self).wf(),
            dispatched(*old(self), token@, r, *final(self)),
            go_on ==> (r is Continued) && *final(self) == *old(self),
            !go_on ==> (r is Stopped) && r->Stopped_0 == deregister_of(
                token,
                old(self).handlers()[token@],
            ) && final(self).parked()[token@] == old(self).handlers()[token@],
    {
        let i = token.0;
        let desc = self.handler_at(i).desc();
        if go_on {
            let h = self.handler_at(i);
            let c = Command::Reregister {
                token,
                desc,
                interest: resolve_interest(h.interest()),
                opt: resolve_opt(h.opt()),
            };
            return Outcome::Continued(c);
        }
        proof {
            lemma_counts(self.slots@);
        }
        let ghost s0 = self.slots@;
        let mut slot = Slot::Vacant;
        std::mem::swap(&mut self.slots[i], &mut slot);
        let h = match slot {
            Slot::Live(h) => h,
            _ => vstd::pervasive::unreached(),
        };
        self.slots[i] = Slot::Retired(h);
        proof {
            assert(self.slots@ == s0.update(i as int, Slot::Retired(s0[i as int]->Live_0)));
            assert(live_set(self.slots@) =~= live_set(s0).remove(i as nat));
            assert(retired_set(self.slots@) =~= retired_set(s0).insert(i as nat));
            assert(self.handlers() =~= old(self).handlers().remove(i as nat));
            assert(self.parked() =~= old(self).parked().insert(
                i as nat,
                old(self).handlers()[i as nat],
            ));
        }
        self.live = self.live - 1;
        self.retired = self.retired + 1;
        Outcome::Stopped(Command::Deregister { token, desc })
    }

    fn handler_at(&self, i: usize) -> (h: &H)
        requires
            i < self.slots@.len(),
            self.slots@[i as int] is Live,
        ensures
            *h == self.slots@[i as int]->Live_0,
    {
        match &self.slots[i] {
            Slot::Live(h) => h,
            _ => vstd::pervasive::unreached(),
        }
    }
}

impl<H> Slot<H> {
    fn is_live(&self) -> (r: bool)
        ensures
            r == (*self is Live),
    {
        match self {
            Slot::Live(_) => true,
            _ => false,
        }
    }

    fn is_vacant(&self) -> (r: bool)
        ensures
            r == (*self is Vacant),
    {
        match self {
            Slot::Vacant => true,
            _ => false,
        }
    }
}

} // verus!

verus! {

/// Registrations made one after another into an empty registry, no more of
/// them than it has slots, all succeed, each under a token that no other of
/// them got, and afterwards the registry holds exactly as many handlers as
/// calls were made, each under its token.
pub proof fn lemma_registrations_distinct<H>(
    regs: Seq<IoHandler<H>>,
    hs: Seq<H>,
    rs: Seq<Result<Token, EventError>>,
)
    requires
        regs.len() == hs.len() + 1,
        rs.len() == hs.len(),
        regs[0].handlers() == Map::<nat, H>::empty(),
        regs[0].retired_tokens() == Set::<nat>::empty(),
        hs.len() <= regs[0].spec_capacity(),
        forall|i: int| 0 <= i < hs.len() ==> #[trigger] registered(regs[i], hs[i], rs[i], regs[i + 1]),
    ensures
        forall|i: int| 0 <= i < rs.len() ==> #[trigger] rs[i] is Ok,
        forall|i: int, j: int| 0 <= i < j < rs.len() ==> rs[i]->Ok_0 != rs[j]->Ok_0,
        regs.last().handlers().len() == hs.len(),
        forall|i: int|
            0 <= i < rs.len() ==> regs.last().handlers().contains_key(#[trigger] rs[i]->Ok_0@),
{
    lemma_registrations_prefix(regs, hs, rs, hs.len() as int);
}

proof fn lemma_registrations_prefix<H>(
    regs: Seq<IoHandler<H>>,
    hs: Seq<H>,
    rs: Seq<Result<Token, EventError>>,
    k: int,
)
    requires
        regs.len() == hs.len() + 1,
        rs.len() == hs.len(),
        regs[0].handlers() == Map::<nat, H>::empty(),
        regs[0].retired_tokens() == Set::<nat>::empty(),
        hs.len() <= regs[0].spec_capacity(),
        forall|i: int| 0 <= i < hs.len() ==> #[trigger] registered(regs[i], hs[i], rs[i], regs[i + 1]),
        0 <= k <= hs.len(),
    ensures
        forall|i: int| 0 <= i < k ==> #[trigger] rs[i] is Ok,
        forall|i: int, j: int| 0 <= i < j < k ==> rs[i]->Ok_0 != rs[j]->Ok_0,
        regs[k].handlers().dom().finite(),
        regs[k].handlers().len() == k,
        regs[k].retired_tokens() == Set::<nat>::empty(),
        regs[k].spec_capacity() == regs[0].spec_capacity(),
        forall|i: int| 0 <= i < k ==> regs[k].handlers().contains_key(#[trigger] rs[i]->Ok_0@),
    decreases k,
{
    if k == 0 {
        assert(regs[0].handlers().dom() =~= Set::empty());
    } else {
        let p = k - 1;
        lemma_registrations_prefix(regs, hs, rs, p);
        assert(registered(regs[p], hs[p], rs[p], regs[p + 1]));
        assert(regs[p].retired_tokens().len() == 0);
        assert(rs[p] is Ok);
        let t = rs[p]->Ok_0@;
        assert(regs[k].handlers().dom() =~= regs[p].handlers().dom().insert(t));
        assert forall|i: int, j: int| 0 <= i < j < k implies rs[i]->Ok_0 != rs[j]->Ok_0 by {
            if j == p {
                assert(regs[p].handlers().contains_key(rs[i]->Ok_0@));
            }
        }
        assert forall|i: int| 0 <= i < k implies regs[k].handlers().contains_key(
            #[trigger] rs[i]->Ok_0@,
        ) by {
            if i < p {
                assert(regs[p].handlers().contains_key(rs[i]->Ok_0@));
            }
        }
    }
}

/// A registration adds exactly one handler when it succeeds, so the number of
/// handlers is always the number registered and not yet stopped; and it
/// succeeds, under a token that no handler holds, whenever fewer handlers
/// than slots are registered and no token waits in the retired ones.
pub proof fn lemma_register_grows<H>(
    old: IoHandler<H>,
    handler: H,
    r: Result<Token, EventError>,
    new: IoHandler<H>,
)
    requires
        old.wf(),
        registered(old, handler, r, new),
    ensures
        r is Ok ==> new.handlers().len() == old.handlers().len() + 1,
        r is Err ==> new.handlers().len() == old.handlers().len(),
        old.retired_tokens() == Set::<nat>::empty() && old.handlers().len() < old.spec_capacity()
            ==> (r is Ok),
{
    old.lemma_wf();
    if r is Ok {
        assert(new.handlers().dom() =~= old.handlers().dom().insert(r->Ok_0@));
    }
}

/// A registration into a registry that already holds as many handlers as it
/// has slots fails with `RegistryFull` and changes nothing.
pub proof fn lemma_full_registry_rejects<H>(
    old: IoHandler<H>,
    handler: H,
    r: Result<Token, EventError>,
    new: IoHandler<H>,
)
    requires
        old.wf(),
        old.handlers().len() == old.spec_capacity(),
        registered(old, handler, r, new),
    ensures
        r == Err::<Token, EventError>(EventError::RegistryFull),
        new == old,
        new.handlers() == old.handlers(),
{
    old.lemma_wf();
}

/// When a readable and a writable notification for one token arrive in the
/// same batch and the handler answers the readable one with "stop", it is
/// deregistered exactly once, in either order: one of the two dispatches
/// stops it, the other continues it before or finds no handler after, and
/// the registry ends without the token and otherwise unchanged, with the
/// stopped handler parked under it until the batch ends.
///
/// The readable dispatch is one of the two, and it does not continue, so the
/// two do not both continue.
pub proof fn lemma_stop_once<H: Handler>(
    r0: IoHandler<H>,
    t: nat,
    first: Outcome,
    r1: IoHandler<H>,
    second: Outcome,
    r2: IoHandler<H>,
)
    requires
        r0.handlers().contains_key(t),
        dispatched(r0, t, first, r1),
        dispatched(r1, t, second, r2),
        !(first is Continued && second is Continued),
    ensures
        (first is Stopped) != (second is Stopped),
        first is Stopped ==> second is Absent,
        first is Stopped ==> (first->Stopped_0 is Deregister) && first->Stopped_0.token()@ == t,
        second is Stopped ==> (second->Stopped_0 is Deregister) && second->Stopped_0.token()@ == t,
        !r2.handlers().contains_key(t),
        r2.handlers() == r0.handlers().remove(t),
        r2.retired_tokens() == r0.retired_tokens().insert(t),
        r2.parked().contains_key(t),
{
    if first is Continued {
        assert(r2.handlers() =~= r0.handlers().remove(t));
    }
}

} // verus!
