//! Handlers and the plain values they exchange with the loop.
use vstd::prelude::*;

verus! {

/// Identifies one registration slot of the handler registry.
#[derive(Clone, Copy, Debug, PartialEq, Eq, Structural)]
pub struct Token(pub usize);

impl Token {
    pub open spec fn view(self) -> nat {
        self.0 as nat
    }
}

/// The readiness conditions a registration asks to be told about.
#[derive(Clone, Copy, Debug, PartialEq, Eq, Structural)]
pub struct Interest {
    pub readable: bool,
    pub writable: bool,
}

impl Interest {
    /// Read interest alone: the interest used when a handler names none.
    pub fn readable() -> (r: Interest)
        ensures
            r == (Interest { readable: true, writable: false }),
    {
        Interest { readable: true, writable: false }
    }

    /// Write interest alone.
    pub fn writable() -> (r: Interest)
        ensures
            r == (Interest { readable: false, writable: true }),
    {
        Interest { readable: false, writable: true }
    }

    /// Read and write interest together.
    pub fn both() -> (r: Interest)
        ensures
            r == (Interest { readable: true, writable: true }),
    {
        Interest { readable: true, writable: true }
    }
}

/// How the multiplexer reports readiness for a registration.
#[derive(Clone, Copy, Debug, PartialEq, Eq, Structural)]
pub struct PollOpt {
    /// Edge-triggered when set, level-triggered otherwise.
    pub edge: bool,
    /// Disarm the registration after its first notification.
    pub oneshot: bool,
}

impl PollOpt {
    /// Level-triggered notification: the option used when a handler names none.
    pub fn level() -> (r: PollOpt)
        ensures
            r == (PollOpt { edge: false, oneshot: false }),
    {
        PollOpt { edge: false, oneshot: false }
    }

    /// Edge-triggered notification.
    pub fn edge() -> (r: PollOpt)
        ensures
            r == (PollOpt { edge: true, oneshot: false }),
    {
        PollOpt { edge: true, oneshot: false }
    }
}

/// What the multiplexer reported along with a read readiness.
#[derive(Clone, Copy, Debug, PartialEq, Eq, Structural)]
pub struct ReadHint {
    pub data: bool,
    pub hup: bool,
    pub error: bool,
}

/// An operating-system descriptor that a handler is registered for.
#[derive(Clone, Copy, Debug, PartialEq, Eq, Structural)]
pub struct Desc {
    fd: i32,
}

impl Desc {
    pub closed spec fn view(self) -> i32 {
        self.fd
    }

    pub fn new(fd: i32) -> (r: Desc)
        ensures
            r@ == fd,
    {
        Desc { fd }
    }

    /// The raw descriptor.
    pub fn desc(&self) -> (r: i32)
        ensures
            r == self@,
    {
        self.fd
    }
}

/// The interest that a registration uses: the handler's own, or read interest.
pub open spec fn interest_or_default(i: Option<Interest>) -> Interest {
    match i {
        Some(x) => x,
        None => Interest { readable: true, writable: false },
    }
}

/// The poll option that a registration uses: the handler's own, or level-triggered.
pub open spec fn opt_or_default(o: Option<PollOpt>) -> PollOpt {
    match o {
        Some(x) => x,
        None => PollOpt { edge: false, oneshot: false },
    }
}

pub fn resolve_interest(i: Option<Interest>) -> (r: Interest)
    ensures
        r == interest_or_default(i),
{
    match i {
        Some(x) => x,
        None => Interest::readable(),
    }
}

pub fn resolve_opt(o: Option<PollOpt>) -> (r: PollOpt)
    ensures
        r == opt_or_default(o),
{
    match o {
        Some(x) => x,
        None => PollOpt::level(),
    }
}

/// An object that the loop owns and calls when its descriptor is ready.
///
/// `readable` and `writable` answer whether the handler wants to stay
/// registered: `true` to continue, `false` to be deregistered and dropped.
/// `interest` and `opt` are read again before every re-registration, so a
/// handler may change them between calls; `None` asks for the default (read
/// interest, level-triggered).
///
/// The spec functions model a handler: the descriptor, interest and option it
/// reports, and which answers and successor states each notification may
/// give. An implementation defines them along with the methods; a handler
/// that wants the defaults returns `None` from `interest` and `opt`.
pub trait Handler {
    spec fn spec_desc(&self) -> Desc;

    spec fn spec_interest(&self) -> Option<Interest>;

    spec fn spec_opt(&self) -> Option<PollOpt>;

    /// `self` may answer a read readiness with `hint` by `go_on`, becoming `next`.
    spec fn read_step(&self, hint: ReadHint, next: &Self, go_on: bool) -> bool;

    /// `self` may answer a write readiness by `go_on`, becoming `next`.
    spec fn write_step(&self, next: &Self, go_on: bool) -> bool;

    fn readable(&mut self, hint: ReadHint) -> (go_on: bool)
        ensures
            old(self).read_step(hint, &*final(self), go_on),
    ;

    fn writable(&mut self) -> (go_on: bool)
        ensures
            old(self).write_step(&*final(self), go_on),
    ;

    fn desc(&self) -> (r: Desc)
        ensures
            r == self.spec_desc(),
    ;

    fn interest(&self) -> (r: Option<Interest>)
        ensures
            r == self.spec_interest(),
    ;

    fn opt(&self) -> (r: Option<PollOpt>)
        ensures
            r == self.spec_opt(),
    ;
}

} // verus!
