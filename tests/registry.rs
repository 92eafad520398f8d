use event::error::EventError;
use event::handler::{resolve_interest, resolve_opt, Desc, Handler, Interest, PollOpt, ReadHint, Token};
use event::registry::{Command, IoHandler, Outcome};

/// A handler that answers from a script, then "stop" once the script runs out.
struct Scripted {
    fd: i32,
    answers: Vec<bool>,
    calls: usize,
    interest: Option<Interest>,
    opt: Option<PollOpt>,
}

impl Scripted {
    fn new(fd: i32, answers: Vec<bool>) -> Scripted {
        Scripted { fd, answers, calls: 0, interest: None, opt: None }
    }

    fn answer(&mut self) -> bool {
        let a = self.answers.get(self.calls).copied().unwrap_or(false);
        self.calls += 1;
        a
    }
}

impl Handler for Scripted {

    fn spec_desc(&self) -> Desc {
        Desc::new(self.fd)
    }

    fn spec_interest(&self) -> Option<Interest> {
        self.interest
    }

    fn spec_opt(&self) -> Option<PollOpt> {
        self.opt
    }

    fn read_step(&self, _hint: ReadHint, _next: &Self, _go_on: bool) -> bool {
        true
    }

    fn write_step(&self, _next: &Self, _go_on: bool) -> bool {
        true
    }
    fn readable(&mut self, _hint: ReadHint) -> bool {
        self.answer()
    }

    fn writable(&mut self) -> bool {
        self.answer()
    }

    fn desc(&self) -> Desc {
        Desc::new(self.fd)
    }

    fn interest(&self) -> Option<Interest> {
        self.interest
    }

    fn opt(&self) -> Option<PollOpt> {
        self.opt
    }
}

fn hint() -> ReadHint {
    ReadHint { data: true, hup: false, error: false }
}

fn level() -> PollOpt {
    PollOpt::level()
}

#[test]
fn registrations_up_to_capacity_get_distinct_tokens() {
    let mut reg: IoHandler<Scripted> = IoHandler::new(4);
    assert_eq!(reg.capacity(), 4);
    assert_eq!(reg.len(), 0);
    let mut tokens: Vec<Token> = Vec::new();
    for i in 0..4 {
        let t = reg.register(Scripted::new(10 + i, vec![])).unwrap();
        assert!(!tokens.contains(&t));
        tokens.push(t);
        assert_eq!(reg.len(), (i + 1) as usize);
    }
    for t in &tokens {
        assert!(reg.contains(*t));
    }
}

#[test]
fn registration_beyond_capacity_is_refused() {
    let mut reg: IoHandler<Scripted> = IoHandler::new(2);
    let a = reg.register(Scripted::new(3, vec![])).unwrap();
    let b = reg.register(Scripted::new(4, vec![])).unwrap();
    assert_eq!(reg.register(Scripted::new(5, vec![])), Err(EventError::RegistryFull));
    assert_eq!(reg.len(), 2);
    assert!(reg.contains(a));
    assert!(reg.contains(b));
    assert!(!reg.contains(Token(2)));
}

#[test]
fn zero_capacity_refuses_everything() {
    let mut reg: IoHandler<Scripted> = IoHandler::new(0);
    assert_eq!(reg.register(Scripted::new(3, vec![])), Err(EventError::RegistryFull));
    assert_eq!(reg.len(), 0);
}

#[test]
fn continue_rearms_with_handler_settings() {
    let mut reg: IoHandler<Scripted> = IoHandler::new(8);
    let mut h = Scripted::new(7, vec![true]);
    h.interest = Some(Interest::both());
    h.opt = Some(PollOpt::edge());
    let t = reg.register(h).unwrap();
    let out = reg.readable(t, hint());
    assert_eq!(
        out,
        Outcome::Continued(Command::Reregister {
            token: t,
            desc: Desc::new(7),
            interest: Interest { readable: true, writable: true },
            opt: PollOpt { edge: true, oneshot: false },
        })
    );
    assert!(reg.contains(t));
}

#[test]
fn continue_without_settings_uses_defaults() {
    let mut reg: IoHandler<Scripted> = IoHandler::new(8);
    let t = reg.register(Scripted::new(9, vec![true])).unwrap();
    let out = reg.writable(t);
    assert_eq!(
        out,
        Outcome::Continued(Command::Reregister {
            token: t,
            desc: Desc::new(9),
            interest: Interest::readable(),
            opt: level(),
        })
    );
}

#[test]
fn stop_on_readable_then_writable_is_a_no_op() {
    let mut reg: IoHandler<Scripted> = IoHandler::new(8);
    let t = reg.register(Scripted::new(5, vec![false, true])).unwrap();
    assert_eq!(
        reg.readable(t, hint()),
        Outcome::Stopped(Command::Deregister { token: t, desc: Desc::new(5) })
    );
    assert_eq!(reg.writable(t), Outcome::Absent);
    assert!(!reg.contains(t));
    assert_eq!(reg.len(), 0);
}

#[test]
fn writable_continues_then_readable_stops() {
    let mut reg: IoHandler<Scripted> = IoHandler::new(8);
    let t = reg.register(Scripted::new(5, vec![true, false])).unwrap();
    assert!(matches!(reg.writable(t), Outcome::Continued(Command::Reregister { .. })));
    assert_eq!(
        reg.readable(t, hint()),
        Outcome::Stopped(Command::Deregister { token: t, desc: Desc::new(5) })
    );
    assert!(!reg.contains(t));
}

#[test]
fn writable_stops_then_readable_is_a_no_op() {
    let mut reg: IoHandler<Scripted> = IoHandler::new(8);
    let t = reg.register(Scripted::new(5, vec![false])).unwrap();
    assert!(matches!(reg.writable(t), Outcome::Stopped(Command::Deregister { .. })));
    assert_eq!(reg.readable(t, hint()), Outcome::Absent);
    assert!(!reg.contains(t));
}

#[test]
fn unknown_token_is_a_no_op() {
    let mut reg: IoHandler<Scripted> = IoHandler::new(8);
    let t = reg.register(Scripted::new(5, vec![true])).unwrap();
    assert_eq!(reg.readable(Token(7), hint()), Outcome::Absent);
    assert_eq!(reg.writable(Token(1000)), Outcome::Absent);
    assert_eq!(reg.len(), 1);
    assert!(reg.contains(t));
}

#[test]
fn retired_token_is_not_reused_within_a_batch() {
    let mut reg: IoHandler<Scripted> = IoHandler::new(8);
    let a = reg.register(Scripted::new(5, vec![false])).unwrap();
    assert!(matches!(reg.readable(a, hint()), Outcome::Stopped(_)));
    let b = reg.register(Scripted::new(6, vec![])).unwrap();
    assert_ne!(a, b);
    reg.end_batch();
    let c = reg.register(Scripted::new(7, vec![])).unwrap();
    assert_eq!(c, a);
    assert_eq!(reg.len(), 2);
}

#[test]
fn retired_slot_counts_against_capacity_until_batch_ends() {
    let mut reg: IoHandler<Scripted> = IoHandler::new(1);
    let a = reg.register(Scripted::new(5, vec![false])).unwrap();
    assert_eq!(a, Token(0));
    assert!(matches!(reg.writable(a), Outcome::Stopped(_)));
    assert_eq!(reg.register(Scripted::new(6, vec![])), Err(EventError::RegistryFull));
    reg.end_batch();
    assert_eq!(reg.register(Scripted::new(6, vec![])), Ok(Token(0)));
}

#[test]
fn defaults_resolve() {
    assert_eq!(resolve_interest(None), Interest { readable: true, writable: false });
    assert_eq!(resolve_interest(Some(Interest::writable())), Interest { readable: false, writable: true });
    assert_eq!(resolve_opt(None), PollOpt { edge: false, oneshot: false });
    assert_eq!(resolve_opt(Some(PollOpt::edge())), PollOpt { edge: true, oneshot: false });
}

#[test]
fn desc_keeps_the_descriptor() {
    assert_eq!(Desc::new(42).desc(), 42);
    assert_eq!(Desc::new(-1).desc(), -1);
}

/// Switches to write interest, edge-triggered, on its first read readiness.
struct Switcher {
    switched: bool,
}

impl Handler for Switcher {

    fn spec_desc(&self) -> Desc {
        self.desc()
    }

    fn spec_interest(&self) -> Option<Interest> {
        self.interest()
    }

    fn spec_opt(&self) -> Option<PollOpt> {
        self.opt()
    }

    fn read_step(&self, _hint: ReadHint, _next: &Self, _go_on: bool) -> bool {
        true
    }

    fn write_step(&self, _next: &Self, _go_on: bool) -> bool {
        true
    }
    fn readable(&mut self, _hint: ReadHint) -> bool {
        self.switched = true;
        true
    }

    fn writable(&mut self) -> bool {
        false
    }

    fn desc(&self) -> Desc {
        Desc::new(11)
    }

    fn interest(&self) -> Option<Interest> {
        if self.switched {
            Some(Interest::writable())
        } else {
            None
        }
    }

    fn opt(&self) -> Option<PollOpt> {
        if self.switched {
            Some(PollOpt::edge())
        } else {
            None
        }
    }
}

#[test]
fn rearm_reads_settings_after_the_call() {
    let mut reg: IoHandler<Switcher> = IoHandler::new(2);
    let t = reg.register(Switcher { switched: false }).unwrap();
    assert_eq!(
        reg.readable(t, hint()),
        Outcome::Continued(Command::Reregister {
            token: t,
            desc: Desc::new(11),
            interest: Interest::writable(),
            opt: PollOpt::edge(),
        })
    );
    assert_eq!(
        reg.writable(t),
        Outcome::Stopped(Command::Deregister { token: t, desc: Desc::new(11) })
    );
}

/// Sets its flag when dropped.
struct Owner {
    dropped: std::rc::Rc<std::cell::Cell<bool>>,
}

impl Drop for Owner {
    fn drop(&mut self) {
        self.dropped.set(true);
    }
}

impl Handler for Owner {
    fn spec_desc(&self) -> Desc {
        Desc::new(12)
    }

    fn spec_interest(&self) -> Option<Interest> {
        None
    }

    fn spec_opt(&self) -> Option<PollOpt> {
        None
    }

    fn read_step(&self, _hint: ReadHint, _next: &Self, _go_on: bool) -> bool {
        true
    }

    fn write_step(&self, _next: &Self, _go_on: bool) -> bool {
        true
    }

    fn readable(&mut self, _hint: ReadHint) -> bool {
        false
    }

    fn writable(&mut self) -> bool {
        false
    }

    fn desc(&self) -> Desc {
        Desc::new(12)
    }

    fn interest(&self) -> Option<Interest> {
        None
    }

    fn opt(&self) -> Option<PollOpt> {
        None
    }
}

#[test]
fn stopped_handler_lives_until_the_batch_ends() {
    let dropped = std::rc::Rc::new(std::cell::Cell::new(false));
    let mut reg: IoHandler<Owner> = IoHandler::new(2);
    let t = reg.register(Owner { dropped: dropped.clone() }).unwrap();
    assert_eq!(
        reg.readable(t, hint()),
        Outcome::Stopped(Command::Deregister { token: t, desc: Desc::new(12) })
    );
    assert!(!reg.contains(t));
    assert!(!dropped.get());
    reg.end_batch();
    assert!(dropped.get());
}
