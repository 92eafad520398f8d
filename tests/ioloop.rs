use event::error::EventError;
use event::handler::{Desc, Handler, Interest, PollOpt, ReadHint};
use event::ioloop::{Applied, IoLoop, RunState, MAX_LISTENERS};
use event::registration::Registration;
use event::registry::{Command, Outcome};
use event::timers::{Expiry, Timers};
use event::{interval, next, register, run, shutdown, timeout};

/// A handler that continues a set number of times, then stops.
struct Countdown {
    fd: i32,
    left: u32,
}

impl Handler for Countdown {

    fn spec_desc(&self) -> Desc {
        Desc::new(self.fd)
    }

    fn spec_interest(&self) -> Option<Interest> {
        None
    }

    fn spec_opt(&self) -> Option<PollOpt> {
        None
    }

    fn read_step(&self, _hint: ReadHint, _next: &Self, _go_on: bool) -> bool {
        true
    }

    fn write_step(&self, _next: &Self, _go_on: bool) -> bool {
        true
    }
    fn readable(&mut self, _hint: ReadHint) -> bool {
        if self.left == 0 {
            false
        } else {
            self.left -= 1;
            true
        }
    }

    fn writable(&mut self) -> bool {
        false
    }

    fn desc(&self) -> Desc {
        Desc::new(self.fd)
    }

    fn interest(&self) -> Option<Interest> {
        None
    }

    fn opt(&self) -> Option<PollOpt> {
        None
    }
}

fn hint() -> ReadHint {
    ReadHint { data: true, hup: false, error: false }
}

type Loop = IoLoop<Countdown, u32>;

#[test]
fn new_loop_is_idle_and_empty() {
    let lp: Loop = IoLoop::new();
    assert_eq!(lp.state_now(), RunState::Idle);
    assert_eq!(lp.len(), 0);
    assert_eq!(MAX_LISTENERS, 65536);
}

#[test]
fn round_trip_register_continue_stop() {
    let mut lp: Loop = IoLoop::with_capacity(16);
    let reg = lp.register(Countdown { fd: 3, left: 3 }).unwrap();
    let token = match reg {
        Command::Register { token, desc, interest, opt } => {
            assert_eq!(desc, Desc::new(3));
            assert_eq!(interest, Interest::readable());
            assert_eq!(opt, PollOpt::level());
            token
        }
        other => panic!("expected a registration, got {:?}", other),
    };
    let mut commands = vec![reg];
    loop {
        match lp.readable(token, hint()) {
            Outcome::Continued(c) | Outcome::Stopped(c) => commands.push(c),
            Outcome::Absent => break,
        }
    }
    assert_eq!(commands.len(), 5);
    assert!(matches!(commands[0], Command::Register { .. }));
    for c in &commands[1..4] {
        assert_eq!(
            *c,
            Command::Reregister {
                token,
                desc: Desc::new(3),
                interest: Interest::readable(),
                opt: PollOpt::level(),
            }
        );
    }
    assert_eq!(commands[4], Command::Deregister { token, desc: Desc::new(3) });
    assert!(!lp.contains(token));
    assert_eq!(lp.len(), 0);
}

#[test]
fn second_run_is_reentrancy() {
    let mut lp: Loop = IoLoop::new();
    let mut entries = 0;
    if lp.run().is_ok() {
        entries += 1;
    }
    assert_eq!(lp.state_now(), RunState::Running);
    assert_eq!(lp.run(), Err(EventError::Reentrancy));
    if lp.run().is_ok() {
        entries += 1;
    }
    assert_eq!(entries, 1);
    assert_eq!(lp.state_now(), RunState::Running);
}

#[test]
fn shutdown_stops_a_running_loop() {
    let mut lp: Loop = IoLoop::new();
    assert_eq!(lp.run(), Ok(()));
    assert!(lp.shutdown());
    assert_eq!(lp.state_now(), RunState::Stopping);
    assert_eq!(lp.run(), Err(EventError::Reentrancy));
    lp.finish();
    assert_eq!(lp.state_now(), RunState::Idle);
    assert_eq!(lp.run(), Ok(()));
}

#[test]
fn shutdown_of_idle_loop_is_a_no_op() {
    let mut lp: Loop = IoLoop::new();
    assert!(!lp.shutdown());
    assert_eq!(lp.state_now(), RunState::Idle);
}

#[test]
fn deferred_callbacks_come_out_in_order() {
    let mut lp: Loop = IoLoop::new();
    lp.next(1);
    lp.next(2);
    lp.next(3);
    assert_eq!(lp.take_deferred(), Some(1));
    assert_eq!(lp.take_deferred(), Some(2));
    assert_eq!(lp.take_deferred(), Some(3));
    assert_eq!(lp.take_deferred(), None);
}

#[test]
fn apply_carries_out_each_registration() {
    let mut lp: Loop = IoLoop::with_capacity(1);
    let mut timers = Timers::new();
    match lp.apply(&mut timers, Registration::new(Countdown { fd: 8, left: 0 })) {
        Ok(Applied::Registered(Command::Register { desc, .. })) => assert_eq!(desc, Desc::new(8)),
        _ => panic!("expected a registration"),
    }
    assert!(matches!(
        lp.apply(&mut timers, Registration::new(Countdown { fd: 9, left: 0 })),
        Err(EventError::RegistryFull)
    ));
    let h = match lp.apply(&mut timers, Registration::timeout(20)) {
        Ok(Applied::Armed(h)) => h,
        _ => panic!("expected a timer"),
    };
    assert_eq!(timers.expired(h.id()), Expiry::Fire);
    let i = match lp.apply(&mut timers, Registration::interval(30)) {
        Ok(Applied::Armed(h)) => h,
        _ => panic!("expected a timer"),
    };
    assert_eq!(timers.expired(i.id()), Expiry::FireAndRearm(30));
    assert!(matches!(lp.apply(&mut timers, Registration::next(5)), Ok(Applied::Queued)));
    assert_eq!(lp.take_deferred(), Some(5));
    assert_eq!(lp.len(), 1);
}

#[test]
fn entry_points_act_on_the_given_loop() {
    let mut lp: Loop = IoLoop::with_capacity(2);
    let mut timers = Timers::new();
    let c = register(&mut lp, Countdown { fd: 4, left: 1 }).unwrap();
    assert!(matches!(c, Command::Register { .. }));
    assert_eq!(lp.len(), 1);
    let t = timeout(&mut timers, 15).unwrap();
    let i = interval(&mut timers, 25).unwrap();
    next(&mut lp, 9);
    assert_eq!(run(&mut lp), Ok(()));
    assert_eq!(run(&mut lp), Err(EventError::Reentrancy));
    assert_eq!(timers.expired(t.id()), Expiry::Fire);
    assert_eq!(timers.expired(i.id()), Expiry::FireAndRearm(25));
    assert_eq!(lp.take_deferred(), Some(9));
    assert!(shutdown(&mut lp));
    lp.finish();
    assert!(!shutdown(&mut lp));
}

#[test]
fn end_batch_frees_retired_tokens_of_the_loop() {
    let mut lp: Loop = IoLoop::with_capacity(1);
    let c = lp.register(Countdown { fd: 4, left: 0 }).unwrap();
    let token = match c {
        Command::Register { token, .. } => token,
        _ => panic!("expected a registration"),
    };
    assert!(matches!(lp.writable(token), Outcome::Stopped(_)));
    assert_eq!(lp.register(Countdown { fd: 5, left: 0 }), Err(EventError::RegistryFull));
    lp.end_batch();
    assert!(lp.register(Countdown { fd: 5, left: 0 }).is_ok());
}

#[test]
fn interval_survives_shutdown_and_restart() {
    let mut lp: Loop = IoLoop::new();
    let mut timers = Timers::new();
    assert_eq!(lp.run(), Ok(()));
    let h = interval(&mut timers, 10).unwrap();
    assert_eq!(timers.expired(h.id()), Expiry::FireAndRearm(10));
    assert!(shutdown(&mut lp));
    lp.finish();
    assert_eq!(lp.run(), Ok(()));
    assert_eq!(timers.expired(h.id()), Expiry::FireAndRearm(10));
}

#[test]
fn performed_commands_watch_exactly_the_registered_tokens() {
    let mut lp: Loop = IoLoop::with_capacity(8);
    let mut watched: Vec<usize> = Vec::new();
    let perform = |c: Command, watched: &mut Vec<usize>| match c {
        Command::Register { token, .. } => watched.push(token.0),
        Command::Reregister { .. } => {}
        Command::Deregister { token, .. } => watched.retain(|t| *t != token.0),
    };
    let mut tokens = Vec::new();
    for (fd, left) in [(3, 0), (4, 2), (5, 1)] {
        let c = lp.register(Countdown { fd, left }).unwrap();
        if let Command::Register { token, .. } = c {
            tokens.push(token);
        }
        perform(c, &mut watched);
    }
    for _ in 0..3 {
        for t in &tokens {
            match lp.readable(*t, hint()) {
                Outcome::Continued(c) | Outcome::Stopped(c) => perform(c, &mut watched),
                Outcome::Absent => {}
            }
            let live: Vec<usize> = tokens.iter().filter(|t| lp.contains(**t)).map(|t| t.0).collect();
            let mut w = watched.clone();
            w.sort();
            assert_eq!(w, live);
        }
    }
    assert!(watched.is_empty());
    assert_eq!(lp.len(), 0);
}
