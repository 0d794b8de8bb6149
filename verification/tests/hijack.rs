//! The hijack engine on a simulated thread.

use std::collections::VecDeque;

use reptyr::arch::x86_64::{RawRegs, X86_64};
use reptyr::arch::{Arch, Regs, SyscallStop};
use reptyr::error::Error;
use reptyr::hijack::{Captured, Hijacker, Reply, Restoration};
use reptyr::ptrace::Stop;
use reptyr::tracee::{Action, Event, Missed, Step};

const TID: i32 = 42;
/// Where the program has its syscall instruction.
const INSN: u64 = 0x40_1000;

#[derive(Debug, Clone, Copy, PartialEq, Eq)]
enum Place {
    Entry,
    Exit,
    ToEntry,
    ToExit,
    PausedToEntry,
    PausedToExit,
}

/// A thread of an x86_64 process, as the kernel runs it under ptrace.
struct Sim {
    at: Place,
    regs: RawRegs,
    /// What was dispatched.
    ran: Vec<(u64, [u64; 6])>,
    /// Stops that come before the next syscall stop.
    stops: VecDeque<Stop>,
    /// What the dispatched calls return.
    results: VecDeque<i64>,
    /// Requests that fail, by a word of their debug form, once each.
    failing: Vec<(&'static str, i32)>,
    delivered: Vec<i32>,
    options: Vec<i32>,
}

fn args_of(r: &RawRegs) -> [u64; 6] {
    [r.rdi, r.rsi, r.rdx, r.r10, r.r8, r.r9]
}

/// A thread at the entry of read(0, 0x5000, 100).
fn sim() -> Sim {
    Sim {
        at: Place::Entry,
        regs: RawRegs {
            r15: 15,
            r14: 14,
            r13: 13,
            r12: 12,
            rbp: 105,
            rbx: 103,
            r11: 11,
            r10: 110,
            r9: 109,
            r8: 108,
            rax: (-(libc::ENOSYS as i64)) as u64,
            rcx: 102,
            rdx: 100,
            rsi: 0x5000,
            rdi: 0,
            orig_rax: 0,
            rip: INSN + 2,
            cs: 0x33,
            eflags: 0x246,
            rsp: 0x7fff_0000,
            ss: 0x2b,
            fs_base: 1,
            gs_base: 2,
            ds: 3,
            es: 4,
            fs: 5,
            gs: 6,
        },
        ran: Vec::new(),
        stops: VecDeque::new(),
        results: VecDeque::new(),
        failing: Vec::new(),
        delivered: Vec::new(),
        options: Vec::new(),
    }
}

impl Sim {
    fn dispatch(&mut self) {
        self.ran.push((self.regs.orig_rax, args_of(&self.regs)));
    }

    /// Execute the syscall instruction, up to the entry stop.
    fn enter(&mut self) {
        assert_eq!(self.regs.rip, INSN, "the thread runs at the syscall instruction only");
        self.regs.orig_rax = self.regs.rax;
        self.regs.rax = (-(libc::ENOSYS as i64)) as u64;
        self.regs.rip += 2;
        self.at = Place::Entry;
    }

    fn serve(&mut self, action: Action<RawRegs>) -> Event<RawRegs> {
        let name = format!("{:?}", action);
        if let Some(i) = self.failing.iter().position(|(word, _)| name.starts_with(word)) {
            return Event::Failed(self.failing.remove(i).1);
        }
        match action {
            Action::Resume { tid, sig } => {
                assert_eq!(tid, TID);
                self.delivered.push(sig);
                self.at = match self.at {
                    Place::Entry => {
                        self.dispatch();
                        Place::ToExit
                    }
                    Place::Exit | Place::PausedToEntry => Place::ToEntry,
                    Place::PausedToExit => Place::ToExit,
                    _ => panic!("resumed while running"),
                };
                Event::Done
            }
            Action::Wait { .. } => {
                if let Some(stop) = self.stops.pop_front() {
                    self.at = match self.at {
                        Place::ToEntry => Place::PausedToEntry,
                        Place::ToExit => Place::PausedToExit,
                        _ => panic!("waited for while stopped"),
                    };
                    return Event::Stopped(stop);
                }
                match self.at {
                    Place::ToEntry => self.enter(),
                    Place::ToExit => {
                        self.regs.rax = self.results.pop_front().unwrap_or(0) as u64;
                        self.at = Place::Exit;
                    }
                    _ => panic!("waited for while stopped"),
                }
                Event::Stopped(Stop::Syscall)
            }
            Action::StopKind { .. } => Event::Kind(match self.at {
                Place::Entry => SyscallStop::Entry,
                Place::Exit => SyscallStop::Exit,
                _ => SyscallStop::Unknown,
            }),
            Action::GetRegs { .. } => Event::Registers(Regs(self.regs)),
            Action::SetRegs { regs, .. } => {
                self.regs = regs.0;
                Event::Done
            }
            Action::SetOptions { options, .. } => {
                self.options.push(options);
                Event::Done
            }
            Action::EventMessage { .. } => Event::Message(4711),
            other => panic!("{:?}", other),
        }
    }

    fn drive(
        &mut self,
        h: &mut Hijacker<X86_64>,
        first: Step<RawRegs, Reply>,
    ) -> Result<Reply, Error> {
        let mut step = first;
        loop {
            match step {
                Step::Do(action) => {
                    let event = self.serve(action);
                    step = h.step(&X86_64, event);
                }
                Step::Finish(r) => return r,
            }
        }
    }

    fn call(&mut self, h: &mut Hijacker<X86_64>, nr: u64, args: [u64; 6]) -> Result<Reply, Error> {
        let first = h.syscall(nr, args);
        self.drive(h, first)
    }

    fn fork(&mut self, h: &mut Hijacker<X86_64>) -> Result<Reply, Error> {
        let first = h.fork_child(&X86_64);
        self.drive(h, first)
    }

    /// Put the state back, let the thread go and see what it dispatches.
    fn let_go(&mut self, to: Restoration<RawRegs>) -> (u64, [u64; 6]) {
        assert!(to.word.is_none());
        self.regs = to.regs.0;
        match self.at {
            Place::Entry => self.dispatch(),
            Place::Exit | Place::PausedToEntry => {
                self.enter();
                self.dispatch();
            }
            other => panic!("{:?}", other),
        }
        *self.ran.last().unwrap()
    }
}

fn capture(s: &Sim) -> Hijacker<X86_64> {
    let raw = Regs(s.regs);
    let mut saved = raw;
    X86_64.save_fixup(&mut saved);
    Hijacker::new(Captured {
        tid: TID,
        saved,
        raw_saved: raw,
        saved_nr: X86_64.get_syscall_nr(&saved, 0),
    })
}

const ORIGINAL: (u64, [u64; 6]) = (0, [0, 0x5000, 100, 110, 108, 109]);

fn text<T: std::fmt::Debug>(r: Result<T, Error>) -> String {
    match r {
        Err(Error::Msg(m)) => m,
        other => panic!("{:?}", other),
    }
}

#[test]
fn injected_calls_are_all_that_runs() {
    let mut s = sim();
    let mut h = capture(&s);
    s.results.extend([0x7000, -13, 3]);
    assert_eq!(s.call(&mut h, 9, [0, 4096, 3, 34, u64::MAX, 0]).unwrap(), Reply::Value(0x7000));
    assert_eq!(s.call(&mut h, 257, [1, 2, 3, 0, 0, 0]).unwrap(), Reply::Value(-13));
    assert_eq!(s.call(&mut h, 3, [7, 0, 0, 0, 0, 0]).unwrap(), Reply::Value(3));
    assert_eq!(
        s.ran,
        vec![
            (9, [0, 4096, 3, 34, u64::MAX, 0]),
            (257, [1, 2, 3, 0, 0, 0]),
            (3, [7, 0, 0, 0, 0, 0]),
        ]
    );
    // Nothing was delivered, and the original runs next, just once.
    assert!(s.delivered.iter().all(|&sig| sig == 0));
    let to = h.finish(&X86_64).unwrap();
    assert_eq!(to.regs.0, h.saved_clone().0);
    assert_eq!(s.let_go(to), ORIGINAL);
    assert_eq!(s.ran.len(), 4);
}

#[test]
fn an_untouched_thread_goes_on_by_itself() {
    let mut s = sim();
    let h = capture(&s);
    assert!(h.finish(&X86_64).is_none());
    assert_eq!(h.tid(), TID);
    assert_eq!(h.saved_nr(), 0);
    assert_eq!(s.let_go(h.last_resort(&X86_64)), ORIGINAL);
}

#[test]
fn every_own_signal_is_kept() {
    let mut s = sim();
    let mut h = capture(&s);
    s.stops.extend([
        Stop::Signal(libc::SIGTRAP),
        Stop::Event(7),
        Stop::Signal(libc::SIGSTOP),
        Stop::Signal(libc::SIGWINCH),
        Stop::Signal(libc::SIGUSR1),
    ]);
    s.results.push_back(1);
    assert_eq!(s.call(&mut h, 39, [0; 6]).unwrap(), Reply::Value(1));
    assert_eq!(s.ran, vec![(39, [0; 6])]);
    assert_eq!(h.take_signal(), Some(libc::SIGWINCH));
    s.stops.push_back(Stop::Signal(libc::SIGTERM));
    s.results.push_back(1);
    s.call(&mut h, 39, [0; 6]).unwrap();
    assert_eq!(
        h.take_missed(),
        vec![
            Missed { tid: TID, sig: libc::SIGUSR1 },
            Missed { tid: TID, sig: libc::SIGTERM },
        ]
    );
    assert_eq!(h.take_signal(), None);
    assert!(s.delivered.iter().all(|&sig| sig == 0));
}

#[test]
fn a_signal_on_the_way_to_the_entry_changes_nothing() {
    let mut s = sim();
    let mut h = capture(&s);
    s.results.extend([5, 6]);
    s.call(&mut h, 39, [0; 6]).unwrap();
    s.stops.push_back(Stop::Signal(libc::SIGALRM));
    assert_eq!(s.call(&mut h, 102, [0; 6]).unwrap(), Reply::Value(6));
    assert_eq!(s.ran, vec![(39, [0; 6]), (102, [0; 6])]);
    assert_eq!(h.take_signal(), Some(libc::SIGALRM));
    assert_eq!(s.let_go(h.last_resort(&X86_64)), ORIGINAL);
}

#[test]
fn a_fork_ends_with_the_child() {
    let mut s = sim();
    let mut h = capture(&s);
    s.stops.extend([Stop::Signal(libc::SIGUSR2), Stop::Event(libc::PTRACE_EVENT_FORK)]);
    assert_eq!(s.fork(&mut h).unwrap(), Reply::Child(4711));
    assert_eq!(s.ran, vec![(libc::SYS_clone as u64, [libc::SIGCHLD as u64, 0, 0, 0, 0, 0])]);
    assert_eq!(
        s.options,
        vec![
            libc::PTRACE_O_TRACESYSGOOD | libc::PTRACE_O_TRACEFORK,
            libc::PTRACE_O_TRACESYSGOOD
        ]
    );
    // The next call goes by way of the clone's exit stop.
    s.results.extend([4711, 0]);
    assert_eq!(s.call(&mut h, 112, [0; 6]).unwrap(), Reply::Value(0));
    assert_eq!(s.ran.len(), 2);
    assert_eq!(h.take_signal(), Some(libc::SIGUSR2));
    assert_eq!(s.let_go(h.last_resort(&X86_64)), ORIGINAL);
}

#[test]
fn a_fork_that_fails_does_not_lose_the_original_call() {
    let mut s = sim();
    let mut h = capture(&s);
    s.results.push_back(-(libc::EAGAIN as i64));
    assert_eq!(text(s.fork(&mut h)), "target did not report a fork event");
    // The scratch page can still be released, and the original runs.
    s.results.push_back(0);
    assert_eq!(s.call(&mut h, 11, [0x7000, 4096, 0, 0, 0, 0]).unwrap(), Reply::Value(0));
    assert_eq!(s.ran.len(), 2);
    assert_eq!(s.ran[1], (11, [0x7000, 4096, 0, 0, 0, 0]));
    assert_eq!(s.let_go(h.last_resort(&X86_64)), ORIGINAL);
}

#[test]
fn an_unexpected_event_ends_a_fork() {
    let mut s = sim();
    let mut h = capture(&s);
    s.stops.push_back(Stop::Event(6));
    assert_eq!(text(s.fork(&mut h)), "unexpected ptrace event 6 during fork");
}

#[test]
fn failures_midway_do_not_lose_the_original_call() {
    for word in ["GetRegs", "SetRegs", "Resume"] {
        let mut s = sim();
        let mut h = capture(&s);
        s.failing.push((word, libc::EIO));
        assert!(matches!(s.call(&mut h, 39, [0; 6]), Err(Error::Os(e)) if e == libc::EIO));
        assert!(s.ran.is_empty());
        assert_eq!(s.let_go(h.last_resort(&X86_64)), ORIGINAL, "{}", word);
        // The same in the middle of a later call.
        let mut s = sim();
        let mut h = capture(&s);
        s.call(&mut h, 39, [0; 6]).unwrap();
        s.failing.push((word, libc::EIO));
        assert!(s.call(&mut h, 102, [0; 6]).is_err());
        assert_eq!(s.ran.len(), 1);
        assert_eq!(s.let_go(h.last_resort(&X86_64)), ORIGINAL, "{}", word);
    }
}

#[test]
fn a_result_that_cannot_be_read_does_not_lose_the_original_call() {
    let mut s = sim();
    let mut h = capture(&s);
    let mut step = h.syscall(39, [0; 6]);
    let r = loop {
        match step {
            Step::Do(action) => {
                if matches!(action, Action::GetRegs { .. }) && s.at == Place::Exit {
                    s.failing.push(("GetRegs", libc::ESRCH));
                }
                let event = s.serve(action);
                step = h.step(&X86_64, event);
            }
            Step::Finish(r) => break r,
        }
    };
    assert!(matches!(r, Err(Error::Os(e)) if e == libc::ESRCH));
    assert_eq!(s.ran, vec![(39, [0; 6])]);
    assert_eq!(s.let_go(h.last_resort(&X86_64)), ORIGINAL);
}

#[test]
fn a_thread_that_exits_is_reported() {
    let mut s = sim();
    let mut h = capture(&s);
    s.stops.push_back(Stop::Exited);
    assert_eq!(text(s.call(&mut h, 39, [0; 6])), "thread 42 exited during hijack");
}

#[test]
fn a_dummy_runs_as_its_parent() {
    let s = sim();
    let parent = capture(&s);
    let (mut d, first) = Hijacker::<X86_64>::for_dummy(99, parent.saved_clone(), parent.saved_nr());
    assert!(matches!(first, Step::Do(Action::Wait { tid: 99 })));
    let step = d.step(Event::Stopped(Stop::Signal(libc::SIGSTOP)));
    assert!(matches!(step, Step::Do(Action::SetOptions { tid: 99, options: 1 })));
    match d.step(Event::Done) {
        Step::Do(Action::SetRegs { tid: 99, regs }) => assert_eq!(regs.0, parent.saved_clone().0),
        _ => panic!("the state comes first"),
    }
    assert!(matches!(d.step(Event::Done), Step::Do(Action::Resume { tid: 99, sig: 0 })));
    assert!(matches!(d.step(Event::Done), Step::Do(Action::Wait { tid: 99 })));
    assert!(matches!(
        d.step(Event::Stopped(Stop::Signal(libc::SIGUSR1))),
        Step::Do(Action::Resume { tid: 99, sig: 0 })
    ));
    assert!(matches!(d.step(Event::Done), Step::Do(Action::Wait { tid: 99 })));
    assert!(matches!(
        d.step(Event::Stopped(Stop::Syscall)),
        Step::Do(Action::StopKind { tid: 99 })
    ));
    assert!(matches!(
        d.step(Event::Kind(SyscallStop::Exit)),
        Step::Do(Action::Resume { tid: 99, sig: 0 })
    ));
    assert!(matches!(d.step(Event::Done), Step::Do(Action::Wait { tid: 99 })));
    assert!(matches!(
        d.step(Event::Stopped(Stop::Syscall)),
        Step::Do(Action::StopKind { tid: 99 })
    ));
    match d.step(Event::Kind(SyscallStop::Entry)) {
        Step::Finish(Ok(c)) => {
            assert_eq!(c.tid, 99);
            assert_eq!(c.saved.0, parent.saved_clone().0);
            assert_eq!(c.raw_saved.0, parent.saved_clone().0);
            assert_eq!(c.saved_nr, parent.saved_nr());
        }
        _ => panic!("the dummy is at an entry stop"),
    }
}

#[test]
fn a_dummy_that_misbehaves_is_reported() {
    let s = sim();
    let regs = capture(&s).saved_clone();
    for (stop, expected) in [
        (Stop::Exited, "dummy child 99 stopped unexpectedly: Exited"),
        (Stop::Syscall, "dummy child 99 stopped unexpectedly: Syscall"),
        (Stop::Event(3), "dummy child 99 stopped unexpectedly: Event(3)"),
        (Stop::Signal(9), "dummy child 99 stopped unexpectedly: Signal(9)"),
    ] {
        assert_eq!(
            expected,
            format!("dummy child {} stopped unexpectedly: {:?}", 99, stop)
        );
        let (mut d, _) = Hijacker::<X86_64>::for_dummy(99, regs, 0);
        match d.step(Event::Stopped(stop)) {
            Step::Finish(r) => assert_eq!(text(r), expected),
            _ => panic!("refused"),
        }
    }
    let (mut d, _) = Hijacker::<X86_64>::for_dummy(99, regs, 0);
    d.step(Event::Stopped(Stop::Signal(libc::SIGTRAP)));
    d.step(Event::Done);
    d.step(Event::Done);
    d.step(Event::Done);
    match d.step(Event::Stopped(Stop::Exited)) {
        Step::Finish(r) => assert_eq!(text(r), "dummy child exited during setup"),
        _ => panic!("refused"),
    }
}
