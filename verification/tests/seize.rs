//! Attaching to every thread, and picking one to hijack.

use reptyr::arch::aarch64::{self, Aarch64};
use reptyr::arch::x86_64::{RawRegs, X86_64};
use reptyr::arch::{Arch, Regs, SyscallStop};
use reptyr::error::Error;
use reptyr::hijack::seize::Seizing;
use reptyr::hijack::{Captured, Hijacker};
use reptyr::ptrace::{Session, Stop};
use reptyr::session::{Attaching, Detach};
use reptyr::tracee::{Action, Event, Missed, Step};

type R = RawRegs;

fn regs(rip: u64, nr: u64) -> Regs<RawRegs> {
    Regs(RawRegs {
        r15: 0,
        r14: 0,
        r13: 0,
        r12: 0,
        rbp: 0,
        rbx: 0,
        r11: 0,
        r10: 4,
        r9: 6,
        r8: 5,
        rax: (-(libc::ENOSYS as i64)) as u64,
        rcx: 0,
        rdx: 3,
        rsi: 2,
        rdi: 1,
        orig_rax: nr,
        rip,
        cs: 0,
        eflags: 0,
        rsp: 0,
        ss: 0,
        fs_base: 0,
        gs_base: 0,
        ds: 0,
        es: 0,
        fs: 0,
        gs: 0,
    })
}

/// Answer every request of an attempt to attach; returns its log.
fn attach(
    pid: i32,
    tids: &[i32],
    mut answer: impl FnMut(&Action<R>) -> Event<R>,
) -> (Vec<String>, Result<Session, Error>) {
    let (mut a, mut step): (Attaching, Step<R, ()>) = Session::attach_all(pid, &tids.to_vec());
    let mut log = Vec::new();
    loop {
        match step {
            Step::Do(action) => {
                log.push(format!("{:?}", action));
                let event = answer(&action);
                step = a.step(event);
            }
            Step::Finish(Ok(())) => return (log, Ok(a.into_session())),
            Step::Finish(Err(e)) => return (log, Err(e)),
        }
    }
}

fn usual(action: &Action<R>) -> Event<R> {
    match action {
        Action::WaitFor { .. } => Event::Stopped(Stop::Event(128)),
        _ => Event::Done,
    }
}

fn session(pid: i32, tids: &[i32]) -> Session {
    attach(pid, tids, usual).1.unwrap()
}

fn said(r: Result<Session, Error>) -> String {
    match r {
        Err(Error::Msg(m)) => m,
        Err(Error::Os(e)) => format!("os {}", e),
        Ok(_) => panic!("attached"),
    }
}

#[test]
fn every_thread_is_seized_the_main_thread_first() {
    let (log, r) = attach(7, &[9, 3, 7], usual);
    assert_eq!(
        log,
        vec![
            "Seize { tid: 7 }",
            "Seize { tid: 3 }",
            "Seize { tid: 9 }",
            "Interrupt { tid: 7 }",
            "Interrupt { tid: 3 }",
            "Interrupt { tid: 9 }",
            "WaitFor { tid: 7, ms: 30000 }",
            "WaitFor { tid: 3, ms: 30000 }",
            "WaitFor { tid: 9, ms: 30000 }",
            "SetOptions { tid: 7, options: 1 }",
            "SetOptions { tid: 3, options: 1 }",
            "SetOptions { tid: 9, options: 1 }",
        ]
    );
    let mut s = r.unwrap();
    assert_eq!(s.tids(), &[7, 3, 9]);
    assert_eq!(
        s.detach_all(10),
        vec![
            Detach { tid: 7, sig: 10 },
            Detach { tid: 3, sig: 10 },
            Detach { tid: 9, sig: 10 }
        ]
    );
    assert!(s.tids().is_empty());
    assert_eq!(s.detach_all(0), vec![]);
}

#[test]
fn vanished_threads_are_skipped() {
    let (_, r) = attach(7, &[7, 8, 9], |a| match a {
        Action::Seize { tid: 8 } => Event::Failed(libc::ESRCH),
        Action::WaitFor { tid: 9, .. } => Event::Stopped(Stop::Exited),
        other => usual(other),
    });
    assert_eq!(r.unwrap().tids(), &[7]);
}

#[test]
fn the_main_thread_may_not_be_missing() {
    let (log, r) = attach(7, &[8, 7], |a| match a {
        Action::Seize { tid: 7 } => Event::Failed(libc::EPERM),
        other => usual(other),
    });
    assert_eq!(log, vec!["Seize { tid: 7 }"]);
    assert_eq!(
        said(r),
        "cannot attach to 7: permission denied (already traced, or ptrace_scope restrictions)"
    );
    let (_, r) = attach(7, &[7], |_| Event::Failed(libc::ESRCH));
    assert_eq!(said(r), "no such process or thread: 7");
    let (_, r) = attach(7, &[7], |_| Event::Failed(libc::EIO));
    assert_eq!(said(r), format!("os {}", libc::EIO));
}

#[test]
fn a_failed_attach_lets_everything_go() {
    let (log, r) = attach(7, &[7, 8, 9], |a| match a {
        Action::WaitFor { tid: 7, .. } => Event::Stopped(Stop::Exited),
        Action::WaitFor { tid: 8, .. } => Event::TimedOut,
        Action::Detach { tid: 8, .. } => Event::Failed(libc::ESRCH),
        other => usual(other),
    });
    assert_eq!(said(r), "thread 8 did not stop (stuck in uninterruptible sleep?)");
    assert_eq!(log[8..], ["Detach { tid: 8, sig: 0 }", "Detach { tid: 9, sig: 0 }"]);
    let (log, r) = attach(7, &[7, 8], |a| match a {
        Action::SetOptions { tid: 8, .. } => Event::Failed(libc::ESRCH),
        other => usual(other),
    });
    assert_eq!(said(r), format!("os {}", libc::ESRCH));
    assert_eq!(log[log.len() - 2..], ["Detach { tid: 7, sig: 0 }", "Detach { tid: 8, sig: 0 }"]);
    let (log, r) = attach(7, &[7, 8], |a| match a {
        Action::Interrupt { tid: 8 } => Event::Failed(libc::EIO),
        other => usual(other),
    });
    assert_eq!(said(r), format!("os {}", libc::EIO));
    assert_eq!(log[log.len() - 2..], ["Detach { tid: 7, sig: 0 }", "Detach { tid: 8, sig: 0 }"]);
}

#[test]
fn a_target_without_threads_is_reported() {
    let (log, r) = attach(7, &[8], |_| Event::Failed(libc::ESRCH));
    assert_eq!(log, vec!["Seize { tid: 8 }"]);
    assert_eq!(said(r), "target has no attachable threads");
    let (_, r) = attach(7, &[7], |a| match a {
        Action::WaitFor { .. } => Event::Stopped(Stop::Exited),
        other => usual(other),
    });
    assert_eq!(said(r), "target vanished while attaching");
    let (_, r) = attach(7, &[7], |a| match a {
        Action::WaitFor { .. } => Event::Failed(libc::ECHILD),
        other => usual(other),
    });
    assert_eq!(said(r), format!("os {}", libc::ECHILD));
}

/// Feed a search its answers; returns what it asked for.
fn search(
    tids: &[i32],
    events: Vec<Event<R>>,
) -> (Seizing<X86_64>, Vec<String>, Option<Result<Captured<R>, Error>>) {
    let s = session(tids[0], tids);
    let (mut z, mut step): (Seizing<X86_64>, Step<R, Captured<R>>) = Hijacker::seize(&s);
    let mut log = Vec::new();
    for event in events {
        match step {
            Step::Do(action) => log.push(format!("{:?}", action)),
            Step::Finish(r) => return (z, log, Some(r)),
        }
        step = z.step(&X86_64, event);
    }
    match step {
        Step::Do(action) => {
            log.push(format!("{:?}", action));
            (z, log, None)
        }
        Step::Finish(r) => (z, log, Some(r)),
    }
}

#[test]
fn the_first_entry_stop_is_captured() {
    let (z, log, r) = search(
        &[7, 8],
        vec![
            Event::Time(1000),
            Event::Time(1000),
            Event::Done,
            Event::Time(1001),
            Event::Time(1002),
            Event::Stopped(Stop::Syscall),
            Event::Kind(SyscallStop::Exit),
            Event::Done,
            Event::Time(1003),
            Event::Stopped(Stop::Signal(libc::SIGCHLD)),
            Event::Done,
            Event::Time(1004),
            Event::Stopped(Stop::Event(128)),
            Event::Done,
            Event::Time(1005),
            Event::TimedOut,
            Event::Time(1006),
            Event::Stopped(Stop::Syscall),
            Event::Kind(SyscallStop::Entry),
            Event::Registers(regs(0x1002, 232)),
        ],
    );
    assert_eq!(
        log,
        vec![
            "Clock",
            "Clock",
            "Resume { tid: 7, sig: 0 }",
            "Clock",
            "Clock",
            "WaitFor { tid: 7, ms: 2999 }",
            "StopKind { tid: 7 }",
            "Resume { tid: 7, sig: 0 }",
            "Clock",
            "WaitFor { tid: 7, ms: 2998 }",
            "Resume { tid: 7, sig: 0 }",
            "Clock",
            "WaitFor { tid: 7, ms: 2997 }",
            "Resume { tid: 7, sig: 0 }",
            "Clock",
            "WaitFor { tid: 7, ms: 2996 }",
            "Clock",
            "WaitFor { tid: 7, ms: 2995 }",
            "StopKind { tid: 7 }",
            "GetRegs { tid: 7 }",
        ]
    );
    let c = r.unwrap().unwrap();
    assert_eq!(c.tid, 7);
    assert_eq!(c.raw_saved.0, regs(0x1002, 232).0);
    assert_eq!(c.saved.0, RawRegs { rip: 0x1000, rax: 232, ..regs(0x1002, 232).0 });
    assert_eq!(c.saved_nr, 232);
    assert_eq!(z.into_missed(), vec![Missed { tid: 7, sig: libc::SIGCHLD }]);
    let mut h: Hijacker<X86_64> = Hijacker::new(c);
    assert_eq!(h.tid(), 7);
    assert_eq!(h.take_signal(), None);
}

#[test]
fn a_thread_without_syscalls_is_left_and_gets_its_signal() {
    let (z, log, r) = search(
        &[7, 8],
        vec![
            Event::Time(0),
            Event::Time(0),
            Event::Done,
            Event::Time(0),
            Event::Time(10),
            Event::Stopped(Stop::Signal(libc::SIGUSR1)),
            Event::Done,
            Event::Time(3000),
            Event::Failed(libc::ESRCH),
            Event::Stopped(Stop::Event(128)),
            Event::Done,
            Event::Time(3001),
        ],
    );
    assert_eq!(
        log[7..],
        [
            "Clock",
            "Interrupt { tid: 7 }",
            "Wait { tid: 7 }",
            "Resume { tid: 7, sig: 10 }",
            "Clock",
            "Resume { tid: 8, sig: 0 }"
        ]
    );
    assert!(r.is_none());
    assert_eq!(z.into_missed(), vec![]);
}

#[test]
fn a_signal_that_was_given_back_is_not_owed_any_more() {
    let lost = vec![
        Event::Time(0),
        Event::Time(0),
        Event::Done,
        Event::Time(0),
        Event::Time(10),
        Event::Stopped(Stop::Signal(libc::SIGTERM)),
        Event::Done,
        Event::Time(3000),
        Event::Done,
        // One more signal stops the thread before the interrupt does.
        Event::Stopped(Stop::Signal(libc::SIGUSR1)),
    ];
    for (released, owed) in [
        (Event::Done, vec![libc::SIGUSR1]),
        (Event::Failed(libc::ESRCH), vec![libc::SIGTERM, libc::SIGUSR1]),
    ] {
        let mut events = lost.clone();
        events.push(released);
        let (z, log, r) = search(&[7], events);
        assert_eq!(log.last().unwrap(), "Resume { tid: 7, sig: 15 }");
        assert!(matches!(r, Some(Err(Error::Msg(_)))));
        let owed: Vec<Missed> = owed.into_iter().map(|sig| Missed { tid: 7, sig }).collect();
        assert_eq!(z.into_missed(), owed);
    }
}

#[test]
fn signals_swallowed_while_attaching_are_known_to_the_search() {
    let (_, r) = attach(7, &[7, 8], |a| match a {
        Action::WaitFor { tid: 7, .. } => Event::Stopped(Stop::Signal(libc::SIGINT)),
        Action::WaitFor { tid: 8, .. } => Event::Stopped(Stop::Signal(libc::SIGSTOP)),
        other => usual(other),
    });
    let s = r.unwrap();
    assert_eq!(*s.missed(), vec![Missed { tid: 7, sig: libc::SIGINT }]);
    let (mut z, _): (Seizing<X86_64>, Step<R, Captured<R>>) = Hijacker::seize(&s);
    for event in [
        Event::Time(0),
        Event::Time(0),
        Event::Done,
        Event::Time(0),
        Event::Time(1),
        Event::Stopped(Stop::Signal(libc::SIGHUP)),
        Event::Done,
        Event::Time(2),
    ] {
        z.step(&X86_64, event);
    }
    assert!(matches!(z.step(&X86_64, Event::Stopped(Stop::Exited)), Step::Finish(Err(_))));
    assert_eq!(
        z.into_missed(),
        vec![Missed { tid: 7, sig: libc::SIGINT }, Missed { tid: 7, sig: libc::SIGHUP }]
    );
}

#[test]
fn a_failed_attach_gives_the_signals_back() {
    let (log, r) = attach(7, &[7, 8, 9], |a| match a {
        Action::WaitFor { tid: 7, .. } => Event::Stopped(Stop::Signal(libc::SIGINT)),
        Action::WaitFor { tid: 8, .. } => Event::Stopped(Stop::Signal(libc::SIGTERM)),
        Action::WaitFor { tid: 9, .. } => Event::TimedOut,
        Action::Detach { tid: 8, .. } => Event::Failed(libc::ESRCH),
        other => usual(other),
    });
    assert_eq!(said(r), "thread 9 did not stop (stuck in uninterruptible sleep?)");
    assert_eq!(
        log[9..],
        [
            "Detach { tid: 7, sig: 2 }",
            "Detach { tid: 8, sig: 15 }",
            "Detach { tid: 9, sig: 0 }",
            "Send { pid: 7, tid: 8, sig: 15 }",
        ]
    );
}

#[test]
fn every_thread_is_let_go_whatever_fails() {
    let (_, r) = attach(7, &[9, 8, 7, 10], |a| match a {
        Action::WaitFor { tid: 8, .. } => Event::Stopped(Stop::Exited),
        other => usual(other),
    });
    let mut s = r.unwrap();
    assert_eq!(s.tids(), &[7, 9, 10]);
    let (mut l, mut step): (_, Step<R, ()>) = s.leave(vec![]);
    let mut log = Vec::new();
    while let Step::Do(action) = step {
        log.push(format!("{:?}", action));
        step = l.step(Event::Failed(libc::ESRCH));
    }
    assert_eq!(
        log,
        vec![
            "Detach { tid: 7, sig: 0 }",
            "Detach { tid: 9, sig: 0 }",
            "Detach { tid: 10, sig: 0 }",
        ]
    );
}

#[test]
fn every_owed_signal_is_delivered_when_the_threads_are_let_go() {
    let mut s = session(7, &[7, 8]);
    let owed = [(7, 2), (9, 1), (7, 15), (7, 2), (8, 10)];
    let missed = owed.iter().map(|&(tid, sig)| Missed { tid, sig }).collect();
    let (mut l, mut step): (_, Step<R, ()>) = s.leave(missed);
    assert!(s.tids().is_empty());
    let mut log = Vec::new();
    while let Step::Do(action) = step {
        log.push(format!("{:?}", action));
        step = l.step(match action {
            Action::Send { tid: 9, .. } => Event::Failed(libc::ESRCH),
            _ => Event::Done,
        });
    }
    assert!(matches!(step, Step::Finish(Ok(()))));
    assert_eq!(
        log,
        vec![
            "Detach { tid: 7, sig: 2 }",
            "Detach { tid: 8, sig: 10 }",
            "Send { pid: 7, tid: 9, sig: 1 }",
            "Send { pid: 7, tid: 7, sig: 15 }",
            "Send { pid: 7, tid: 7, sig: 2 }",
        ]
    );
}

#[test]
fn the_search_gives_up_in_time() {
    let told = "unable to find a syscall to hijack; the target may be stopped (send SIGCONT) or blocked without syscalls";
    let lost = vec![
        Event::Time(0),
        Event::Time(0),
        Event::Done,
        Event::Time(0),
        Event::Time(3000),
        Event::Done,
        Event::Stopped(Stop::Event(128)),
        Event::Done,
    ];
    let (_, _, r) = search(&[7], lost.clone());
    assert!(matches!(r, Some(Err(Error::Msg(m))) if m == told));
    let mut late = lost;
    late.push(Event::Time(15000));
    let (_, log, r) = search(&[7, 8], late);
    assert_eq!(log.last().unwrap(), "Clock");
    assert!(matches!(r, Some(Err(Error::Msg(m))) if m == told));
}

#[test]
fn a_search_that_fails_knows_the_missed_signals() {
    let start = vec![
        Event::Time(0),
        Event::Time(0),
        Event::Done,
        Event::Time(0),
        Event::Time(1),
        Event::Stopped(Stop::Signal(libc::SIGTERM)),
        Event::Done,
        Event::Time(2),
    ];
    let mut gone = start.clone();
    gone.push(Event::Stopped(Stop::Exited));
    let (z, _, r) = search(&[7], gone);
    assert!(matches!(r, Some(Err(Error::Msg(m))) if m == "thread 7 exited while hijacking"));
    assert_eq!(z.into_missed(), vec![Missed { tid: 7, sig: libc::SIGTERM }]);
    let mut failed = start;
    failed.push(Event::Failed(libc::ECHILD));
    let (_, _, r) = search(&[7], failed);
    assert!(matches!(r, Some(Err(Error::Os(e))) if e == libc::ECHILD));
}

#[test]
fn number_words_are_read_where_there_are_some() {
    let raw = aarch64::RawRegs {
        x0: 1,
        x1: 2,
        x2: 3,
        x3: 4,
        x4: 5,
        x5: 6,
        x6: 0,
        x7: 0,
        x8: 63,
        x9: 0,
        x10: 0,
        x11: 0,
        x12: 0,
        x13: 0,
        x14: 0,
        x15: 0,
        x16: 0,
        x17: 0,
        x18: 0,
        x19: 0,
        x20: 0,
        x21: 0,
        x22: 0,
        x23: 0,
        x24: 0,
        x25: 0,
        x26: 0,
        x27: 0,
        x28: 0,
        x29: 0,
        x30: 0,
        sp: 0,
        pc: 0x1004,
        pstate: 0,
    };
    let a = Aarch64;
    let (mut z, _): (Seizing<Aarch64>, _) = Hijacker::seize(&session(7, &[7]));
    for event in [
        Event::Time(0),
        Event::Time(0),
        Event::Done,
        Event::Time(0),
        Event::Time(1),
        Event::Stopped(Stop::Syscall),
        Event::Kind(SyscallStop::Entry),
    ] {
        z.step(&a, event);
    }
    assert!(matches!(z.step(&a, Event::Registers(Regs(raw))), Step::Do(Action::GetNr { tid: 7 })));
    match z.step(&a, Event::Number(63)) {
        Step::Finish(Ok(c)) => {
            assert_eq!(c.saved.0, aarch64::RawRegs { pc: 0x1000, ..raw });
            assert_eq!(c.saved_nr, 63);
            // An injection writes the number word first, then the registers.
            let mut h: Hijacker<Aarch64> = Hijacker::new(c);
            assert!(matches!(h.syscall(222, [0; 6]), Step::Do(Action::GetRegs { tid: 7 })));
            assert!(matches!(
                h.step(&a, Event::Registers(Regs(raw))),
                Step::Do(Action::SetNr { tid: 7, word: 222 })
            ));
            match h.step(&a, Event::Done) {
                Step::Do(Action::SetRegs { regs, .. }) => assert_eq!(regs.0.x0, 0),
                _ => panic!("the registers come next"),
            }
            assert_eq!(h.last_resort(&a).word, Some(63));
            assert_eq!(a.restore_syscall_nr(63), Some(63));
        }
        _ => panic!("captured"),
    }
}
