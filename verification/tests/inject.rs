//! The redirection plan.

use reptyr::arch::aarch64::Aarch64;
use reptyr::arch::x86_64::X86_64;
use reptyr::arch::Arch;
use reptyr::error::Error;
use reptyr::inject::{
    execute, ignore_sighup, mmap_scratch, munmap_scratch, request_mmap, sigign_bytes, Plan,
};
use reptyr::remote::{Answer, Request, Step};

const SCRATCH: i64 = 0x7f00_0000_0000;

fn plan(leader: bool) -> Plan {
    Plan {
        slave_path: "/dev/pts/12".to_string(),
        fds: vec![0, 1, 5],
        is_session_leader: leader,
    }
}

fn show(r: &Request) -> String {
    match r {
        Request::Call { nr, args } => format!("call {} {:?}", nr, args),
        Request::CallChild { nr, args } => format!("child {} {:?}", nr, args),
        Request::Write { addr, data } => format!("write {:#x} {:?}", addr, data),
        other => format!("{:?}", other),
    }
}

/// What an emulated target answers when all goes well.
fn usual(r: &Request) -> Answer {
    match r {
        Request::Call { nr: 9, .. } | Request::Call { nr: 222, .. } => Answer::Value(SCRATCH),
        Request::Call { nr: 257, .. } | Request::Call { nr: 56, .. } => Answer::Value(8),
        Request::Call { .. } | Request::CallChild { .. } => Answer::Value(0),
        Request::Fork => Answer::Number(900),
        Request::ListGroup { pgrp: 42 } => Answer::Numbers(vec![42, 43]),
        Request::Write { .. }
        | Request::Adopt { child: 900 }
        | Request::Detach { tid: 900 }
        | Request::Reap { tid: 900 } => Answer::Done,
        other => panic!("{:?}", other),
    }
}

fn run<A: Arch>(
    a: &A,
    p: Plan,
    mut answer: impl FnMut(&Request) -> Answer,
) -> (Vec<String>, Result<(), Error>) {
    let (mut i, mut step) = execute(a, 42, p);
    let mut log = Vec::new();
    loop {
        match step {
            Step::Do(request) => {
                log.push(show(&request));
                let answered = answer(&request);
                step = i.step(a, answered);
            }
            Step::Finish(r) => return (log, r),
        }
    }
}

fn opening() -> Vec<String> {
    vec![
        format!("call 9 {:?}", [0, 4096, 3, 0x22, u64::MAX, 0]),
        format!("write {:#x} {:?}", SCRATCH, b"/dev/pts/12\0"),
        format!("write {:#x} {:?}", SCRATCH + 0x100, [vec![1u8, 0, 0, 0, 0, 0, 0, 0], vec![0; 24]].concat()),
        format!("call 13 {:?}", [1, SCRATCH as u64 + 0x100, 0, 8, 0, 0]),
    ]
}

fn ending() -> Vec<String> {
    vec![
        format!("call 257 {:?}", [(-100i64) as u64, SCRATCH as u64, 0x102, 0, 0, 0]),
        format!("call 16 {:?}", [8, 0x540e, 1, 0, 0, 0]),
        format!("call 33 {:?}", [8, 0, 0, 0, 0, 0]),
        format!("call 33 {:?}", [8, 1, 0, 0, 0, 0]),
        format!("call 33 {:?}", [8, 5, 0, 0, 0, 0]),
        format!("call 3 {:?}", [8, 0, 0, 0, 0, 0]),
        unmap(),
    ]
}

fn unmap() -> String {
    format!("call 11 {:?}", [SCRATCH as u64, 4096, 0, 0, 0, 0])
}

fn said(r: Result<(), Error>) -> String {
    match r {
        Err(Error::Msg(m)) => m,
        Err(Error::Os(e)) => format!("os {}", e),
        Ok(()) => "ok".to_string(),
    }
}

#[test]
fn a_session_leader_drops_its_terminal() {
    let (log, r) = run(&X86_64, plan(true), usual);
    let mut expected = opening();
    expected.push(format!("call 16 {:?}", [0, 0x5422, 0, 0, 0, 0]));
    expected.extend(ending());
    assert_eq!(log, expected);
    assert!(r.is_ok());
}

#[test]
fn anything_else_dances() {
    let (log, r) = run(&X86_64, plan(false), usual);
    let mut expected = opening();
    expected.extend([
        "Fork".to_string(),
        "Adopt { child: 900 }".to_string(),
        format!("child 109 {:?}", [0; 6]),
        "ListGroup { pgrp: 42 }".to_string(),
        format!("call 109 {:?}", [42, 900, 0, 0, 0, 0]),
        format!("call 109 {:?}", [43, 900, 0, 0, 0, 0]),
        format!("call 112 {:?}", [0; 6]),
        format!("call 62 {:?}", [900, 9, 0, 0, 0, 0]),
        "Detach { tid: 900 }".to_string(),
        "Reap { tid: 900 }".to_string(),
        format!("call 61 {:?}", [900, 0, 1, 0, 0, 0]),
    ]);
    expected.extend(ending());
    assert_eq!(log, expected);
    assert!(r.is_ok());
}

#[test]
fn nothing_to_redirect_still_moves_the_terminal() {
    let p = Plan { fds: vec![], ..plan(false) };
    let (log, r) = run(&X86_64, p, usual);
    assert!(log.contains(&ending()[1]));
    assert!(!log.iter().any(|l| l.starts_with("call 33 ")));
    assert_eq!(*log.last().unwrap(), unmap());
    assert!(r.is_ok());
}

#[test]
fn a_selected_fd_that_was_free_stays_open() {
    // The slave is opened as the free fd 0, which is to be redirected.
    for nr in [257, 56] {
        let answer = |r: &Request| match r {
            Request::Call { nr: n, .. } if *n == nr => Answer::Value(0),
            other => usual(other),
        };
        let p = Plan { fds: vec![0, 1, 5], ..plan(true) };
        let (log, r) = if nr == 257 {
            run(&X86_64, p, answer)
        } else {
            run(&Aarch64, p, answer)
        };
        let (ioctl, dup, munmap) = if nr == 257 { (16, 33, 11) } else { (29, 24, 215) };
        assert_eq!(
            log[log.len() - 4..],
            [
                format!("call {} {:?}", ioctl, [0, 0x540e, 1, 0, 0, 0]),
                format!("call {} {:?}", dup, [0, 1, 0, 0, 0, 0]),
                format!("call {} {:?}", dup, [0, 5, 0, 0, 0, 0]),
                format!("call {} {:?}", munmap, [SCRATCH as u64, 4096, 0, 0, 0, 0]),
            ]
        );
        assert!(r.is_ok());
    }
}

#[test]
fn the_plan_is_the_same_elsewhere() {
    let (x, _) = run(&X86_64, plan(false), usual);
    let (y, r) = run(&Aarch64, plan(false), usual);
    assert!(r.is_ok());
    assert_eq!(x.len(), y.len());
    assert_eq!(y[0], format!("call 222 {:?}", [0, 4096, 3, 0x22, u64::MAX, 0]));
    assert_eq!(y[y.len() - 1], format!("call 215 {:?}", [SCRATCH as u64, 4096, 0, 0, 0, 0]));
}

#[test]
fn without_a_page_there_is_nothing_to_release() {
    let (log, r) = run(&X86_64, plan(true), |_| Answer::Value(-12));
    assert_eq!(log, opening()[..1]);
    assert_eq!(said(r), "remote mmap failed (errno 12)");
    let (log, r) = run(&X86_64, plan(true), |_| Answer::Failed(Error::Os(3)));
    assert_eq!(log.len(), 1);
    assert_eq!(said(r), "os 3");
}

#[test]
fn every_refusal_is_reported_and_releases_the_page() {
    let cases: Vec<(&str, i64, &str)> = vec![
        ("call 13 ", -22, "remote rt_sigaction(SIGHUP, SIG_IGN) failed (errno 22)"),
        ("call 257 ", -2, "remote openat(/dev/pts/12) failed (errno 2)"),
        ("call 16 [8,", -1, "remote TIOCSCTTY failed (errno 1)"),
        ("call 33 [8, 5,", -9, "remote dup to fd 5 failed (errno 9)"),
        ("child 109 ", -1, "remote setpgid on dummy failed (errno 1)"),
        ("call 112 ", -1, "remote setsid failed (errno 1)"),
    ];
    for (word, value, message) in cases {
        let (log, r) = run(&X86_64, plan(false), |q| {
            if show(q).starts_with(word) {
                Answer::Value(value)
            } else {
                usual(q)
            }
        });
        assert_eq!(said(r), message);
        assert_eq!(*log.last().unwrap(), unmap(), "{}", word);
        if word.contains("109") || word.contains("112") {
            let n = log.len();
            assert_eq!(log[n - 4], format!("call 62 {:?}", [900, 9, 0, 0, 0, 0]));
            assert_eq!(log[n - 3], "Detach { tid: 900 }");
            assert_eq!(log[n - 2], "Reap { tid: 900 }");
        }
    }
}

#[test]
fn every_failure_is_passed_on_and_releases_the_page() {
    for word in [
        "write 0x7f0000000000 ",
        "write 0x7f0000000100 ",
        "call 13 ",
        "Fork",
        "Adopt",
        "child 109 ",
        "ListGroup",
        "call 109 [43,",
        "call 112 ",
        "call 62 ",
        "call 61 ",
        "call 257 ",
        "call 16 [8,",
        "call 33 ",
    ] {
        let (log, r) = run(&X86_64, plan(false), |q| {
            if show(q).starts_with(word) {
                Answer::Failed(Error::Os(3))
            } else {
                usual(q)
            }
        });
        assert_eq!(said(r), "os 3", "{}", word);
        assert_eq!(*log.last().unwrap(), unmap(), "{}", word);
        assert_eq!(log.iter().filter(|l| **l == unmap()).count(), 1);
    }
}

#[test]
fn best_effort_steps_may_fail() {
    for word in ["call 16 [0,", "Detach", "Reap", "call 3 ", "call 11 "] {
        for leader in [true, false] {
            let (_, r) = run(&X86_64, plan(leader), |q| {
                if show(q).starts_with(word) {
                    Answer::Failed(Error::Os(3))
                } else {
                    usual(q)
                }
            });
            assert!(r.is_ok(), "{}", word);
        }
    }
    // A process that cannot be moved stays where it is.
    let (_, r) = run(&X86_64, plan(false), |q| {
        if show(q).starts_with("call 109 ") {
            Answer::Value(-1)
        } else {
            usual(q)
        }
    });
    assert!(r.is_ok());
}

#[test]
fn sighup_is_ignored_by_a_staged_sigaction() {
    let a = X86_64;
    let (mut s, step) = ignore_sighup(SCRATCH as u64);
    match step {
        Step::Do(q) => assert_eq!(show(&q), opening()[2]),
        _ => panic!("staged first"),
    }
    match s.step(&a, Answer::Done) {
        Step::Do(q) => assert_eq!(show(&q), opening()[3]),
        _ => panic!("then acted on"),
    }
    assert!(matches!(s.step(&a, Answer::Value(0)), Step::Finish(Ok(()))));
    let (mut s, _) = ignore_sighup(SCRATCH as u64);
    s.step(&a, Answer::Done);
    match s.step(&a, Answer::Value(-22)) {
        Step::Finish(r) => {
            assert_eq!(said(r), "remote rt_sigaction(SIGHUP, SIG_IGN) failed (errno 22)")
        }
        _ => panic!("refused"),
    }
    let (mut s, _) = ignore_sighup(SCRATCH as u64);
    match s.step(&a, Answer::Failed(Error::Os(5))) {
        Step::Finish(r) => assert_eq!(said(r), "os 5"),
        _ => panic!("failed"),
    }
}

#[test]
fn scratch_pages_come_and_go() {
    assert_eq!(show(&request_mmap(&X86_64)), opening()[0]);
    assert_eq!(show(&munmap_scratch(&X86_64, SCRATCH as u64)), unmap());
    assert!(matches!(mmap_scratch(SCRATCH), Ok(s) if s == SCRATCH as u64));
    assert!(matches!(mmap_scratch(-12), Err(Error::Msg(m)) if m == "remote mmap failed (errno 12)"));
    let act = sigign_bytes();
    assert_eq!(act.len(), 32);
    assert_eq!(act[..8], (libc::SIG_IGN as u64).to_ne_bytes());
    assert!(act[8..].iter().all(|&b| b == 0));
}
