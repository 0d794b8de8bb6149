//! The modes of the tool.

use std::collections::VecDeque;

use reptyr::cli::Streams;
use reptyr::error::Error;
use reptyr::modes::attach::attach;
use reptyr::modes::pty::proxy_mode;
use reptyr::modes::steal_tty::steal_tty;
use reptyr::modes::{Answer, Request, Step};
use reptyr::target::{Device, FdEntry};

fn said(r: Option<Result<(), Error>>) -> String {
    match r {
        Some(Err(Error::Msg(m))) => m,
        Some(Err(Error::Os(e))) => format!("os {}", e),
        Some(Ok(())) => "ok".to_string(),
        None => "going on".to_string(),
    }
}

fn drive(
    first: Step,
    mut go_on: impl FnMut(Answer) -> Step,
    answers: Vec<Answer>,
) -> (Vec<Request>, Option<Result<(), Error>>) {
    let mut step = first;
    let mut log = Vec::new();
    let mut answers: VecDeque<Answer> = answers.into();
    loop {
        match step {
            Step::Do(request) => {
                log.push(request);
                match answers.pop_front() {
                    Some(answer) => step = go_on(answer),
                    None => return (log, None),
                }
            }
            Step::Finish(r) => {
                assert!(answers.is_empty());
                return (log, Some(r));
            }
        }
    }
}

fn attaching(force: bool, answers: Vec<Answer>) -> (Vec<Request>, Option<Result<(), Error>>) {
    let (mut s, first) = attach(42, 1, Streams::all(), force);
    drive(first, |a| s.step(a), answers)
}

fn stat(tty: u32) -> Answer {
    Answer::Text(format!("42 (cat) S 41 42 40 {} 42 0", tty))
}

fn fds() -> Answer {
    let e = |name: &str, ma, mi| FdEntry {
        name: name.to_string(),
        device: Some(Device { is_char: true, rdev: libc::makedev(ma, mi) }),
    };
    Answer::Fds(vec![e("7", 136, 4), e("0", 136, 4), e("1", 1, 3)])
}

fn cmdline() -> Answer {
    Answer::Bytes(b"cat\0".to_vec())
}

#[test]
fn an_attach_goes_through_its_checks() {
    let (log, r) = attaching(
        false,
        vec![
            cmdline(),
            stat(0x8804),
            fds(),
            Answer::Text("42 (cat) S 41 42 42 0 0".to_string()),
            Answer::Pty(9),
            Answer::Yes(false),
            Answer::Yes(true),
            Answer::Failed(Error::Os(5)),
            Answer::Done,
            Answer::Done,
        ],
    );
    assert_eq!(said(r), "ok");
    let names: Vec<String> = log.iter().map(|q| format!("{:?}", q)).collect();
    assert_eq!(names[0], "ReadCmdline { pid: 42 }");
    assert_eq!(names[1], "ReadStat { pid: 42 }");
    assert_eq!(names[2], "ListFds { pid: 42 }");
    assert_eq!(names[3], "ReadStat { pid: 42 }");
    assert_eq!(names[4], "OpenPty");
    assert_eq!(names[5], "ProbeTermios { pid: 42, fd: 0 }");
    assert_eq!(names[6], "ProbeTermios { pid: 42, fd: 1 }");
    assert_eq!(names[7], "CopyTermios");
    match &log[8] {
        Request::Move { pid: 42, plan } => {
            assert_eq!(plan.slave_path, "/dev/pts/9");
            assert_eq!(plan.fds, vec![0, 7]);
            assert!(plan.is_session_leader);
        }
        other => panic!("{:?}", other),
    }
    assert_eq!(names[9], "Relay { exit_on_eio: true }");
    assert_eq!(names.len(), 10);
}

#[test]
fn an_attach_refuses_what_it_cannot_move() {
    let (_, first) = attach(42, 42, Streams::all(), false);
    assert!(matches!(
        first,
        Step::Finish(Err(Error::Msg(m))) if m == "refusing to attach to myself"
    ));
    let (_, r) = attaching(false, vec![Answer::Failed(Error::Os(libc::ENOENT))]);
    assert_eq!(said(r), "no such process: 42");
    let (_, r) = attaching(false, vec![Answer::Failed(Error::Os(libc::EACCES))]);
    assert_eq!(said(r), format!("os {}", libc::EACCES));
    let (_, r) = attaching(false, vec![Answer::Bytes(vec![])]);
    assert_eq!(said(r), "target has no command line (zombie or kernel thread?)");
    let (_, r) = attaching(false, vec![cmdline(), Answer::Text("x".to_string())]);
    assert_eq!(said(r), "malformed /proc/<pid>/stat");
    let (_, r) = attaching(false, vec![cmdline(), stat(0)]);
    assert_eq!(
        said(r),
        "target has no file descriptors on a terminal; use -s to force fds 0, 1, 2"
    );
    let no = || Answer::Yes(false);
    let (_, r) = attaching(
        false,
        vec![cmdline(), stat(0x8804), fds(), stat(0x8804), Answer::Pty(9), no(), no(), no()],
    );
    assert_eq!(
        said(r),
        "target is not connected to a terminal (use -s to force attaching anyways)"
    );
}

#[test]
fn a_forced_attach_needs_no_terminal() {
    let no = || Answer::Yes(false);
    let (log, r) = attaching(
        true,
        vec![
            cmdline(),
            stat(0),
            stat(0),
            Answer::Pty(9),
            no(),
            no(),
            no(),
            Answer::Failed(Error::Os(3)),
        ],
    );
    assert_eq!(said(r), "os 3");
    match log.last().unwrap() {
        Request::Move { plan, .. } => {
            assert_eq!(plan.fds, vec![0, 1, 2]);
            assert!(!plan.is_session_leader);
        }
        other => panic!("{:?}", other),
    }
}

#[test]
fn a_theft_finds_the_emulator() {
    let (mut s, first) = steal_tty(42);
    let (log, r) = drive(
        first,
        |a| s.step(a),
        vec![
            stat(0x8804),
            fds(),
            Answer::Links(vec![None, Some("/dev/pts/4".to_string())]),
            Answer::Text("42 (cat) S 41 42 40 0 0".to_string()),
            Answer::Text("40 (bash) S 30 40 40 0 0".to_string()),
            Answer::Done,
            Answer::Done,
        ],
    );
    assert_eq!(said(r), "ok");
    let names: Vec<String> = log.iter().map(|q| format!("{:?}", q)).collect();
    assert_eq!(
        names,
        vec![
            "ReadStat { pid: 42 }",
            "ListFds { pid: 42 }",
            "ReadLinks { pid: 42, fds: [0, 7] }",
            "ReadStat { pid: 42 }",
            "ReadStat { pid: 40 }",
            "Steal { emulator: 30, ptn: 4, sid: 40 }",
            "Relay { exit_on_eio: true }",
        ]
    );
}

#[test]
fn a_theft_needs_a_pty() {
    let tried = |answers: Vec<Answer>| {
        let (mut s, first) = steal_tty(42);
        said(drive(first, |a| s.step(a), answers).1)
    };
    assert_eq!(tried(vec![stat(0)]), "target has no controlling terminal");
    assert_eq!(
        tried(vec![stat(0x8804), fds(), Answer::Links(vec![])]),
        "cannot determine the target's terminal path"
    );
    assert_eq!(
        tried(vec![stat(0x401), fds(), Answer::Links(vec![Some("/dev/tty1".to_string())])]),
        "target's terminal is not a pty: /dev/tty1"
    );
    let link = || Answer::Links(vec![Some("/dev/pts/4".to_string())]);
    assert_eq!(
        tried(vec![stat(0x8804), fds(), link(), stat(0x8804), Answer::Text("40 (b) S".to_string())]),
        "malformed /proc/<pid>/stat"
    );
    assert_eq!(
        tried(vec![
            stat(0x8804),
            fds(),
            link(),
            stat(0x8804),
            Answer::Text("40 (b) S 30".to_string()),
            Answer::Failed(Error::Os(1)),
        ]),
        "os 1"
    );
}

#[test]
fn a_fresh_pty_is_announced_and_relayed() {
    let (mut s, first) = proxy_mode(false, vec![]);
    let (log, r) = drive(first, |a| s.step(a), vec![Answer::Pty(3), Answer::Done, Answer::Done]);
    assert_eq!(said(r), "ok");
    let names: Vec<String> = log.iter().map(|q| format!("{:?}", q)).collect();
    assert_eq!(
        names,
        vec!["OpenPty", "Announce { path: \"/dev/pts/3\" }", "Relay { exit_on_eio: false }"]
    );
}

#[test]
fn a_command_is_started_and_waited_for() {
    let command = vec!["tmux".to_string(), "new".to_string()];
    let (mut s, first) = proxy_mode(true, command.clone());
    let (log, r) = drive(
        first,
        |a| s.step(a),
        vec![
            Answer::Pty(3),
            Answer::Done,
            Answer::Done,
            Answer::Failed(Error::Os(5)),
            Answer::Failed(Error::Os(6)),
        ],
    );
    assert_eq!(said(r), "os 5");
    match &log[2] {
        Request::Spawn { command: c, slave, login } => {
            assert_eq!(*c, command);
            assert_eq!(slave, "/dev/pts/3");
            assert!(*login);
        }
        other => panic!("{:?}", other),
    }
    assert!(matches!(log[3], Request::Relay { exit_on_eio: false }));
    assert!(matches!(log[4], Request::WaitChild));
    // A command that cannot be started ends the mode.
    let (mut s, first) = proxy_mode(false, command);
    let (_, r) = drive(
        first,
        |a| s.step(a),
        vec![Answer::Pty(3), Answer::Done, Answer::Failed(Error::Os(2))],
    );
    assert_eq!(said(r), "os 2");
    let (mut s, first) = proxy_mode(false, vec![]);
    let (_, r) = drive(first, |a| s.step(a), vec![Answer::Failed(Error::Os(13))]);
    assert_eq!(said(r), "os 13");
}
