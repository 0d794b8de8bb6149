//! The terminal relay.

use std::collections::VecDeque;

use reptyr::error::Error;
use reptyr::proxy::{read_once, run, Answer, End, ReadOutcome, Request, Step};

fn show(r: &Request) -> String {
    match r {
        Request::Write { to, data } => format!("write {:?} {}", to, String::from_utf8_lossy(data)),
        other => format!("{:?}", other),
    }
}

/// Feed a relay its answers; returns what it asked for and how it ended.
fn drive(
    exit_on_eio: bool,
    has_child: bool,
    answers: Vec<Answer>,
) -> (Vec<String>, Option<Result<(), Error>>) {
    let (mut p, mut step) = run(exit_on_eio, has_child);
    let mut log = Vec::new();
    let mut answers: VecDeque<Answer> = answers.into();
    loop {
        match step {
            Step::Do(request) => {
                log.push(show(&request));
                match answers.pop_front() {
                    Some(answer) => step = p.step(answer),
                    None => return (log, None),
                }
            }
            Step::Finish(r) => {
                assert!(answers.is_empty());
                return (log, Some(r));
            }
        }
    }
}

fn ready(terminal: bool, master: bool) -> Answer {
    Answer::Ready { winch: false, terminal, master }
}

fn raised(rest: Vec<Answer>) -> Vec<Answer> {
    let mut a = vec![Answer::Yes(true), Answer::Done, Answer::Done];
    a.extend(rest);
    a
}

fn data(s: &str) -> Answer {
    Answer::Data(s.as_bytes().to_vec())
}

#[test]
fn traffic_is_relayed_both_ways_the_master_first() {
    let (log, r) = drive(
        true,
        false,
        raised(vec![
            ready(true, true),
            data("hello"),
            Answer::Wrote(2),
            Answer::Failed(libc::EINTR),
            Answer::Wrote(3),
            data("ls"),
            Answer::Wrote(0),
            Answer::Wrote(2),
            ready(false, false),
            Answer::Ready { winch: true, terminal: true, master: false },
            Answer::Done,
            Answer::Eof,
            Answer::Done,
        ]),
    );
    assert_eq!(
        log,
        vec![
            "IsTerminal",
            "MakeRaw",
            "Watch",
            "Poll",
            "Read { from: Master }",
            "write Terminal hello",
            "write Terminal llo",
            "write Terminal llo",
            "Read { from: Terminal }",
            "write Master ls",
            "write Master ls",
            "Poll",
            "Poll",
            "ForwardSize",
            "Read { from: Terminal }",
            "RestoreTerminal",
        ]
    );
    assert!(matches!(r, Some(Ok(()))));
}

#[test]
fn a_relay_needs_a_terminal() {
    let (log, r) = drive(true, false, vec![Answer::Yes(false)]);
    assert_eq!(log, vec!["IsTerminal"]);
    assert!(matches!(
        r,
        Some(Err(Error::Msg(m))) if m == "stdin is not a terminal; proxy mode must run from a terminal"
    ));
    let (log, r) = drive(true, false, vec![Answer::Yes(true), Answer::Failed(libc::EIO)]);
    assert_eq!(log, vec!["IsTerminal", "MakeRaw"]);
    assert!(matches!(r, Some(Err(Error::Os(e))) if e == libc::EIO));
}

#[test]
fn a_missing_slave_ends_a_stolen_session() {
    let (log, r) = drive(
        true,
        false,
        raised(vec![ready(false, true), Answer::NoSlave, Answer::Done]),
    );
    assert_eq!(*log.last().unwrap(), "RestoreTerminal");
    assert!(matches!(r, Some(Ok(()))));
}

#[test]
fn a_missing_slave_is_waited_for_otherwise() {
    let (log, r) = drive(
        false,
        false,
        raised(vec![ready(true, true), Answer::NoSlave, Answer::Done, data("x"), Answer::Wrote(1)]),
    );
    assert_eq!(
        log[4..],
        [
            "Read { from: Master }",
            "Sleep { ms: 200 }",
            "Read { from: Terminal }",
            "write Master x",
            "Poll"
        ]
    );
    assert!(r.is_none());
}

#[test]
fn a_command_that_is_done_ends_the_relay() {
    let (log, r) = drive(
        false,
        true,
        raised(vec![
            ready(false, true),
            Answer::NoSlave,
            Answer::Yes(false),
            Answer::Done,
            ready(false, true),
            Answer::NoSlave,
            Answer::Yes(true),
            Answer::Done,
        ]),
    );
    assert_eq!(
        log[4..],
        [
            "Read { from: Master }",
            "ChildDone",
            "Sleep { ms: 200 }",
            "Poll",
            "Read { from: Master }",
            "ChildDone",
            "RestoreTerminal"
        ]
    );
    assert!(matches!(r, Some(Ok(()))));
}

#[test]
fn a_terminal_that_hangs_up_ends_the_relay() {
    for end in [Answer::Eof, Answer::NoSlave] {
        let (log, r) = drive(false, true, raised(vec![ready(true, false), end, Answer::Done]));
        assert_eq!(*log.last().unwrap(), "RestoreTerminal");
        assert!(matches!(r, Some(Ok(()))));
    }
    let (_, r) = drive(
        false,
        false,
        raised(vec![ready(false, true), Answer::Eof, Answer::Done]),
    );
    assert!(matches!(r, Some(Ok(()))));
}

#[test]
fn failures_restore_the_terminal() {
    let cases: Vec<(bool, Vec<Answer>)> = vec![
        (false, vec![Answer::Failed(libc::EBADF)]),
        (false, vec![ready(false, true), data("x"), Answer::Failed(libc::EBADF)]),
        (false, vec![ready(true, false), data("x"), Answer::Failed(libc::EBADF)]),
        (true, vec![ready(false, true), Answer::NoSlave, Answer::Failed(libc::EBADF)]),
    ];
    for (has_child, mut answers) in cases {
        answers.push(Answer::Done);
        let (log, r) = drive(true, has_child, raised(answers));
        assert_eq!(*log.last().unwrap(), "RestoreTerminal");
        assert!(matches!(r, Some(Err(Error::Os(e))) if e == libc::EBADF));
    }
    // An interrupted poll is no failure.
    let (log, r) = drive(true, false, raised(vec![Answer::Failed(libc::EINTR)]));
    assert_eq!(*log.last().unwrap(), "Poll");
    assert!(r.is_none());
}

#[test]
fn a_cut_off_relay_has_written_a_beginning_of_what_it_read() {
    let (log, r) = drive(
        true,
        false,
        raised(vec![
            ready(false, true),
            data("hello"),
            Answer::Wrote(2),
            Answer::Failed(libc::EBADF),
            Answer::Done,
        ]),
    );
    assert_eq!(
        log[4..],
        [
            "Read { from: Master }",
            "write Terminal hello",
            "write Terminal llo",
            "RestoreTerminal",
        ]
    );
    assert!(matches!(r, Some(Err(Error::Os(e))) if e == libc::EBADF));
}

#[test]
fn reads_are_told_apart() {
    assert_eq!(read_once(5, 0), ReadOutcome::Data(5));
    assert_eq!(read_once(0, 0), ReadOutcome::Eof);
    assert_eq!(read_once(-1, libc::EIO), ReadOutcome::NoSlave);
    assert_eq!(read_once(-1, libc::EINTR), ReadOutcome::Again);
    assert_eq!(read_once(-1, libc::EBADF), ReadOutcome::Eof);
    assert_eq!(format!("{:?}", End::Master), "Master");
}
