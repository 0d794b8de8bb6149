//! Stealing the master end of a pty.

use reptyr::arch::x86_64::X86_64;
use reptyr::error::Error;
use reptyr::remote::{Answer, Request, Step};
use reptyr::steal::theft::steal_inner;
use reptyr::steal::{
    cmsg_bytes, is_ptmx, msghdr_bytes, ptmx_fds, pty_number, recv_fd, sockaddr_bytes, socket_file,
};
use reptyr::target::{Device, FdEntry};
use reptyr::tty::slave_path;

const SCRATCH: u64 = 0x7f00_0000_0000;
const PATH: &[u8] = b"/tmp/reptyr-rs-5.sock";

fn show(r: &Request) -> String {
    match r {
        Request::Call { nr, args } => format!("call {} {:?}", nr, args),
        Request::Write { addr, data } => format!("write {:#x} {:?}", addr - SCRATCH, data),
        Request::Read { addr } => format!("read {:#x}", addr - SCRATCH),
        other => format!("{:?}", other),
    }
}

/// An emulator with the masters 10 (pty 3), 11 (pty 4), 12 (no master after
/// all) and 13 (pty 4).
fn emulator() -> impl FnMut(&Request) -> Answer {
    let mut asked = 0u64;
    move |r| match r {
        Request::ListMasters { pid: 77 } => Answer::Numbers(vec![10, 11, 12, 13]),
        Request::Call { nr: 16, args } => {
            assert_eq!(args[1], libc::TIOCGPTN as u64);
            asked = args[0];
            Answer::Value(if asked == 12 { -25 } else { 0 })
        }
        // The number is the lower half of the word.
        Request::Read { .. } => Answer::Word(0xdead_0000_0000 + if asked == 10 { 3 } else { 4 }),
        Request::Bind => Answer::Path(PATH.to_vec()),
        Request::Call { nr: 41, .. } => Answer::Value(20),
        Request::Call { nr: 257, .. } => Answer::Value(21),
        Request::Call { .. } => Answer::Value(0),
        Request::Receive => Answer::Number(6),
        Request::Shield { pid: 50 } | Request::Write { .. } => Answer::Done,
        other => panic!("{:?}", other),
    }
}

fn run(ptn: u32, mut answer: impl FnMut(&Request) -> Answer) -> (Vec<String>, Result<i32, Error>) {
    let (mut t, mut step) = steal_inner(77, SCRATCH, ptn, 50);
    let mut log = Vec::new();
    loop {
        match step {
            Step::Do(request) => {
                log.push(show(&request));
                let answered = answer(&request);
                step = t.step(&X86_64, answered);
            }
            Step::Finish(r) => return (log, r),
        }
    }
}

fn said(r: Result<i32, Error>) -> String {
    match r {
        Err(Error::Msg(m)) => m,
        Err(Error::Os(e)) => format!("os {}", e),
        Ok(fd) => format!("fd {}", fd),
    }
}

fn query(fd: u64) -> String {
    format!("call 16 {:?}", [fd, libc::TIOCGPTN as u64, SCRATCH + 0x300, 0, 0, 0])
}

#[test]
fn the_masters_are_found_handed_over_and_covered() {
    let (log, r) = run(4, emulator());
    assert_eq!(said(r), "fd 6");
    let address = sockaddr_bytes(&PATH.to_vec()).unwrap();
    assert_eq!(
        log,
        vec![
            "ListMasters { pid: 77 }".to_string(),
            query(10),
            "read 0x300".to_string(),
            query(11),
            "read 0x300".to_string(),
            query(12),
            query(13),
            "read 0x300".to_string(),
            "Bind".to_string(),
            format!("write 0x200 {:?}", address),
            format!("call 41 {:?}", [1, 2, 0, 0, 0, 0]),
            format!("call 42 {:?}", [20, SCRATCH + 0x200, 110, 0, 0, 0]),
            format!("write 0x100 {:?}", msghdr_bytes(SCRATCH + 0x180)),
            format!("write 0x180 {:?}", cmsg_bytes(11)),
            format!("call 46 {:?}", [20, SCRATCH + 0x100, 0, 0, 0, 0]),
            "Receive".to_string(),
            "Shield { pid: 50 }".to_string(),
            format!("write 0x0 {:?}", b"/dev/null\0"),
            format!("call 257 {:?}", [(-100i64) as u64, SCRATCH, 2, 0, 0, 0]),
            format!("call 33 {:?}", [21, 11, 0, 0, 0, 0]),
            format!("call 33 {:?}", [21, 13, 0, 0, 0, 0]),
            format!("call 3 {:?}", [21, 0, 0, 0, 0, 0]),
            format!("call 3 {:?}", [20, 0, 0, 0, 0, 0]),
        ]
    );
}

#[test]
fn without_a_master_there_is_nothing_to_steal() {
    let (log, r) = run(9, emulator());
    assert_eq!(said(r), "no master fd for pty 9 found in emulator 77");
    assert_eq!(log.len(), 8);
}

#[test]
fn without_the_null_device_the_copies_stay() {
    let mut e = emulator();
    let (log, r) = run(4, |q| match q {
        Request::Call { nr: 257, .. } => Answer::Value(-2),
        other => e(other),
    });
    assert_eq!(said(r), "fd 6");
    assert!(!log.iter().any(|l| l.starts_with("call 33 ")));
    assert_eq!(*log.last().unwrap(), format!("call 3 {:?}", [20, 0, 0, 0, 0, 0]));
}

#[test]
fn every_refusal_is_reported() {
    for (word, value, message) in [
        ("call 41 ", -24i64, "remote socket() failed (errno 24)"),
        (
            "call 42 ",
            -13,
            "remote connect() failed (errno 13); the emulator may run as another user (try sudo)",
        ),
        ("call 46 ", -32, "remote sendmsg() failed (errno 32)"),
    ] {
        let mut e = emulator();
        let (log, r) = run(4, |q| {
            if show(q).starts_with(word) {
                Answer::Value(value)
            } else {
                e(q)
            }
        });
        assert_eq!(said(r), message);
        if word == "call 42 " {
            assert_eq!(*log.last().unwrap(), format!("call 3 {:?}", [20, 0, 0, 0, 0, 0]));
        }
    }
}

#[test]
fn every_failure_is_passed_on() {
    for word in [
        "ListMasters", "call 16 ", "read ", "Bind", "write 0x200", "call 41 ", "call 42 ",
        "write 0x100", "write 0x180", "call 46 ", "Receive", "Shield", "write 0x0 ", "call 257 ",
    ] {
        let mut e = emulator();
        let (_, r) = run(4, |q| {
            if show(q).starts_with(word) {
                Answer::Failed(Error::Os(3))
            } else {
                e(q)
            }
        });
        assert_eq!(said(r), "os 3", "{}", word);
    }
    // Covering and closing are best effort.
    let mut e = emulator();
    let (_, r) = run(4, |q| {
        if show(q).starts_with("call 33 ") || show(q).starts_with("call 3 ") {
            Answer::Failed(Error::Os(3))
        } else {
            e(q)
        }
    });
    assert_eq!(said(r), "fd 6");
}

#[test]
fn pty_numbers_are_read_from_their_path() {
    assert_eq!(pty_number("/dev/pts/4").unwrap(), 4);
    assert_eq!(pty_number("17").unwrap(), 17);
    for n in [0, 9, 10, 4294967295] {
        assert_eq!(slave_path(n), format!("/dev/pts/{}", n));
        assert_eq!(pty_number(&slave_path(n)).unwrap(), n);
    }
    for path in ["/dev/tty1", "/dev/pts/", "", "/dev/pts/4294967296"] {
        match pty_number(path) {
            Err(Error::Msg(m)) => assert_eq!(m, format!("target's terminal is not a pty: {}", path)),
            other => panic!("{:?}", other),
        }
    }
}

#[test]
fn pty_masters_are_told_by_their_device() {
    assert!(is_ptmx(libc::makedev(5, 2)));
    assert!(!is_ptmx(libc::makedev(2, 5)));
    assert!(!is_ptmx(libc::makedev(5, 0)));
    assert!(!is_ptmx(libc::makedev(136, 2)));
    let entry = |name: &str, rdev: Option<u64>| FdEntry {
        name: name.to_string(),
        device: rdev.map(|rdev| Device { is_char: true, rdev }),
    };
    let entries = vec![
        entry("12", Some(libc::makedev(5, 2))),
        entry("x", Some(libc::makedev(5, 2))),
        entry("3", None),
        entry("4", Some(libc::makedev(1, 3))),
        entry("5", Some(libc::makedev(5, 2))),
    ];
    assert_eq!(ptmx_fds(&entries), vec![12, 5]);
}

#[test]
fn structures_are_laid_out_as_the_kernel_wants_them() {
    let address = sockaddr_bytes(&PATH.to_vec()).unwrap();
    assert_eq!(address.len(), std::mem::size_of::<libc::sockaddr_un>());
    assert_eq!(address[..2], (libc::AF_UNIX as u16).to_ne_bytes());
    assert_eq!(&address[2..2 + PATH.len()], PATH);
    assert!(address[2 + PATH.len()..].iter().all(|&b| b == 0));
    let m = msghdr_bytes(0x1122);
    assert_eq!(m.len(), std::mem::size_of::<libc::msghdr>());
    assert_eq!(m[32..40], 0x1122u64.to_ne_bytes());
    assert_eq!(m[40..48], 20u64.to_ne_bytes());
    assert!(m[..32].iter().chain(&m[48..]).all(|&b| b == 0));
    let c = cmsg_bytes(11);
    assert_eq!(c.len(), 24);
    assert_eq!(c[..8], 20u64.to_ne_bytes());
    assert_eq!(c[8..12], libc::SOL_SOCKET.to_ne_bytes());
    assert_eq!(c[12..16], libc::SCM_RIGHTS.to_ne_bytes());
    assert_eq!(c[16..20], 11i32.to_ne_bytes());
    assert_eq!(socket_file(5), "reptyr-rs-5.sock");
}

#[test]
fn socket_paths_have_to_fit() {
    assert!(sockaddr_bytes(&vec![b'x'; 107]).is_ok());
    assert!(matches!(
        sockaddr_bytes(&vec![b'x'; 108]),
        Err(Error::Msg(m)) if m == "socket path too long"
    ));
}

#[test]
fn a_passed_fd_is_received() {
    for fd in [0, 6, 1023, i32::MAX, -1] {
        assert!(matches!(recv_fd(0, 0, &cmsg_bytes(fd)), Ok(got) if got == fd));
    }
    assert!(matches!(recv_fd(-1, libc::EBADF, &cmsg_bytes(6)), Err(Error::Os(e)) if e == libc::EBADF));
    assert!(matches!(
        recv_fd(0, 0, &vec![0; 24]),
        Err(Error::Msg(m)) if m == "no fd received from the emulator"
    ));
    let mut other = cmsg_bytes(6);
    other[12] = 2;
    assert!(recv_fd(0, 0, &other).is_err());
}
