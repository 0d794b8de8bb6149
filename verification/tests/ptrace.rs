//! Results of ptrace(2) and waitpid(2), and words for the tracee.

use reptyr::arch::x86_64::X86_64;
use reptyr::bytes::{c_string, join_half, join_word, push_half, push_short, push_word, push_zeros};
use reptyr::error::Error;
use reptyr::ptrace::{
    classify, cvt, read_word, seize, syscall_stop_kind, wait, wait_timeout, write_bytes, Poke, Stop,
    SyscallStop, WaitStep,
};

#[test]
fn wait_statuses_are_classified() {
    // Exited with 3, killed by SIGKILL, killed with a core dump.
    assert_eq!(classify(3 << 8), Stop::Exited);
    assert_eq!(classify(9), Stop::Exited);
    assert_eq!(classify(0x80 | 11), Stop::Exited);
    assert_eq!(classify((19 << 8) | 0x7f), Stop::Signal(19));
    assert_eq!(classify((5 << 8) | 0x7f), Stop::Signal(5));
    assert_eq!(classify((0x85 << 8) | 0x7f), Stop::Syscall);
    assert_eq!(classify((1 << 16) | (5 << 8) | 0x7f), Stop::Event(1));
    assert_eq!(classify((128 << 16) | (5 << 8) | 0x7f), Stop::Event(128));
    // An event above another signal is a stop by that signal.
    assert_eq!(classify((128 << 16) | (19 << 8) | 0x7f), Stop::Signal(19));
}

#[test]
fn classification_agrees_with_libc_on_every_low_half() {
    for status in 0..=0xffffi32 {
        let expected = if libc::WIFEXITED(status) || libc::WIFSIGNALED(status) {
            Stop::Exited
        } else if libc::WSTOPSIG(status) == (libc::SIGTRAP | 0x80) {
            Stop::Syscall
        } else {
            Stop::Signal(libc::WSTOPSIG(status))
        };
        assert_eq!(classify(status), expected, "{:x}", status);
    }
}

#[test]
fn a_blocking_wait_goes_on_when_interrupted() {
    assert_eq!(wait(7, 0, (0x85 << 8) | 0x7f), WaitStep::Got(Stop::Syscall));
    assert_eq!(wait(-1, libc::EINTR, 0), WaitStep::Again);
    assert_eq!(wait(-1, libc::ECHILD, 0), WaitStep::Failed(libc::ECHILD));
}

#[test]
fn a_timed_wait_sleeps_until_its_deadline() {
    assert_eq!(wait_timeout(7, 7, 0, (19 << 8) | 0x7f, 50, 10), WaitStep::Got(Stop::Signal(19)));
    assert_eq!(wait_timeout(7, 0, 0, 0, 9, 10), WaitStep::Sleep(5));
    assert_eq!(wait_timeout(7, 0, 0, 0, 10, 10), WaitStep::TimedOut);
    assert_eq!(wait_timeout(7, -1, libc::EINTR, 0, 50, 10), WaitStep::Again);
    assert_eq!(wait_timeout(7, -1, libc::ESRCH, 0, 0, 10), WaitStep::Failed(libc::ESRCH));
}

#[test]
fn failures_are_told_by_their_return_value() {
    assert!(cvt(0, libc::EIO).is_ok());
    assert!(matches!(cvt(-1, libc::EIO), Err(Error::Os(e)) if e == libc::EIO));
    assert!(matches!(read_word(-1, 0), Ok(u64::MAX)));
    assert!(matches!(read_word(17, libc::EIO), Ok(17)));
    assert!(matches!(read_word(-1, libc::EIO), Err(Error::Os(e)) if e == libc::EIO));
}

#[test]
fn a_failed_seize_is_explained() {
    assert!(seize(5, 0, 0).is_ok());
    match seize(5, -1, libc::EPERM) {
        Err(Error::Msg(m)) => assert_eq!(
            m,
            "cannot attach to 5: permission denied (already traced, or ptrace_scope restrictions)"
        ),
        other => panic!("{:?}", other),
    }
    match seize(5, -1, libc::ESRCH) {
        Err(Error::Msg(m)) => assert_eq!(m, "no such process or thread: 5"),
        other => panic!("{:?}", other),
    }
    assert!(matches!(seize(5, -1, libc::EIO), Err(Error::Os(e)) if e == libc::EIO));
}

#[test]
fn syscall_stops_are_refined() {
    let a = X86_64;
    let kinds: Vec<SyscallStop> = (0..5u8).map(|op| syscall_stop_kind(&a, Some(op), None)).collect();
    assert_eq!(
        kinds,
        vec![
            SyscallStop::Unknown,
            SyscallStop::Entry,
            SyscallStop::Exit,
            SyscallStop::Entry,
            SyscallStop::Unknown
        ]
    );
    assert_eq!(syscall_stop_kind(&a, None, None), SyscallStop::Unknown);
}

#[test]
fn bytes_are_written_word_by_word() {
    assert_eq!(write_bytes(0x1000, &[]), vec![]);
    assert_eq!(
        write_bytes(0x1000, b"/dev/null\0"),
        vec![
            Poke { addr: 0x1000, word: u64::from_le_bytes(*b"/dev/nul") },
            Poke { addr: 0x1008, word: u64::from_le_bytes([b'l', 0, 0, 0, 0, 0, 0, 0]) },
        ]
    );
    assert_eq!(
        write_bytes(8, &[1, 2, 3, 4, 5, 6, 7, 8]),
        vec![Poke { addr: 8, word: 0x0807060504030201 }]
    );
}

#[test]
fn written_words_lie_in_memory_as_the_bytes() {
    for len in 0..40usize {
        let data: Vec<u8> = (0..len).map(|i| (i * 37 + 11) as u8).collect();
        let mut memory = vec![0xeeu8; 64];
        for poke in write_bytes(8, &data) {
            let at = poke.addr as usize;
            memory[at..at + 8].copy_from_slice(&poke.word.to_ne_bytes());
        }
        assert_eq!(&memory[8..8 + len], &data[..]);
        let end = 8 + (len + 7) / 8 * 8;
        assert!(memory[8 + len..end].iter().all(|&b| b == 0));
        assert!(memory[..8].iter().chain(&memory[end..]).all(|&b| b == 0xee));
    }
}

#[test]
fn words_are_little_endian() {
    assert_eq!(join_word(1, 2, 3, 4, 5, 6, 7, 8), u64::from_le_bytes([1, 2, 3, 4, 5, 6, 7, 8]));
    assert_eq!(join_half(1, 2, 3, 0xff), u32::from_le_bytes([1, 2, 3, 0xff]));
    let mut b = Vec::new();
    push_word(&mut b, 0x1122334455667788);
    push_half(&mut b, 0xaabbccdd);
    push_short(&mut b, 0xeeff);
    push_zeros(&mut b, 3);
    let mut expected = 0x1122334455667788u64.to_le_bytes().to_vec();
    expected.extend(0xaabbccddu32.to_le_bytes());
    expected.extend(0xeeffu16.to_le_bytes());
    expected.extend([0, 0, 0]);
    assert_eq!(b, expected);
    assert_eq!(c_string("/dev/pts/4"), b"/dev/pts/4\0".to_vec());
    assert_eq!(c_string("ä"), vec![0xc3, 0xa4, 0]);
}
