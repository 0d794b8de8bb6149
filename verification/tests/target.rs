//! What /proc says about a target.

use reptyr::cli::Streams;
use reptyr::error::Error;
use reptyr::target::{
    controlling_tty, ctty_path, fds_on_tty, fds_to_redirect, is_session_leader, ppid_of,
    proc_failure, process_of, procs_in_pgrp, session_id, stat_ids, termios_of, threads, Device,
    FdEntry, ProcEntry, Probe,
};

const STAT: &str = "1234 (cat (a) b) S 1000 1234 1000 34820 1234 4194304 98 0";

fn message<T>(r: Result<T, Error>) -> String {
    match r {
        Err(Error::Msg(m)) => m,
        Err(Error::Os(e)) => format!("os {}", e),
        Ok(_) => panic!("accepted"),
    }
}

fn entry(name: &str, device: Option<(u32, u32)>) -> FdEntry {
    FdEntry {
        name: name.to_string(),
        device: device.map(|(ma, mi)| Device { is_char: true, rdev: libc::makedev(ma, mi) }),
    }
}

#[test]
fn threads_are_the_numeric_names() {
    let names = vec!["12", ".", "x", "7", "+3", "99999999999"];
    let names: Vec<String> = names.iter().map(|s| s.to_string()).collect();
    assert_eq!(threads(12, Ok(names)).unwrap(), vec![12, 7, 3]);
    assert_eq!(message(threads(12, Ok(vec![".".to_string()]))), "process 12 has no threads");
    assert_eq!(message(threads(12, Err(libc::ENOENT))), "no such process: 12");
    assert_eq!(message(threads(12, Err(libc::EACCES))), format!("os {}", libc::EACCES));
    assert!(matches!(proc_failure(3, libc::ENOENT), Error::Msg(m) if m == "no such process: 3"));
}

#[test]
fn stat_fields_resume_after_the_last_parenthesis() {
    assert_eq!(stat_ids(STAT).unwrap(), (1234, 1000, 34820));
    assert_eq!(ppid_of(STAT).unwrap(), 1000);
    assert_eq!(session_id(STAT).unwrap(), 1000);
    assert!(!is_session_leader(1234, STAT).unwrap());
    assert!(is_session_leader(1000, STAT).unwrap());
}

#[test]
fn a_malformed_stat_is_refused() {
    for stat in ["", "1 (x) S", "1 (x) S 1 2 3", "1 (x) S 1 a 3 4", "1 (x) S 1 2 -3 4"] {
        assert_eq!(message(stat_ids(stat)), "malformed /proc/<pid>/stat", "{}", stat);
        assert_eq!(message(controlling_tty(stat)), "malformed /proc/<pid>/stat");
        assert_eq!(message(is_session_leader(1, stat)), "malformed /proc/<pid>/stat");
        assert_eq!(message(session_id(stat)), "malformed /proc/<pid>/stat");
    }
    assert_eq!(message(ppid_of("1 (x) S")), "malformed /proc/<pid>/stat");
    assert_eq!(message(ppid_of("1 (x) S x")), "malformed /proc/<pid>/stat");
    assert_eq!(ppid_of("1 (x) S -1").unwrap(), -1);
}

#[test]
fn the_controlling_terminal_is_decoded() {
    // 34820 is 0x8804: pty 4.
    assert_eq!(controlling_tty(STAT).unwrap(), Some((136, 4)));
    assert_eq!(controlling_tty("1 (x) S 1 1 1 0 0").unwrap(), None);
    for (major, minor) in [(4u64, 1u64), (136, 255), (136, 256), (0xfff, 0xfffff), (1, 0)] {
        let encoded = (minor & 0xff) | (major << 8) | ((minor & !0xff) << 12);
        let stat = format!("1 (x) S 1 1 1 {} 0", encoded);
        assert_eq!(controlling_tty(&stat).unwrap(), Some((major, minor)));
    }
}

#[test]
fn process_groups_are_gathered_from_their_stats() {
    let e = |name: &str, stat: Option<&str>| ProcEntry {
        name: name.to_string(),
        stat: stat.map(|s| s.to_string()),
    };
    let entries = vec![
        e("self", Some("9 (x) S 1 5 5 0")),
        e("10", Some("10 (x) S 1 5 5 0")),
        e("11", Some("11 (x) S 1 6 5 0")),
        e("12", None),
        e("13", Some("broken")),
        e("+14", Some("14 (x) S 1 5 5 0")),
        e("15", Some("15 (x) S 1 5 5 0")),
    ];
    assert_eq!(procs_in_pgrp(5, &entries), vec![10, 15]);
    assert_eq!(procs_in_pgrp(6, &entries), vec![11]);
    assert_eq!(procs_in_pgrp(7, &entries), vec![]);
    assert_eq!(process_of("123"), Some(123));
    assert_eq!(process_of("99999999999"), None);
    assert_eq!(process_of(""), None);
    assert_eq!(process_of("-1"), None);
}

#[test]
fn terminal_attributes_come_from_the_first_terminal() {
    assert!(matches!(termios_of(0, true), Probe::Found));
    assert!(matches!(termios_of(0, false), Probe::Next(1)));
    assert!(matches!(termios_of(1, false), Probe::Next(2)));
    assert!(matches!(termios_of(2, true), Probe::Found));
    match termios_of(2, false) {
        Probe::Failed(Error::Msg(m)) => assert_eq!(
            m,
            "target is not connected to a terminal (use -s to force attaching anyways)"
        ),
        other => panic!("{:?}", other),
    }
}

#[test]
fn fds_on_a_terminal_are_found_and_sorted() {
    let mut entries = vec![
        entry("10", Some((136, 4))),
        entry("2", Some((136, 4))),
        entry("1", Some((136, 5))),
        entry("0", Some((136, 4))),
        entry("7", None),
        entry("x", Some((136, 4))),
    ];
    entries.push(FdEntry {
        name: "8".to_string(),
        device: Some(Device { is_char: false, rdev: libc::makedev(136, 4) }),
    });
    assert_eq!(fds_on_tty(&entries, (136, 4)), vec![0, 2, 10]);
    assert_eq!(fds_on_tty(&entries, (136, 5)), vec![1]);
    assert_eq!(fds_on_tty(&entries, (4, 4)), vec![]);
}

#[test]
fn device_numbers_are_taken_apart_like_libc_does() {
    for (ma, mi) in [(0u32, 0u32), (5, 2), (136, 300), (0xabcde, 0x123456), (u32::MAX, u32::MAX)] {
        let entries = vec![entry("3", Some((ma, mi)))];
        assert_eq!(fds_on_tty(&entries, (ma as u64, mi as u64)), vec![3]);
        assert_eq!(fds_on_tty(&entries, (mi as u64 + 1, ma as u64)), vec![]);
    }
}

#[test]
fn streams_filter_standard_fds_only() {
    let entries = vec![
        entry("5", Some((136, 4))),
        entry("0", Some((136, 4))),
        entry("1", Some((136, 4))),
        entry("2", Some((1, 3))),
    ];
    let dev = Some((136u64, 4u64));
    let out = Streams { stdin: false, stdout: true, stderr: true };
    assert_eq!(fds_to_redirect(dev, &entries, Streams::all(), false).unwrap(), vec![0, 1, 5]);
    assert_eq!(fds_to_redirect(dev, &entries, out, false).unwrap(), vec![1, 5]);
    assert_eq!(fds_to_redirect(dev, &entries, Streams::all(), true).unwrap(), vec![0, 1, 2, 5]);
    assert_eq!(fds_to_redirect(dev, &entries, out, true).unwrap(), vec![1, 2, 5]);
}

#[test]
fn forcing_works_without_a_terminal() {
    assert_eq!(fds_to_redirect(None, &vec![], Streams::all(), true).unwrap(), vec![0, 1, 2]);
    assert_eq!(
        message(fds_to_redirect(None, &vec![], Streams::all(), false)),
        "target has no file descriptors on a terminal; use -s to force fds 0, 1, 2"
    );
}

#[test]
fn the_terminal_path_is_the_first_readable_link() {
    let l = |s: &str| Some(s.to_string());
    assert_eq!(ctty_path(&vec![None, l("/dev/pts/4"), l("/dev/pts/5")]).unwrap(), "/dev/pts/4");
    assert_eq!(message(ctty_path(&vec![None, None])), "cannot determine the target's terminal path");
    assert_eq!(message(ctty_path(&vec![])), "cannot determine the target's terminal path");
}
