//! The command line.

use reptyr::cli::{front, parse, parse_streams, usage, Front, Mode, Options, Streams, VERSION};
use reptyr::error::Error;

fn args(a: &[&str]) -> Vec<String> {
    a.iter().map(|s| s.to_string()).collect()
}

fn ok(a: &[&str]) -> Options {
    parse(&args(a)).expect("accepted")
}

fn refused(a: &[&str]) -> String {
    match parse(&args(a)) {
        Err(Error::Msg(m)) => m,
        other => panic!("{:?}", other),
    }
}

#[test]
fn a_plain_pid_attaches_with_all_streams() {
    let o = ok(&["1234"]);
    assert!(!o.verbose);
    assert!(matches!(
        o.mode,
        Mode::Attach { pid: 1234, streams: Streams { stdin: true, stdout: true, stderr: true }, force_stdio: false }
    ));
}

#[test]
fn options_may_stand_anywhere() {
    let o = ok(&["1234", "-V", "stdout|stderr", "-s"]);
    assert!(o.verbose);
    assert!(matches!(
        o.mode,
        Mode::Attach { pid: 1234, streams: Streams { stdin: false, stdout: true, stderr: true }, force_stdio: true }
    ));
}

#[test]
fn stealing_takes_a_pid() {
    assert!(matches!(ok(&["-T", "77"]).mode, Mode::StealTty { pid: 77 }));
    assert_eq!(refused(&["-T"]), "missing PID (try -h)");
}

#[test]
fn pty_modes_take_a_command() {
    match ok(&["-L", "--verbose", "tmux", "new-session"]) {
        Options { mode: Mode::Proxy { login, command }, verbose } => {
            assert!(login && verbose);
            assert_eq!(command, args(&["tmux", "new-session"]));
        }
        other => panic!("{:?}", other),
    }
    match ok(&["-l"]).mode {
        Mode::Proxy { login, command } => {
            assert!(!login);
            assert!(command.is_empty());
        }
        other => panic!("{:?}", other),
    }
}

#[test]
fn the_last_pty_option_decides() {
    assert!(matches!(ok(&["-l", "-L"]).mode, Mode::Proxy { login: true, .. }));
    assert!(matches!(ok(&["-L", "-l"]).mode, Mode::Proxy { login: false, .. }));
}

#[test]
fn two_dashes_end_the_options() {
    match ok(&["-l", "--", "ls", "-s", "--"]).mode {
        Mode::Proxy { command, .. } => assert_eq!(command, args(&["ls", "-s", "--"])),
        other => panic!("{:?}", other),
    }
    assert!(matches!(ok(&["--", "12"]).mode, Mode::Attach { pid: 12, .. }));
}

#[test]
fn bad_pids_are_refused() {
    assert_eq!(refused(&[]), "missing PID (try -h)");
    assert_eq!(refused(&["abc"]), "invalid pid: abc");
    assert_eq!(refused(&["0"]), "invalid pid: 0");
    assert_eq!(refused(&["2147483648"]), "invalid pid: 2147483648");
    assert_eq!(refused(&["--", "-5"]), "invalid pid: -5");
    assert!(matches!(ok(&["2147483647"]).mode, Mode::Attach { pid: i32::MAX, .. }));
    assert!(matches!(ok(&["+5"]).mode, Mode::Attach { pid: 5, .. }));
}

#[test]
fn bad_streams_are_refused() {
    assert_eq!(refused(&["5", "stdin|foo"]), "invalid stream 'foo': expected stdin|stdout|stderr");
    assert_eq!(refused(&["5", ""]), "invalid stream '': expected stdin|stdout|stderr");
}

#[test]
fn streams_are_selected_by_name() {
    let s = parse_streams("stderr|stdin").unwrap();
    assert_eq!(s, Streams { stdin: true, stdout: false, stderr: true });
    assert!(s.includes(0));
    assert!(!s.includes(1));
    assert!(s.includes(2));
    assert!(s.includes(3));
    assert!(s.includes(-1));
    assert_eq!(Streams::all(), Streams { stdin: true, stdout: true, stderr: true });
}

#[test]
fn help_and_version_come_first() {
    assert!(matches!(front(&args(&["-h", "x"])), Front::Help));
    assert!(matches!(front(&args(&["--help"])), Front::Help));
    assert!(matches!(front(&args(&["-v"])), Front::Version));
    assert!(matches!(front(&args(&["--version"])), Front::Version));
    assert!(matches!(front(&args(&["5", "-h"])), Front::Run));
    assert!(matches!(front(&args(&[])), Front::Run));
    assert!(usage().starts_with("reptyr-rs — reparent a running program to a new terminal\n"));
    assert!(usage().contains("    -s   Also redirect fds 0, 1 and 2 unconditionally"));
    assert_eq!(VERSION, "0.1.0");
}

#[test]
fn bad_combinations_are_refused() {
    assert_eq!(refused(&["-x", "5"]), "unknown option: -x (try -h)");
    assert_eq!(refused(&["5", "-q", "-x"]), "unknown option: -q (try -h)");
    assert_eq!(refused(&["-l", "-T", "5"]), "-l/-L cannot be combined with -T or -s");
    assert_eq!(refused(&["-s", "-L"]), "-l/-L cannot be combined with -T or -s");
    assert_eq!(refused(&["-T", "-s", "5"]), "-T cannot be combined with -s");
    assert_eq!(refused(&["5", "stdin", "x"]), "too many arguments (try -h)");
    assert_eq!(refused(&["-"]), "invalid pid: -");
    assert!(matches!(ok(&["-T", "5", "extra"]).mode, Mode::StealTty { pid: 5 }));
}
