//! A stay inside another process.

use reptyr::error::Error;
use reptyr::tracee::Missed;
use reptyr::visit::{start, Answer, Request, Step};

const ORDER: [&str; 6] = ["Attach", "Seize", "MapPage", "Work", "UnmapPage", "Restore"];

fn signals(missed: &[Missed]) -> Vec<i32> {
    missed.iter().map(|m| m.sig).collect()
}

fn show(request: &Request) -> String {
    match request {
        Request::Detach { missed } => format!("Detach {:?}", signals(missed)),
        other => format!("{:?}", other),
    }
}

/// Answer every request with a failure, if any, and the signals that are
/// owed; returns the log.
fn run(
    maps: bool,
    mut answer: impl FnMut(&str) -> (Option<i32>, Vec<i32>),
) -> (Vec<String>, Result<(), Error>) {
    let (mut v, mut step) = start(maps);
    let mut log = Vec::new();
    loop {
        match step {
            Step::Do(request) => {
                let shown = show(&request);
                let (failure, owed) = answer(&shown);
                log.push(shown);
                step = v.step(Answer {
                    failure: failure.map(Error::Os),
                    missed: owed.into_iter().map(|sig| Missed { tid: 7, sig }).collect(),
                });
            }
            Step::Finish(r) => return (log, r),
        }
    }
}

fn failed(r: Result<(), Error>) -> Option<i32> {
    match r {
        Err(Error::Os(e)) => Some(e),
        Ok(()) => None,
        other => panic!("{:?}", other),
    }
}

#[test]
fn a_stay_puts_everything_back() {
    let (log, r) = run(true, |q| {
        (
            None,
            match q {
                "Seize" => vec![10, 12],
                "Restore" => vec![15],
                _ => vec![],
            },
        )
    });
    let mut expected: Vec<String> = ORDER.iter().map(|q| q.to_string()).collect();
    expected.push("Detach [10, 12, 15]".to_string());
    assert_eq!(log, expected);
    assert_eq!(failed(r), None);
    let (log, r) = run(false, |_| (None, vec![]));
    assert_eq!(log, vec!["Attach", "Seize", "Work", "Restore", "Detach []"]);
    assert_eq!(failed(r), None);
}

#[test]
fn whatever_fails_the_threads_are_let_go() {
    for (i, bad) in ORDER.iter().enumerate() {
        let (log, r) = run(true, |q| {
            let owed = if q == "Seize" || q == "Restore" { vec![12] } else { vec![] };
            (if q == *bad { Some(5) } else { None }, owed)
        });
        if i == 0 {
            assert_eq!(log, vec!["Attach"]);
        } else {
            let last = if i == 1 { "Detach [12]" } else { "Detach [12, 12]" };
            assert_eq!(log.last().unwrap(), last);
            assert_eq!(log.iter().filter(|q| q.starts_with("Detach")).count(), 1);
            assert_eq!(log.iter().any(|q| q == "Restore"), i > 1);
            assert_eq!(log.iter().any(|q| q == "UnmapPage"), i > 2);
        }
        // Releasing the page is best effort.
        assert_eq!(failed(r), if *bad == "UnmapPage" { None } else { Some(5) });
    }
}

#[test]
fn the_first_failure_counts() {
    let (_, r) = run(true, |q| match q {
        "Work" => (Some(1), vec![]),
        "Restore" => (Some(2), vec![]),
        "Detach []" => (Some(3), vec![]),
        _ => (None, vec![]),
    });
    assert_eq!(failed(r), Some(1));
    let (_, r) = run(false, |q| match q {
        "Restore" => (Some(2), vec![]),
        _ => (None, vec![]),
    });
    assert_eq!(failed(r), Some(2));
}
