//! The kernel log: snapshots, searches and waiting.

use wdctl::dmesg::{find_line, message_of, KmsgLog, KmsgRead, PollAction, PollEvent};
use wdctl::{dmesg_eventually, dmesg_find, dmesg_snapshot};

fn line(text: &str) -> KmsgRead {
    KmsgRead::Line { text: String::from(text) }
}

fn failed(cause: &str) -> KmsgRead {
    KmsgRead::Failed { cause: String::from(cause) }
}

fn opened(reads: Vec<KmsgRead>) -> KmsgLog {
    KmsgLog::Opened { reads }
}

#[test]
fn the_prefix_of_a_record_is_stripped() {
    assert_eq!(message_of("6,339,5140900,-;NET: Registered\n"), "NET: Registered");
    assert_eq!(message_of("6,339,5140900;NET: Registered\n"), "NET: Registered");
    assert_eq!(message_of("6,339,5140900,-,caller=T1;NET: Registered\n"), "NET: Registered");
    assert_eq!(message_of("6,1,2,;x"), "x");
    assert_eq!(message_of("6,1,2,-;a;b; c \t\n"), "a;b; c");
    assert_eq!(message_of("6,1,2,-; indented\n"), " indented");
    assert_eq!(message_of("6,1,2,-;\n"), "");
}

#[test]
fn a_line_without_a_prefix_is_kept_whole() {
    assert_eq!(message_of(" SUBSYSTEM=acpi\n"), " SUBSYSTEM=acpi");
    assert_eq!(message_of(" KEY=a;b\n"), " KEY=a;b");
    assert_eq!(message_of(";x"), ";x");
    assert_eq!(message_of("a;b"), "a;b");
    assert_eq!(message_of(" 6,1,2,-;x"), " 6,1,2,-;x");
    assert_eq!(message_of(""), "");
}

#[test]
fn a_prefix_has_three_numbers() {
    for line in ["6;x", "6,1;x", "6,1,;x", "6,,2;x", ",1,2;x", "6,1,2-;x", "6 1 2;x", "6,1,b;x"] {
        assert_eq!(message_of(line), line);
    }
    assert_eq!(message_of("6,1,2,3"), "6,1,2,3");
}

#[test]
fn a_snapshot_ends_where_the_log_ends_or_blocks() {
    let log = opened(vec![line("6,1,1,-;one\n"), line("6,2,2,-;two\n"), KmsgRead::WouldBlock]);
    assert_eq!(dmesg_snapshot(&log).unwrap(), vec!["two", "one"]);
    let log = opened(vec![line("6,1,1,-;one\n"), KmsgRead::End, line("6,2,2,-;two\n")]);
    assert_eq!(dmesg_snapshot(&log).unwrap(), vec!["one"]);
    assert!(dmesg_snapshot(&opened(vec![])).unwrap().is_empty());
    assert!(dmesg_snapshot(&opened(vec![KmsgRead::WouldBlock])).unwrap().is_empty());
}

#[test]
fn a_snapshot_gives_the_newest_line_first() {
    let log = opened(vec![
        line("6,1,100,-;old\n"),
        line("6,2,200,-;new\n"),
        KmsgRead::WouldBlock,
    ]);
    assert_eq!(dmesg_snapshot(&log).unwrap(), vec!["new", "old"]);
    let log = opened(vec![line(" KEY=a;b\n"), KmsgRead::WouldBlock]);
    assert_eq!(dmesg_snapshot(&log).unwrap(), vec![" KEY=a;b"]);
}

#[test]
fn every_attempt_but_a_line_ends_a_snapshot() {
    assert!(!line("x").ends_snapshot());
    assert!(KmsgRead::End.ends_snapshot());
    assert!(KmsgRead::WouldBlock.ends_snapshot());
    assert!(failed("Broken pipe (os error 32)").ends_snapshot());
}

#[test]
fn a_failure_loses_the_snapshot() {
    let log = opened(vec![line("6,1,1,-;one\n"), failed("Broken pipe (os error 32)")]);
    assert_eq!(
        dmesg_snapshot(&log).unwrap_err().message(),
        "read kmsg: Broken pipe (os error 32)"
    );
    let log = KmsgLog::Unopened { cause: String::from("Permission denied (os error 13)") };
    assert_eq!(dmesg_snapshot(&log).unwrap_err().message(), "open /dev/kmsg (root needed)");
    assert_eq!(dmesg_find(&log, "x").unwrap_err().message(), "open /dev/kmsg (root needed)");
}

#[test]
fn no_message_ends_with_space() {
    let log = opened(vec![line("6,1,1,-;one \r\n"), line("two\t\n"), line("\n")]);
    assert_eq!(dmesg_snapshot(&log).unwrap(), vec!["", "two", "one"]);
}

#[test]
fn a_search_gives_the_newest_line() {
    let log = opened(vec![
        line("6,1,1,-;alpha\n"),
        line("6,2,2,-;beta 1\n"),
        line("6,3,3,-;beta 2\n"),
    ]);
    assert_eq!(dmesg_find(&log, "beta").unwrap(), Some(String::from("beta 2")));
    assert_eq!(dmesg_find(&log, "beta 1").unwrap(), Some(String::from("beta 1")));
    assert_eq!(dmesg_find(&log, "").unwrap(), Some(String::from("beta 2")));
    assert_eq!(dmesg_find(&log, "gamma").unwrap(), None);
    // The prefix is not searched, and the needle is no pattern.
    assert_eq!(dmesg_find(&log, "6,1").unwrap(), None);
    assert_eq!(dmesg_find(&log, "beta [0-9]+").unwrap(), None);
    let lines = vec![String::from("x 1"), String::from("y"), String::from("x 2")];
    assert_eq!(find_line(&lines, "x"), Some(String::from("x 1")));
    assert_eq!(find_line(&vec![], ""), None);
}

#[test]
fn a_wait_looks_at_the_log_while_there_is_time() {
    let look = dmesg_eventually("x", 200_000_000, &PollEvent::Clock { elapsed: 0 });
    assert!(matches!(look, PollAction::TakeSnapshot));
    let look = dmesg_eventually("x", 200_000_000, &PollEvent::Clock { elapsed: 199_999_999 });
    assert!(matches!(look, PollAction::TakeSnapshot));
}

#[test]
fn a_wait_ends_at_the_timeout() {
    for elapsed in [200_000_000u128, 200_000_001] {
        match dmesg_eventually("x y", 200_000_000, &PollEvent::Clock { elapsed }) {
            PollAction::Fail { error } => assert_eq!(
                error.message(),
                "dmesg never produced a line containing \"x y\""
            ),
            other => panic!("{other:?}"),
        }
    }
    // With no time at all the log is not even looked at.
    let end = dmesg_eventually("x", 0, &PollEvent::Clock { elapsed: 0 });
    assert!(matches!(end, PollAction::Fail { .. }));
}

#[test]
fn a_wait_ends_with_the_line() {
    let log = opened(vec![line("6,1,1,-;one x\n"), line("6,2,2,-;two x\n")]);
    match dmesg_eventually("x", 1, &PollEvent::Snapshot { log }) {
        PollAction::Found { line } => assert_eq!(line, "two x"),
        other => panic!("{other:?}"),
    }
}

#[test]
fn a_wait_sleeps_between_looks() {
    let log = opened(vec![line("6,1,1,-;one\n")]);
    let action = dmesg_eventually("x", 1, &PollEvent::Snapshot { log });
    assert!(matches!(action, PollAction::Sleep { millis: 50 }));
}

#[test]
fn a_wait_ends_with_an_unreadable_log() {
    let log = KmsgLog::Unopened { cause: String::from("Permission denied (os error 13)") };
    match dmesg_eventually("x", 1, &PollEvent::Snapshot { log }) {
        PollAction::Fail { error } => {
            assert_eq!(error.message(), "open /dev/kmsg (root needed)")
        }
        other => panic!("{other:?}"),
    }
}

#[test]
fn the_first_telling_round_decides_a_wait() {
    // Rounds at 0, 50, 100 and 150 ms; the line is there from the third on.
    let logs = [vec![], vec!["6,1,1,-;y\n"], vec!["6,1,1,-;x 1\n"], vec!["6,1,1,-;x 2\n"]];
    for (millis, want) in [(200u128, Some("x 1")), (101, Some("x 1")), (100, None), (50, None)] {
        let mut found: Option<String> = None;
        for (round, lines) in logs.iter().enumerate() {
            let elapsed = round as u128 * 50_000_000;
            match dmesg_eventually("x", millis * 1_000_000, &PollEvent::Clock { elapsed }) {
                PollAction::TakeSnapshot => {}
                PollAction::Fail { .. } => break,
                other => panic!("{other:?}"),
            }
            let log = opened(lines.iter().map(|l| line(l)).collect());
            match dmesg_eventually("x", millis * 1_000_000, &PollEvent::Snapshot { log }) {
                PollAction::Found { line } => {
                    found = Some(line);
                    break;
                }
                PollAction::Sleep { .. } => {}
                other => panic!("{other:?}"),
            }
        }
        assert_eq!(found.as_deref(), want);
    }
}

#[test]
fn a_wait_of_200_ms_ends_by_the_fifth_round() {
    let mut looks = 0;
    let mut elapsed: u128 = 0;
    let mut event = PollEvent::Clock { elapsed };
    loop {
        match dmesg_eventually("x", 200_000_000, &event) {
            PollAction::TakeSnapshot => {
                looks += 1;
                event = PollEvent::Snapshot { log: opened(vec![]) };
            }
            PollAction::Sleep { millis } => {
                elapsed += u128::from(millis) * 1_000_000;
                event = PollEvent::Clock { elapsed };
            }
            PollAction::Fail { .. } => break,
            PollAction::Found { line } => panic!("{line}"),
        }
    }
    assert_eq!(looks, 4);
}
