//! Choosing the watchdog under test, gates, sessions and reports.

use wdctl::device::DeviceOp;
use wdctl::error::Error;
use wdctl::harness::{
    ask_info, describe_info, description_line, no_watchdog_marker, other_identity_marker,
};
use wdctl::harness::{Candidate, Consent, Gate, InfoRead};
use wdctl::sysfs::AttrRead;
use wdctl::{
    assert_options_supports, describe, pick_watchdog, require_lab_consent, require_root,
    skip_unless_identity, with_open, WatchdogInfo, WatchdogSysfs,
};

fn content(text: &str) -> AttrRead {
    AttrRead::Content { text: String::from(text) }
}

fn unreadable() -> AttrRead {
    AttrRead::OpenFailed { cause: String::from("No such file or directory (os error 2)") }
}

fn entry(index: u32) -> WatchdogSysfs {
    WatchdogSysfs { index, sysfs: format!("/sys/class/watchdog/watchdog{index}") }
}

fn candidate(index: u32, identity: &str) -> Candidate {
    Candidate { sys: entry(index), identity: Some(content(&format!("{identity}\n"))) }
}

#[test]
fn only_root_may_run_the_suite() {
    assert!(require_root(0).is_ok());
    assert_eq!(
        require_root(1000).unwrap_err().message(),
        "test requires root (current uid = 1000); skipping"
    );
}

#[test]
fn consent_is_one_exact_word() {
    assert!(matches!(require_lab_consent(Some("YES_REALLY")), Consent::Granted));
    for value in [None, Some(""), Some("yes_really"), Some("YES_REALLY "), Some("YES")] {
        match require_lab_consent(value) {
            Consent::Skip { marker } => assert_eq!(
                marker,
                "# SKIP: lab-CI test requires WATCHDOG_LAB_DANGEROUS=YES_REALLY \
                 (this test will REBOOT the machine on success)"
            ),
            Consent::Granted => panic!("{value:?}"),
        }
    }
}

#[test]
fn without_watchdogs_there_is_nothing_to_pick() {
    for want in [None, Some("softdog")] {
        assert_eq!(
            pick_watchdog(&vec![], want).unwrap_err().message(),
            "no /sys/class/watchdog/watchdog* — is a watchdog driver loaded?"
        );
    }
}

#[test]
fn a_wanted_identity_is_found() {
    let list = vec![
        candidate(0, "iTCO_wdt"),
        Candidate { sys: entry(1), identity: Some(unreadable()) },
        candidate(2, "softdog"),
        candidate(3, "softdog"),
    ];
    assert_eq!(pick_watchdog(&list, Some("softdog")).unwrap().index, 2);
    assert_eq!(pick_watchdog(&list, Some("iTCO_wdt")).unwrap().index, 0);
    assert_eq!(
        pick_watchdog(&list, Some("soft")).unwrap_err().message(),
        "no watchdog with identity \"soft\""
    );
    assert_eq!(
        pick_watchdog(&list, Some("a\"b\n")).unwrap_err().message(),
        "no watchdog with identity \"a\\\"b\\n\""
    );
}

#[test]
fn an_identity_that_was_not_read_is_not_found() {
    let unread = |index| Candidate { sys: entry(index), identity: None };
    let list = vec![unread(1), candidate(2, "softdog")];
    assert_eq!(pick_watchdog(&list, Some("softdog")).unwrap().index, 2);
    // Without a wanted identity none has to be read.
    assert_eq!(pick_watchdog(&vec![unread(1), unread(2)], None).unwrap().index, 1);
}

#[test]
fn the_default_is_watchdog_zero_or_else_the_first() {
    let list = vec![candidate(0, "a"), candidate(1, "b")];
    assert_eq!(pick_watchdog(&list, None).unwrap().index, 0);
    let list = vec![candidate(3, "a"), candidate(5, "b")];
    let picked = pick_watchdog(&list, None).unwrap();
    assert_eq!(picked.index, 3);
    assert_eq!(picked.sysfs, "/sys/class/watchdog/watchdog3");
    let list = vec![candidate(5, "a"), candidate(0, "b"), candidate(1, "c")];
    assert_eq!(pick_watchdog(&list, None).unwrap().index, 0);
}

#[test]
fn a_test_runs_on_its_own_driver_only() {
    match skip_unless_identity(Ok((entry(4), content("softdog\n"))), "softdog").unwrap() {
        Gate::Run { sys } => assert_eq!(sys.index, 4),
        other => panic!("{other:?}"),
    }
    match skip_unless_identity(Ok((entry(4), content("iTCO_wdt\n"))), "softdog").unwrap() {
        Gate::Skip { marker } => {
            assert_eq!(marker, "# SKIP: identity \"iTCO_wdt\" is not \"softdog\"")
        }
        other => panic!("{other:?}"),
    }
    assert_eq!(
        skip_unless_identity(Ok((entry(4), unreadable())), "softdog").unwrap_err().message(),
        "open /sys/class/watchdog/watchdog4/identity"
    );
}

#[test]
fn without_watchdogs_a_test_is_skipped() {
    for pinned in [None, Some("softdog")] {
        let picked = pick_watchdog(&vec![], pinned).map(|_| unreachable!());
        match skip_unless_identity(picked, "softdog").unwrap() {
            Gate::Skip { marker } => {
                assert_eq!(marker, "# SKIP: no watchdog is loaded, so none is \"softdog\"")
            }
            other => panic!("{other:?}"),
        }
    }
}

#[test]
fn other_failures_to_pick_a_watchdog_are_handed_on() {
    let list = vec![candidate(0, "iTCO_wdt")];
    let picked = pick_watchdog(&list, Some("wdt")).map(|_| unreachable!());
    assert_eq!(
        skip_unless_identity(picked, "wdt").unwrap_err().message(),
        "no watchdog with identity \"wdt\""
    );
}

#[test]
fn markers_show_identities_as_they_are_given() {
    assert_eq!(other_identity_marker("<a>", "<b>"), "# SKIP: identity <a> is not <b>");
    assert_eq!(no_watchdog_marker("<b>"), "# SKIP: no watchdog is loaded, so none is <b>");
}

#[test]
fn options_suffice_exactly_when_every_bit_is_there() {
    for options in [0u32, 1, 0x8000, 0x8180, 0xffff_ffff] {
        let info = WatchdogInfo { options, ..WatchdogInfo::default() };
        for required in [0u32, 1, 0x80, 0x8000, 0x8180, 0x81a0, 0xffff_ffff] {
            let every = (0..32).all(|n| (required >> n) & 1 == 0 || (options >> n) & 1 == 1);
            assert_eq!(assert_options_supports(&info, required, "x").is_ok(), every);
        }
    }
}

#[test]
fn missing_options_are_named() {
    let info = WatchdogInfo { options: 0x8180, ..WatchdogInfo::default() };
    match assert_options_supports(&info, 0x8020, "C-03") {
        Err(Error::OptionsMissing { what, required, missing, advertised }) => {
            assert_eq!(what, "C-03");
            assert_eq!((required, missing, advertised), (0x8020, 0x20, 0x8180));
        }
        other => panic!("{other:?}"),
    }
    assert_eq!(
        assert_options_supports(&info, 0x8020, "C-03").unwrap_err().message(),
        "C-03: required options bitmap 0x00008020 missing 0x00000020 (driver advertises 0x00008180)"
    );
}

#[test]
fn a_session_hands_out_the_device_and_is_closed() {
    let session = with_open(&entry(2), Ok(()), |w| Ok(String::from(w.path())));
    assert_eq!(session.result.unwrap(), "/dev/watchdog2");
    let close = session.close.unwrap();
    assert_eq!(close.first_op(), DeviceOp::Write { byte: b'V' });
    assert_eq!(close.finish(Ok(())).ops, vec![DeviceOp::Close]);
}

#[test]
fn a_session_is_closed_when_its_body_fails() {
    let session = with_open(&entry(2), Ok(()), |_| Err::<(), Error>(Error::NoWatchdog));
    assert!(matches!(session.result, Err(Error::NoWatchdog)));
    assert_eq!(session.close.unwrap().first_op(), DeviceOp::Write { byte: b'V' });
}

#[test]
fn there_is_no_session_on_a_device_that_does_not_open() {
    let refused = Err(String::from("Device or resource busy (os error 16)"));
    let session = with_open(&entry(2), refused, |_| -> Result<(), Error> {
        panic!("the body must not run")
    });
    match session.result {
        Err(Error::OpenNode { node, cause }) => {
            assert_eq!(node, "/dev/watchdog2");
            assert_eq!(cause, "Device or resource busy (os error 16)");
        }
        other => panic!("{other:?}"),
    }
    assert!(session.close.is_none());
    let refused = Err(String::from("x"));
    let session = with_open(&entry(2), refused, |_| Ok(()));
    assert_eq!(session.result.unwrap_err().message(), "open /dev/watchdog2");
}

const V_AND_CLOSE: [DeviceOp; 2] = [DeviceOp::Write { byte: b'V' }, DeviceOp::Close];

fn softdog_info() -> WatchdogInfo {
    let mut info = WatchdogInfo { options: 0x180, ..WatchdogInfo::default() };
    info.identity[..9].copy_from_slice(b"soft\"dog\"");
    info
}

#[test]
fn a_description_is_one_line() {
    let answered = || InfoRead::Answered { info: softdog_info() };
    for (timeout, nowayout, line) in [
        (
            content("60\n"),
            content("1\n"),
            "watchdog1 identity=\"soft\\\"dog\\\"\" options=0x0180 timeout=Some(60)s nowayout=Some(true)",
        ),
        (
            unreadable(),
            unreadable(),
            "watchdog1 identity=\"soft\\\"dog\\\"\" options=0x0180 timeout=Nones nowayout=None",
        ),
        (
            content("sixty\n"),
            content("0\n"),
            "watchdog1 identity=\"soft\\\"dog\\\"\" options=0x0180 timeout=Nones nowayout=Some(false)",
        ),
    ] {
        let description = describe(&entry(1), answered(), &timeout, &nowayout);
        assert_eq!(description.result.unwrap(), line);
        assert_eq!(description.ops, V_AND_CLOSE);
        assert_eq!(
            describe_info(&entry(1), Ok(softdog_info()), &timeout, &nowayout).unwrap(),
            line
        );
    }
    assert_eq!(
        description_line(7, "<id>", 0x81a0, Some(1), None),
        "watchdog7 identity=<id> options=0x81a0 timeout=Some(1)s nowayout=None"
    );
}

#[test]
fn there_is_no_description_of_a_device_that_does_not_open() {
    let read = InfoRead::OpenFailed { cause: String::from("Permission denied (os error 13)") };
    let description = describe(&entry(1), read, &content("60\n"), &content("1\n"));
    let error = description.result.unwrap_err();
    assert_eq!(error.message(), "open(/dev/watchdog1)");
    assert_eq!(error.causes(), vec!["Permission denied (os error 13)"]);
    assert!(description.ops.is_empty());
}

#[test]
fn a_device_that_does_not_answer_is_still_stopped() {
    let read = InfoRead::Refused { errno: 25 };
    let description = describe(&entry(1), read, &content("60\n"), &content("1\n"));
    assert_eq!(
        description.result.unwrap_err().message(),
        "WDIOC_GETSUPPORT: ENOTTY: Not a typewriter"
    );
    assert_eq!(description.ops, V_AND_CLOSE);
}

#[test]
fn asking_for_the_info_stops_the_device_again() {
    let query = ask_info(&entry(1), InfoRead::Answered { info: softdog_info() });
    assert_eq!(query.info.unwrap().options, 0x180);
    assert_eq!(query.ops, V_AND_CLOSE);
    let query = ask_info(&entry(1), InfoRead::Refused { errno: 5 });
    assert_eq!(query.info.unwrap_err().message(), "WDIOC_GETSUPPORT: EIO: I/O error");
    assert_eq!(query.ops, V_AND_CLOSE);
    let query = ask_info(&entry(1), InfoRead::OpenFailed { cause: String::from("x") });
    assert_eq!(query.info.unwrap_err().message(), "open(/dev/watchdog1)");
    assert!(query.ops.is_empty());
}
