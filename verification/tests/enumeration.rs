//! Listing the watchdogs of a system, and reading their attributes.

use wdctl::enumerate::{DirEntry, DirListing};
use wdctl::sysfs::{read_trim, AttrRead};
use wdctl::{enumerate, WatchdogSysfs};

fn listing(names: &[&str]) -> DirListing {
    DirListing::Entries {
        entries: names.iter().map(|n| DirEntry::Named { name: String::from(*n) }).collect(),
    }
}

fn listed(names: &[&str]) -> Vec<(u32, String)> {
    enumerate(&listing(names)).unwrap().into_iter().map(|e| (e.index, e.sysfs)).collect()
}

fn at(index: u32, name: &str) -> (u32, String) {
    (index, format!("/sys/class/watchdog/{name}"))
}

fn content(text: &str) -> AttrRead {
    AttrRead::Content { text: String::from(text) }
}

fn watchdog0() -> WatchdogSysfs {
    WatchdogSysfs { index: 0, sysfs: String::from("/sys/class/watchdog/watchdog0") }
}

#[test]
fn a_system_without_the_directory_has_no_watchdogs() {
    assert!(enumerate(&DirListing::Missing).unwrap().is_empty());
    assert!(listed(&[]).is_empty());
}

#[test]
fn watchdogs_are_listed_by_number() {
    assert_eq!(
        listed(&["watchdog10", "watchdog2", "watchdog0", "watchdog1"]),
        vec![at(0, "watchdog0"), at(1, "watchdog1"), at(2, "watchdog2"), at(10, "watchdog10")]
    );
}

#[test]
fn other_entries_do_not_count() {
    assert_eq!(
        listed(&["power", "watchdog1", "Watchdog2", "my_watchdog3", ""]),
        vec![at(1, "watchdog1")]
    );
}

#[test]
fn a_name_without_a_number_has_number_zero() {
    assert_eq!(
        listed(&["watchdog", "watchdogx", "watchdog1x", "watchdog4294967296"]),
        vec![at(0, "watchdog"), at(0, "watchdogx"), at(0, "watchdog1x"), at(0, "watchdog4294967296")]
    );
    assert_eq!(listed(&["watchdog4294967295"]), vec![at(4294967295, "watchdog4294967295")]);
    // Every copy of the prefix is passed over, and so is a plus.
    assert_eq!(listed(&["watchdogwatchdog7"]), vec![at(7, "watchdogwatchdog7")]);
    assert_eq!(listed(&["watchdog+7"]), vec![at(7, "watchdog+7")]);
}

#[test]
fn equal_numbers_keep_the_order_of_the_directory() {
    assert_eq!(
        listed(&["watchdogb", "watchdog1", "watchdoga", "watchdog0", "watchdog01"]),
        vec![
            at(0, "watchdogb"),
            at(0, "watchdoga"),
            at(0, "watchdog0"),
            at(1, "watchdog1"),
            at(1, "watchdog01"),
        ]
    );
}

#[test]
fn every_watchdog_is_listed_once() {
    let names = ["watchdog3", "watchdog1", "watchdog3x", "watchdog2", "watchdog1"];
    let mut given: Vec<String> = names.iter().map(|n| format!("/sys/class/watchdog/{n}")).collect();
    let mut found: Vec<String> = listed(&names).into_iter().map(|(_, path)| path).collect();
    given.sort();
    found.sort();
    assert_eq!(found, given);
}

#[test]
fn a_directory_that_cannot_be_read_is_an_error() {
    let unreadable = DirListing::Unreadable { cause: String::from("Permission denied (os error 13)") };
    assert_eq!(enumerate(&unreadable).unwrap_err().message(), "readdir /sys/class/watchdog");
    let broken = DirListing::Entries {
        entries: vec![
            DirEntry::Named { name: String::from("watchdog0") },
            DirEntry::Failed { cause: String::from("Input/output error (os error 5)") },
            DirEntry::Failed { cause: String::from("another") },
        ],
    };
    assert_eq!(enumerate(&broken).unwrap_err().message(), "Input/output error (os error 5)");
}

#[test]
fn entry_and_device_node_have_the_same_name() {
    for n in [0u32, 1, 10, 4294967295] {
        let name = format!("watchdog{n}");
        let found = enumerate(&listing(&[&name])).unwrap();
        assert_eq!(found[0].index, n);
        assert_eq!(found[0].dev_node(), format!("/dev/{name}"));
    }
}

#[test]
fn attributes_are_files_of_the_entry() {
    assert_eq!(watchdog0().attr_path("identity"), "/sys/class/watchdog/watchdog0/identity");
    let slash = WatchdogSysfs { index: 0, sysfs: String::from("/tmp/w/") };
    assert_eq!(slash.attr_path("state"), "/tmp/w/state");
    let empty = WatchdogSysfs { index: 0, sysfs: String::new() };
    assert_eq!(empty.attr_path("state"), "state");
    assert_eq!(watchdog0().attr_path("/dev/null"), "/dev/null");
}

#[test]
fn text_attributes_are_trimmed() {
    assert_eq!(watchdog0().identity(&content("Software Watchdog\n")).unwrap(), "Software Watchdog");
    assert_eq!(watchdog0().state(&content(" active \n")).unwrap(), "active");
    assert_eq!(watchdog0().state(&content("\n")).unwrap(), "");
    assert_eq!(read_trim(String::from("p"), &content("\tx y\n")).unwrap(), "x y");
}

#[test]
fn number_attributes_are_parsed() {
    assert_eq!(watchdog0().timeout(&content("60\n")).unwrap(), 60);
    assert_eq!(watchdog0().pretimeout(&content("0\n")).unwrap(), 0);
    assert_eq!(watchdog0().bootstatus(&content("32\n")).unwrap(), 32);
    assert_eq!(
        watchdog0().timeout(&content("\n")).unwrap_err().message(),
        "cannot parse integer from empty string"
    );
    assert_eq!(
        watchdog0().pretimeout(&content("ten\n")).unwrap_err().message(),
        "invalid digit found in string"
    );
    assert_eq!(
        watchdog0().bootstatus(&content("4294967296\n")).unwrap_err().message(),
        "number too large to fit in target type"
    );
}

#[test]
fn nowayout_is_one_or_not() {
    assert!(watchdog0().nowayout(&content("1\n")).unwrap());
    assert!(!watchdog0().nowayout(&content("0\n")).unwrap());
    assert!(!watchdog0().nowayout(&content("01\n")).unwrap());
    assert!(!watchdog0().nowayout(&content("")).unwrap());
}

#[test]
fn attributes_that_cannot_be_read_are_errors() {
    let missing = AttrRead::OpenFailed { cause: String::from("No such file or directory (os error 2)") };
    assert_eq!(
        watchdog0().identity(&missing).unwrap_err().message(),
        "open /sys/class/watchdog/watchdog0/identity"
    );
    assert_eq!(
        watchdog0().timeout(&missing).unwrap_err().message(),
        "open /sys/class/watchdog/watchdog0/timeout"
    );
    assert_eq!(
        watchdog0().pretimeout(&missing).unwrap_err().message(),
        "open /sys/class/watchdog/watchdog0/pretimeout"
    );
    assert_eq!(
        watchdog0().nowayout(&missing).unwrap_err().message(),
        "open /sys/class/watchdog/watchdog0/nowayout"
    );
    assert_eq!(
        watchdog0().bootstatus(&missing).unwrap_err().message(),
        "open /sys/class/watchdog/watchdog0/bootstatus"
    );
    let broken = AttrRead::ReadFailed { cause: String::from("stream did not contain valid UTF-8") };
    assert_eq!(
        watchdog0().state(&broken).unwrap_err().message(),
        "stream did not contain valid UTF-8"
    );
}
