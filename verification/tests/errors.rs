//! The words in which failures are reported.

use wdctl::error::Error;
use wdctl::ioctl::Request;
use wdctl::number::NumberError;

fn text(s: &str) -> String {
    String::from(s)
}

#[test]
fn every_failure_has_its_message() {
    let cause = || text("Permission denied (os error 13)");
    let cases = vec![
        (Error::NotRoot { uid: 4294967295 }, "test requires root (current uid = 4294967295); skipping"),
        (Error::NoWatchdog, "no /sys/class/watchdog/watchdog* — is a watchdog driver loaded?"),
        (Error::NoSuchIdentity { want: text("x y") }, "no watchdog with identity \"x y\""),
        (
            Error::OptionsMissing {
                what: text("W"),
                required: 0xdeadbeef,
                missing: 0xf,
                advertised: 0,
            },
            "W: required options bitmap 0xdeadbeef missing 0x0000000f (driver advertises 0x00000000)",
        ),
        (
            Error::DmesgTimeout { needle: text("[RUST]\t") },
            "dmesg never produced a line containing \"[RUST]\\t\"",
        ),
        (Error::ListDir { cause: cause() }, "readdir /sys/class/watchdog"),
        (Error::OpenAttr { path: text("/a/b"), cause: cause() }, "open /a/b"),
        (Error::OpenDevice { path: text("/dev/w"), cause: cause() }, "open(/dev/w)"),
        (Error::OpenNode { node: text("/dev/w"), cause: cause() }, "open /dev/w"),
        (Error::OpenKmsg { cause: cause() }, "open /dev/kmsg (root needed)"),
        (Error::ReadKmsg { cause: cause() }, "read kmsg: Permission denied (os error 13)"),
        (Error::Io { cause: cause() }, "Permission denied (os error 13)"),
        (Error::WriteMagic { cause: cause() }, "write 'V'"),
        (Error::WritePing { cause: cause() }, "write byte ping"),
        (Error::Ioctl { request: Request::GetSupport, errno: 1 }, "WDIOC_GETSUPPORT: EPERM: Operation not permitted"),
        (Error::Ioctl { request: Request::SetTimeout, errno: 22 }, "EINVAL: Invalid argument"),
        (Error::Ioctl { request: Request::GetTimeleft, errno: 0x7fff_0000 }, "UnknownErrno: Unknown errno"),
        (Error::Number { kind: NumberError::Empty }, "cannot parse integer from empty string"),
        (Error::Number { kind: NumberError::InvalidDigit }, "invalid digit found in string"),
        (Error::Number { kind: NumberError::Overflow }, "number too large to fit in target type"),
    ];
    for (error, message) in cases {
        assert_eq!(error.message(), message, "{error:?}");
    }
}

#[test]
fn number_errors_speak_as_the_standard_parser_does() {
    for bad in ["", "x", "4294967296"] {
        let kind = wdctl::number::parse_u32(bad).unwrap_err();
        assert_eq!(
            Error::Number { kind }.message(),
            bad.parse::<u32>().unwrap_err().to_string()
        );
    }
}

#[test]
fn a_message_quotes_what_it_is_given() {
    let refused = Error::Ioctl { request: Request::KeepAlive, errno: 5 };
    assert_eq!(refused.message_with("out of order"), "out of order");
    let support = Error::Ioctl { request: Request::GetSupport, errno: 5 };
    assert_eq!(support.message_with("out of order"), "WDIOC_GETSUPPORT: out of order");
    let identity = Error::NoSuchIdentity { want: text("a") };
    assert_eq!(identity.message_with("<a>"), "no watchdog with identity <a>");
    let line = Error::DmesgTimeout { needle: text("a") };
    assert_eq!(line.message_with("<a>"), "dmesg never produced a line containing <a>");
    assert_eq!(Error::NoWatchdog.message_with("x"), Error::NoWatchdog.message());
}

#[test]
fn causes_come_nearest_first() {
    let cause = || text("Device or resource busy (os error 16)");
    let session = Error::OpenNode { node: text("/dev/watchdog0"), cause: cause() };
    assert_eq!(session.message(), "open /dev/watchdog0");
    assert_eq!(session.causes(), vec![text("open(/dev/watchdog0)"), cause()]);
    let device = Error::OpenDevice { path: text("/dev/watchdog0"), cause: cause() };
    assert_eq!(session.causes()[0], device.message());
    assert_eq!(session.causes()[1..], device.causes()[..]);
    for error in [
        device,
        Error::ListDir { cause: cause() },
        Error::OpenAttr { path: text("/a"), cause: cause() },
        Error::OpenKmsg { cause: cause() },
        Error::WriteMagic { cause: cause() },
        Error::WritePing { cause: cause() },
    ] {
        assert_eq!(error.causes(), vec![cause()], "{error:?}");
    }
}

#[test]
fn an_error_that_tells_all_has_no_cause_behind_it() {
    for error in [
        Error::NotRoot { uid: 1 },
        Error::NoWatchdog,
        Error::NoSuchIdentity { want: text("a") },
        Error::DmesgTimeout { needle: text("a") },
        Error::ReadKmsg { cause: text("a") },
        Error::Io { cause: text("a") },
        Error::Ioctl { request: Request::GetStatus, errno: 5 },
        Error::Number { kind: NumberError::Empty },
    ] {
        assert!(error.causes().is_empty(), "{error:?}");
    }
}
