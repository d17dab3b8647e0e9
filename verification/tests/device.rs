//! Requests to a device, and how it is closed.

use wdctl::device::{DeviceOp, UnitCall, ValueCall, MAGIC_BYTE, PING_BYTE};
use wdctl::ioctl::{Direction, Request};
use wdctl::{ioctl, options, setopts};
use wdctl::{identity_str, Watchdog, WatchdogInfo, WatchdogSysfs};

const V: DeviceOp = DeviceOp::Write { byte: b'V' };

fn watchdog0() -> Watchdog {
    Watchdog::open(String::from("/dev/watchdog0"), Ok(())).unwrap()
}

#[test]
fn the_constants_are_those_of_the_kernel() {
    assert_eq!(ioctl::WATCHDOG_IOCTL_BASE, b'W');
    assert_eq!(
        [
            ioctl::GETSUPPORT,
            ioctl::GETSTATUS,
            ioctl::GETBOOTSTATUS,
            ioctl::GETTEMP,
            ioctl::SETOPTIONS,
            ioctl::KEEPALIVE,
            ioctl::SETTIMEOUT,
            ioctl::GETTIMEOUT,
            ioctl::SETPRETIMEOUT,
            ioctl::GETPRETIMEOUT,
            ioctl::GETTIMELEFT,
        ],
        [0, 1, 2, 3, 4, 5, 6, 7, 8, 9, 10]
    );
    assert_eq!(MAGIC_BYTE, b'V');
    assert_eq!(PING_BYTE, b'x');
    assert_eq!(options::CARDRESET, 0x20);
    assert_eq!(options::KEEPALIVEPING, 0x8000);
    assert_eq!(setopts::TEMPPANIC, 4);
}

#[test]
fn each_request_has_its_number_and_direction() {
    for (request, number, direction) in [
        (Request::GetSupport, 0, Direction::Read),
        (Request::GetStatus, 1, Direction::Read),
        (Request::GetBootStatus, 2, Direction::Read),
        // Encoded as a read, although it sets something.
        (Request::SetOptions, 4, Direction::Read),
        (Request::KeepAlive, 5, Direction::Read),
        (Request::SetTimeout, 6, Direction::ReadWrite),
        (Request::GetTimeout, 7, Direction::Read),
        (Request::GetTimeleft, 10, Direction::Read),
    ] {
        assert_eq!(request.number(), number, "{request:?}");
        assert_eq!(request.direction(), direction, "{request:?}");
    }
    assert_eq!(watchdog0().set_options(-1).request.number(), 4);
    assert_eq!(watchdog0().set_options(-1).arg, -1);
}

#[test]
fn opening_gives_a_handle_or_an_error() {
    assert_eq!(watchdog0().path(), "/dev/watchdog0");
    let refused = Watchdog::open(
        String::from("/dev/watchdog3"),
        Err(String::from("Device or resource busy (os error 16)")),
    );
    assert_eq!(refused.unwrap_err().message(), "open(/dev/watchdog3)");
}

#[test]
fn an_entry_opens_its_own_node() {
    let sys = WatchdogSysfs { index: 12, sysfs: String::from("/sys/class/watchdog/watchdog12") };
    assert_eq!(sys.open_dev(Ok(())).unwrap().path(), "/dev/watchdog12");
    let refused = sys.open_dev(Err(String::from("Permission denied (os error 13)")));
    assert_eq!(refused.unwrap_err().message(), "open(/dev/watchdog12)");
}

#[test]
fn each_call_names_its_request_and_argument() {
    let w = watchdog0();
    assert_eq!(w.status(), ValueCall { request: Request::GetStatus, arg: 0 });
    assert_eq!(w.boot_status(), ValueCall { request: Request::GetBootStatus, arg: 0 });
    assert_eq!(w.timeout(), ValueCall { request: Request::GetTimeout, arg: 0 });
    assert_eq!(w.timeleft(), ValueCall { request: Request::GetTimeleft, arg: 0 });
    assert_eq!(w.set_timeout(30), ValueCall { request: Request::SetTimeout, arg: 30 });
    assert_eq!(w.set_timeout(-1), ValueCall { request: Request::SetTimeout, arg: -1 });
    assert_eq!(w.keep_alive(), UnitCall { request: Request::KeepAlive, arg: 0 });
    assert_eq!(
        w.set_options(setopts::DISABLECARD),
        UnitCall { request: Request::SetOptions, arg: 1 }
    );
}

#[test]
fn the_kernel_s_value_is_the_result() {
    let w = watchdog0();
    // The kernel may set another timeout than the one that was asked for.
    assert_eq!(w.set_timeout(3600).finish(Ok(85)).unwrap(), 85);
    assert_eq!(w.timeleft().finish(Ok(7)).unwrap(), 7);
    assert!(w.keep_alive().finish(Ok(0)).is_ok());
    assert!(w.set_options(setopts::ENABLECARD).finish(Ok(2)).is_ok());
}

#[test]
fn the_kernel_s_error_is_reported() {
    let w = watchdog0();
    assert_eq!(w.status().finish(Err(25)).unwrap_err().message(), "ENOTTY: Not a typewriter");
    assert_eq!(w.timeout().finish(Err(5)).unwrap_err().message(), "EIO: I/O error");
    assert_eq!(w.keep_alive().finish(Err(19)).unwrap_err().message(), "ENODEV: No such device");
    assert_eq!(
        w.set_options(setopts::DISABLECARD).finish(Err(16)).unwrap_err().message(),
        "EBUSY: Device or resource busy"
    );
}

#[test]
fn the_info_request_starts_from_a_blank() {
    let call = watchdog0().info();
    assert_eq!(call.request, Request::GetSupport);
    assert_eq!(call.buffer.options, 0);
    assert_eq!(call.buffer.firmware_version, 0);
    assert_eq!(call.buffer.identity, [0; 32]);
    let mut filled = call.buffer;
    filled.options = 0x8180;
    filled.firmware_version = 3;
    filled.identity[..7].copy_from_slice(b"softdog");
    let info = call.finish(Ok(filled)).unwrap();
    assert_eq!(info.options, 0x8180);
    assert_eq!(info.firmware_version, 3);
    assert_eq!(identity_str(&info), "softdog");
    assert_eq!(
        watchdog0().info().finish(Err(25)).unwrap_err().message(),
        "WDIOC_GETSUPPORT: ENOTTY: Not a typewriter"
    );
}

#[test]
fn a_ping_writes_a_byte_that_is_not_the_magic_one() {
    let call = watchdog0().write_byte_ping();
    assert_eq!(call.op, DeviceOp::Write { byte: b'x' });
    assert_ne!(call.op, V);
    assert!(call.finish(Ok(())).is_ok());
    assert_eq!(
        call.finish(Err(String::from("No such device (os error 19)"))).unwrap_err().message(),
        "write byte ping"
    );
}

#[test]
fn a_dropped_handle_writes_v_and_closes() {
    assert_eq!(watchdog0().drop_ops(), vec![V, DeviceOp::Close]);
}

#[test]
fn a_magic_close_writes_v_once() {
    let close = watchdog0().magic_close();
    assert_eq!(close.first_op(), V);
    let closing = close.finish(Ok(()));
    assert!(closing.result.is_ok());
    assert_eq!(closing.ops, vec![DeviceOp::Close]);
}

#[test]
fn a_failed_magic_close_tries_once_more() {
    let close = watchdog0().magic_close();
    assert_eq!(close.first_op(), V);
    let closing = close.finish(Err(String::from("Bad file descriptor (os error 9)")));
    assert_eq!(closing.result.unwrap_err().message(), "write 'V'");
    assert_eq!(closing.ops, vec![V, DeviceOp::Close]);
}

#[test]
fn a_close_without_v_only_closes() {
    assert_eq!(watchdog0().close_without_v(), vec![DeviceOp::Close]);
}

fn named(identity: [u8; 32]) -> WatchdogInfo {
    WatchdogInfo { identity, ..WatchdogInfo::default() }
}

#[test]
fn an_identity_ends_at_the_first_zero() {
    let mut bytes = [0u8; 32];
    assert_eq!(identity_str(&named(bytes)), "");
    bytes[..8].copy_from_slice(b"iTCO_wdt");
    assert_eq!(identity_str(&named(bytes)), "iTCO_wdt");
    // What stands behind the zero does not matter, be it text or not.
    bytes[9..11].copy_from_slice(&[b'x', 0xff]);
    assert_eq!(identity_str(&named(bytes)), "iTCO_wdt");
    let mut full = [b'a'; 32];
    full[31] = 0;
    assert_eq!(identity_str(&named(full)), "a".repeat(31));
}

#[test]
fn an_identity_without_a_zero_is_empty() {
    assert_eq!(identity_str(&named([b'a'; 32])), "");
}

#[test]
fn an_identity_that_is_not_utf8_is_empty() {
    let mut bytes = [0u8; 32];
    bytes[..3].copy_from_slice(&[b'a', 0xff, b'b']);
    assert_eq!(identity_str(&named(bytes)), "");
    // Half of a character.
    bytes[..3].copy_from_slice(&[b'a', 0xc3, 0]);
    assert_eq!(identity_str(&named(bytes)), "");
}

#[test]
fn a_stored_identity_is_read_back() {
    for name in ["", "x", "SBSA Generic Watchdog", "caf\u{e9} \u{2014} \u{1f415}"] {
        let mut bytes = [0u8; 32];
        bytes[..name.len()].copy_from_slice(name.as_bytes());
        assert_eq!(identity_str(&named(bytes)), name);
    }
}
