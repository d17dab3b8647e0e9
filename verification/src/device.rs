//! An open watchdog device: the requests put to it, and how it is closed.
use vstd::prelude::*;

use crate::error::{Error, ErrorView};
use crate::info::WatchdogInfo;
use crate::ioctl::Request;
use crate::number::{decimal, decimals_denote_their_numbers, is_digit, weight};
use crate::sysfs::{outcome, EntryView, WatchdogSysfs};

verus! {

/// The byte that tells the kernel to stop the watchdog when the device is closed: `V`.
pub const MAGIC_BYTE: u8 = 0x56;

/// The byte that is written as a ping: `x`.
pub const PING_BYTE: u8 = 0x78;

/// What is done with the file of a device on the way to closing it.
#[derive(Clone, Copy, Debug, PartialEq, Eq, Structural)]
pub enum DeviceOp {
    /// Write this byte.
    Write { byte: u8 },
    /// Close the file.
    Close,
}

/// An open watchdog device. The file itself is held elsewhere; this is what is known of it.
#[derive(Debug)]
pub struct Watchdog {
    path: String,
    /// Whether the magic byte is still to be written before the file is closed.
    drop_writes_v: bool,
}

/// A [`Watchdog`] as the specifications see it.
#[verifier::ext_equal]
pub struct WatchdogView {
    pub path: Seq<char>,
    pub drop_writes_v: bool,
}

impl View for Watchdog {
    type V = WatchdogView;

    closed spec fn view(&self) -> WatchdogView {
        WatchdogView { path: self.path@, drop_writes_v: self.drop_writes_v }
    }
}

/// A request that hands an integer to the kernel and gets an integer back in its place.
#[derive(Clone, Copy, Debug, PartialEq, Eq, Structural)]
pub struct ValueCall {
    pub request: Request,
    pub arg: i32,
}

/// A request that hands an integer to the kernel and is done when the kernel accepts it.
#[derive(Clone, Copy, Debug, PartialEq, Eq, Structural)]
pub struct UnitCall {
    pub request: Request,
    pub arg: i32,
}

/// A request that hands a blank [`WatchdogInfo`] to the kernel to be filled.
#[derive(Clone, Copy, Debug)]
pub struct InfoCall {
    pub request: Request,
    pub buffer: WatchdogInfo,
}

impl ValueCall {
    /// The result, given what the kernel left in place of the argument, or its error number.
    pub fn finish(self, reply: Result<i32, i32>) -> (r: Result<i32, Error>)
        ensures
            outcome(r) == (match reply {
                Ok(value) => Ok(value),
                Err(errno) => Err(ErrorView::Ioctl { request: self.request, errno }),
            }),
    {
        match reply {
            Ok(value) => Ok(value),
            Err(errno) => Err(Error::Ioctl { request: self.request, errno }),
        }
    }
}

impl UnitCall {
    /// The result, given what the kernel left in place of the argument, or its error number.
    pub fn finish(self, reply: Result<i32, i32>) -> (r: Result<(), Error>)
        ensures
            outcome(r) == (match reply {
                Ok(_) => Ok(()),
                Err(errno) => Err(ErrorView::Ioctl { request: self.request, errno }),
            }),
    {
        match reply {
            Ok(_) => Ok(()),
            Err(errno) => Err(Error::Ioctl { request: self.request, errno }),
        }
    }
}

impl InfoCall {
    /// The result, given what the kernel made of the buffer, or its error number.
    pub fn finish(self, reply: Result<WatchdogInfo, i32>) -> (r: Result<WatchdogInfo, Error>)
        ensures
            outcome(r) == (match reply {
                Ok(info) => Ok(info),
                Err(errno) => Err(ErrorView::Ioctl { request: self.request, errno }),
            }),
    {
        match reply {
            Ok(info) => Ok(info),
            Err(errno) => Err(Error::Ioctl { request: self.request, errno }),
        }
    }
}

/// A byte on its way to the device as a ping.
#[derive(Clone, Copy, Debug, PartialEq, Eq, Structural)]
pub struct PingCall {
    pub op: DeviceOp,
}

impl PingCall {
    /// The result, given how writing the byte went.
    pub fn finish(self, written: Result<(), String>) -> (r: Result<(), Error>)
        ensures
            outcome(r) == (match written {
                Ok(_) => Ok(()),
                Err(cause) => Err(ErrorView::WritePing { cause: cause@ }),
            }),
    {
        match written {
            Ok(_) => Ok(()),
            Err(cause) => Err(Error::WritePing { cause }),
        }
    }
}

impl WatchdogView {
    /// A device that has just been opened.
    pub open spec fn opened(path: Seq<char>) -> WatchdogView {
        WatchdogView { path, drop_writes_v: true }
    }

    /// The handle after an attempt to write the magic byte: once it is written, it is not
    /// written again.
    pub open spec fn after_magic(self, written: bool) -> WatchdogView {
        WatchdogView { path: self.path, drop_writes_v: self.drop_writes_v && !written }
    }

    /// Everything that happens to the file when the handle is dropped.
    pub open spec fn drop_trace(self) -> Seq<DeviceOp> {
        if self.drop_writes_v {
            seq![DeviceOp::Write { byte: MAGIC_BYTE }, DeviceOp::Close]
        } else {
            seq![DeviceOp::Close]
        }
    }

    /// Everything that happens to the file in a magic close whose first write succeeds or not.
    pub open spec fn magic_close_trace(self, written: bool) -> Seq<DeviceOp> {
        seq![DeviceOp::Write { byte: MAGIC_BYTE }] + self.after_magic(written).drop_trace()
    }
}

/// A magic close that has begun: the magic byte is about to be written.
#[derive(Debug)]
pub struct MagicClose {
    handle: Watchdog,
}

/// How a magic close ends.
#[derive(Debug)]
pub struct Closing {
    /// Whether the magic byte was written at the first attempt.
    pub result: Result<(), Error>,
    /// What is left to be done with the file. Whether it succeeds does not matter any more.
    pub ops: Vec<DeviceOp>,
}

impl MagicClose {
    /// The handle that is being closed.
    pub closed spec fn handle(&self) -> WatchdogView {
        self.handle@
    }

    /// The first operation on the file.
    pub fn first_op(&self) -> (r: DeviceOp)
        ensures
            r == (DeviceOp::Write { byte: MAGIC_BYTE }),
    {
        DeviceOp::Write { byte: MAGIC_BYTE }
    }

    /// The end of the close, given how the first operation went.
    pub fn finish(self, written: Result<(), String>) -> (r: Closing)
        ensures
            outcome(r.result) == (match written {
                Ok(_) => Ok(()),
                Err(cause) => Err(ErrorView::WriteMagic { cause: cause@ }),
            }),
            r.ops@ == self.handle().after_magic(written is Ok).drop_trace(),
    {
        let mut handle: Watchdog = self.handle;
        match written {
            Ok(_) => {
                handle.drop_writes_v = false;
                Closing { result: Ok(()), ops: handle.drop_ops() }
            },
            Err(cause) => Closing {
                result: Err(Error::WriteMagic { cause }),
                ops: handle.drop_ops(),
            },
        }
    }
}

impl Watchdog {
    /// The handle of the device at `path`, given how opening it for reading and writing went.
    pub fn open(path: String, opened: Result<(), String>) -> (r: Result<Watchdog, Error>)
        ensures
            match opened {
                Ok(_) => r matches Ok(w) && w@ == WatchdogView::opened(path@),
                Err(cause) => r matches Err(e) && e@ == (ErrorView::OpenDevice {
                    path: path@,
                    cause: cause@,
                }),
            },
    {
        match opened {
            Ok(_) => Ok(Watchdog { path, drop_writes_v: true }),
            Err(cause) => Err(Error::OpenDevice { path, cause }),
        }
    }

    /// The path under which the device was opened.
    pub fn path(&self) -> (r: &str)
        ensures
            r@ == self@.path,
    {
        self.path.as_str()
    }

    /// `WDIOC_GETSUPPORT`: what the driver says about itself.
    pub fn info(&self) -> (r: InfoCall)
        ensures
            r.request == Request::GetSupport,
            r.buffer.options == 0,
            r.buffer.firmware_version == 0,
            forall|i: int| 0 <= i < 32 ==> r.buffer.identity@[i] == 0,
    {
        InfoCall { request: Request::GetSupport, buffer: WatchdogInfo::default() }
    }

    /// `WDIOC_GETSTATUS`: the current alarm bits.
    pub fn status(&self) -> (r: ValueCall)
        ensures
            r == (ValueCall { request: Request::GetStatus, arg: 0 }),
    {
        ValueCall { request: Request::GetStatus, arg: 0 }
    }

    /// `WDIOC_GETBOOTSTATUS`: the bits that the last reset has set.
    pub fn boot_status(&self) -> (r: ValueCall)
        ensures
            r == (ValueCall { request: Request::GetBootStatus, arg: 0 }),
    {
        ValueCall { request: Request::GetBootStatus, arg: 0 }
    }

    /// `WDIOC_GETTIMEOUT`: the timeout in effect, in seconds.
    pub fn timeout(&self) -> (r: ValueCall)
        ensures
            r == (ValueCall { request: Request::GetTimeout, arg: 0 }),
    {
        ValueCall { request: Request::GetTimeout, arg: 0 }
    }

    /// `WDIOC_SETTIMEOUT`: asks for a timeout of `secs` seconds. The result is the timeout that
    /// the kernel has set, which may be another.
    pub fn set_timeout(&self, secs: i32) -> (r: ValueCall)
        ensures
            r == (ValueCall { request: Request::SetTimeout, arg: secs }),
    {
        ValueCall { request: Request::SetTimeout, arg: secs }
    }

    /// `WDIOC_GETTIMELEFT`: the seconds until the watchdog fires.
    pub fn timeleft(&self) -> (r: ValueCall)
        ensures
            r == (ValueCall { request: Request::GetTimeleft, arg: 0 }),
    {
        ValueCall { request: Request::GetTimeleft, arg: 0 }
    }

    /// `WDIOC_KEEPALIVE`: a ping.
    pub fn keep_alive(&self) -> (r: UnitCall)
        ensures
            r == (UnitCall { request: Request::KeepAlive, arg: 0 }),
    {
        UnitCall { request: Request::KeepAlive, arg: 0 }
    }

    /// `WDIOC_SETOPTIONS`: turns the watchdog off or on.
    pub fn set_options(&self, bits: i32) -> (r: UnitCall)
        ensures
            r == (UnitCall { request: Request::SetOptions, arg: bits }),
    {
        UnitCall { request: Request::SetOptions, arg: bits }
    }

    /// A ping by writing a byte, which is any but the magic one.
    pub fn write_byte_ping(&self) -> (r: PingCall)
        ensures
            r.op == (DeviceOp::Write { byte: PING_BYTE }),
            r.op != (DeviceOp::Write { byte: MAGIC_BYTE }),
    {
        PingCall { op: DeviceOp::Write { byte: PING_BYTE } }
    }

    /// What is done with the file when the handle is dropped. Whether the write succeeds does
    /// not matter any more.
    pub fn drop_ops(&self) -> (r: Vec<DeviceOp>)
        ensures
            r@ == self@.drop_trace(),
    {
        let mut ops: Vec<DeviceOp> = Vec::new();
        if self.drop_writes_v {
            ops.push(DeviceOp::Write { byte: MAGIC_BYTE });
        }
        ops.push(DeviceOp::Close);
        assert(ops@ =~= self@.drop_trace());
        ops
    }

    /// Begins a close that reports whether the magic byte could be written.
    pub fn magic_close(self) -> (r: MagicClose)
        ensures
            r.handle() == self@,
    {
        MagicClose { handle: self }
    }

    /// A close that does not write the magic byte, so that the kernel keeps the watchdog
    /// running: what is done with the file.
    pub fn close_without_v(self) -> (r: Vec<DeviceOp>)
        ensures
            r@ == seq![DeviceOp::Close],
    {
        let mut handle: Watchdog = self;
        handle.drop_writes_v = false;
        handle.drop_ops()
    }
}

impl WatchdogSysfs {
    /// The handle of the device of this watchdog, given how opening its node went.
    pub fn open_dev(&self, opened: Result<(), String>) -> (r: Result<Watchdog, Error>)
        ensures
            match opened {
                Ok(_) => r matches Ok(w) && w@ == WatchdogView::opened(self@.node()),
                Err(cause) => r matches Err(e) && e@ == (ErrorView::OpenDevice {
                    path: self@.node(),
                    cause: cause@,
                }),
            },
    {
        Watchdog::open(self.dev_node(), opened)
    }
}

/// A device that was opened is not closed before an attempt to write the magic byte, unless the
/// caller asks for just that: both dropping the handle and a magic close write `V` and then close
/// the file, once. A magic close writes `V` a second time only where the first time failed.
pub proof fn every_ordinary_close_writes_v_first(path: Seq<char>, written: bool)
    ensures
        ({
            let handle = WatchdogView::opened(path);
            let v = DeviceOp::Write { byte: MAGIC_BYTE };
            &&& handle.drop_trace() == seq![v, DeviceOp::Close]
            &&& handle.magic_close_trace(true) == seq![v, DeviceOp::Close]
            &&& handle.magic_close_trace(false) == seq![v, v, DeviceOp::Close]
            &&& handle.magic_close_trace(written)[0] == v
            &&& handle.magic_close_trace(written).last() == DeviceOp::Close
            &&& handle.magic_close_trace(written).drop_last().contains(DeviceOp::Close) == false
        }),
{
    let handle = WatchdogView::opened(path);
    let v = DeviceOp::Write { byte: MAGIC_BYTE };
    assert(handle.magic_close_trace(true) =~= seq![v, DeviceOp::Close]);
    assert(handle.magic_close_trace(false) =~= seq![v, v, DeviceOp::Close]);
}

/// What becomes of the file of a device that was opened: `V` and a close where the handle is
/// dropped, and where a magic close has failed to write its `V`; a close alone where the magic
/// close has written it. The path stays what it was.
pub proof fn a_device_is_stopped_before_it_is_closed(path: Seq<char>, written: bool)
    ensures
        ({
            let handle = WatchdogView::opened(path);
            let v = DeviceOp::Write { byte: 0x56 };
            &&& handle.path == path
            &&& handle.after_magic(written).path == path
            &&& handle.drop_trace() == seq![v, DeviceOp::Close]
            &&& handle.after_magic(written).drop_trace() == (if written {
                seq![DeviceOp::Close]
            } else {
                seq![v, DeviceOp::Close]
            })
            &&& handle.magic_close_trace(written) == seq![v] + handle.after_magic(
                written,
            ).drop_trace()
        }),
{
}

/// The device node of a watchdog is the file in `/dev` that has its number behind `watchdog`.
pub proof fn the_device_node_has_the_number(sys: EntryView) -> (digits: Seq<char>)
    ensures
        sys.node() == "/dev/watchdog"@ + digits,
        weight(digits, 10) == sys.index,
        digits.len() > 0,
        forall|i: int| 0 <= i < digits.len() ==> is_digit(#[trigger] digits[i]),
        digits[0] == '0' ==> digits.len() == 1,
{
    decimals_denote_their_numbers(sys.index as nat);
    decimal(sys.index as nat)
}

} // verus!
