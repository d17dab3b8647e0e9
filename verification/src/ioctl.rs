//! The parts of the `WDIOC_*` ioctl codes of `<linux/watchdog.h>`. The codes themselves also
//! depend on the direction of a request and on the size of its argument.
use vstd::prelude::*;

verus! {

/// The letter that all the codes carry: `W`.
pub const WATCHDOG_IOCTL_BASE: u8 = 0x57;

pub const GETSUPPORT: u8 = 0;

pub const GETSTATUS: u8 = 1;

pub const GETBOOTSTATUS: u8 = 2;

pub const GETTEMP: u8 = 3;

/// Encoded as a read, although the argument travels to the kernel.
pub const SETOPTIONS: u8 = 4;

pub const KEEPALIVE: u8 = 5;

pub const SETTIMEOUT: u8 = 6;

pub const GETTIMEOUT: u8 = 7;

pub const SETPRETIMEOUT: u8 = 8;

pub const GETPRETIMEOUT: u8 = 9;

pub const GETTIMELEFT: u8 = 10;

/// Which way the code of a request says that the argument travels.
#[derive(Clone, Copy, Debug, PartialEq, Eq, Structural)]
pub enum Direction {
    /// From the kernel.
    Read,
    /// To the kernel and back.
    ReadWrite,
}

/// The requests that a watchdog device answers.
#[derive(Clone, Copy, Debug, PartialEq, Eq, Structural)]
pub enum Request {
    GetSupport,
    GetStatus,
    GetBootStatus,
    SetOptions,
    KeepAlive,
    SetTimeout,
    GetTimeout,
    GetTimeleft,
}

impl Request {
    /// The number in the code of the request.
    pub open spec fn nr(self) -> u8 {
        match self {
            Request::GetSupport => 0,
            Request::GetStatus => 1,
            Request::GetBootStatus => 2,
            Request::SetOptions => 4,
            Request::KeepAlive => 5,
            Request::SetTimeout => 6,
            Request::GetTimeout => 7,
            Request::GetTimeleft => 10,
        }
    }

    /// The number in the code of the request.
    pub fn number(self) -> (r: u8)
        ensures
            r == self.nr(),
    {
        match self {
            Request::GetSupport => GETSUPPORT,
            Request::GetStatus => GETSTATUS,
            Request::GetBootStatus => GETBOOTSTATUS,
            Request::SetOptions => SETOPTIONS,
            Request::KeepAlive => KEEPALIVE,
            Request::SetTimeout => SETTIMEOUT,
            Request::GetTimeout => GETTIMEOUT,
            Request::GetTimeleft => GETTIMELEFT,
        }
    }

    /// The direction in the code of the request. Only setting the timeout is encoded both ways;
    /// setting the options is encoded as a read.
    pub fn direction(self) -> (r: Direction)
        ensures
            r == (if self == Request::SetTimeout {
                Direction::ReadWrite
            } else {
                Direction::Read
            }),
    {
        match self {
            Request::SetTimeout => Direction::ReadWrite,
            _ => Direction::Read,
        }
    }
}

/// No two requests have the same number.
pub proof fn numbers_tell_requests_apart(a: Request, b: Request)
    ensures
        a.nr() == b.nr() <==> a == b,
{
}

} // verus!
