//! The `WDIOF_*` feature bits of `<linux/watchdog.h>`.
use vstd::prelude::*;

verus! {

pub const OVERHEAT: u32 = 0x0001;

pub const FANFAULT: u32 = 0x0002;

pub const EXTERN1: u32 = 0x0004;

pub const EXTERN2: u32 = 0x0008;

pub const POWERUNDER: u32 = 0x0010;

pub const CARDRESET: u32 = 0x0020;

pub const POWEROVER: u32 = 0x0040;

pub const SETTIMEOUT: u32 = 0x0080;

pub const MAGICCLOSE: u32 = 0x0100;

pub const PRETIMEOUT: u32 = 0x0200;

pub const ALARMONLY: u32 = 0x0400;

pub const KEEPALIVEPING: u32 = 0x8000;

/// The bits are those of the kernel: each is a single bit, and no two are the same.
pub proof fn each_option_is_a_bit_of_its_own()
    ensures
        OVERHEAT == 1,
        FANFAULT == 2 * OVERHEAT,
        EXTERN1 == 2 * FANFAULT,
        EXTERN2 == 2 * EXTERN1,
        POWERUNDER == 2 * EXTERN2,
        CARDRESET == 2 * POWERUNDER,
        POWEROVER == 2 * CARDRESET,
        SETTIMEOUT == 2 * POWEROVER,
        MAGICCLOSE == 2 * SETTIMEOUT,
        PRETIMEOUT == 2 * MAGICCLOSE,
        ALARMONLY == 2 * PRETIMEOUT,
        KEEPALIVEPING == 32 * ALARMONLY,
{
}

} // verus!
