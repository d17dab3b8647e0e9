//! The argument bits of `WDIOC_SETOPTIONS` in `<linux/watchdog.h>`.
use vstd::prelude::*;

verus! {

pub const DISABLECARD: i32 = 0x0001;

pub const ENABLECARD: i32 = 0x0002;

pub const TEMPPANIC: i32 = 0x0004;

/// The bits are those of the kernel: each is a single bit, and no two are the same.
pub proof fn each_argument_is_a_bit_of_its_own()
    ensures
        DISABLECARD == 1,
        ENABLECARD == 2 * DISABLECARD,
        TEMPPANIC == 2 * ENABLECARD,
{
}

} // verus!
