//! Talking to the watchdogs of a Linux system, and testing their drivers.
//!
//! The crate holds the decisions: what to ask a watchdog device and what to make of the answer
//! ([`device`], [`info`]), which watchdogs there are ([`enumerate`]) and what their sysfs
//! attributes say ([`sysfs`]), what the kernel log says ([`dmesg`], [`pattern`]), and what a test
//! suite for drivers needs on top ([`harness`]). It does no input or output. Each function that
//! stands for an operation of the system takes what the system answered as a plain value, and
//! gives back what is to be done as a plain value.

pub mod device;
pub mod dmesg;
pub mod enumerate;
pub mod error;
pub mod foreign;
pub mod harness;
pub mod info;
pub mod ioctl;
pub mod number;
pub mod options;
pub mod pattern;
pub mod setopts;
pub mod sysfs;
pub mod text;

pub use crate::device::Watchdog;
pub use crate::dmesg::{dmesg_eventually, dmesg_find, dmesg_snapshot};
pub use crate::enumerate::enumerate;
pub use crate::error::Error;
pub use crate::harness::{assert_options_supports, describe, pick_watchdog};
pub use crate::harness::{require_lab_consent, require_root, skip_unless_identity, with_open};
pub use crate::info::{identity_str, WatchdogInfo};
pub use crate::sysfs::WatchdogSysfs;
